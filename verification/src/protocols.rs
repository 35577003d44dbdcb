//! Transport schemes a server can listen with.

use vstd::prelude::*;

verus! {

/// The scheme a connection arrived over.
#[derive(Debug, Clone, PartialEq, Eq, Structural)]
pub enum HttpProtocol {
    HTTP,
    HTTPS,
}

impl HttpProtocol {
    pub fn to_string(&self) -> (r: &str)
        ensures
            self is HTTP ==> r@ == "http"@,
            self is HTTPS ==> r@ == "https"@,
    {
        match self {
            HttpProtocol::HTTP => "http",
            HttpProtocol::HTTPS => "https",
        }
    }
}

/// Server configuration: listen in the clear, or over TLS with the given
/// certificate and private-key files.
#[derive(Debug, Clone, PartialEq, Eq)]
pub enum HttpProtocolConf {
    HTTP,
    HTTPS { cert_file: String, key_file: String },
}

impl HttpProtocolConf {
    pub fn to_string(&self) -> (r: &str)
        ensures
            self is HTTP ==> r@ == "http"@,
            self is HTTPS ==> r@ == "https"@,
    {
        match self {
            HttpProtocolConf::HTTP => "http",
            HttpProtocolConf::HTTPS { .. } => "https",
        }
    }
}

} // verus!
