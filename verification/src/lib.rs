//! A middleware pipeline for request/response processing.
//!
//! A request travels forward through an ordered sequence of stages, reaches a
//! single terminal service, and the produced response travels backward through
//! the same stages in reverse order. The first error recorded in a pass wins:
//! later stages of that pass receive a recovery notification instead of normal
//! processing.

use vstd::prelude::*;

pub mod errors;
pub mod executor;
pub mod headers;
pub mod pipeline;
pub mod protocols;
pub mod request;
pub mod response;
pub mod stack;

verus! {

use crate::protocols::HttpProtocol;

/// Immutable facts about the connection a request arrived on: the peer
/// address in display form and the transport scheme.
#[derive(Clone, Debug)]
pub struct RhodConnInfo {
    pub addr: String,
    pub proto: HttpProtocol,
}

impl RhodConnInfo {
    pub fn new(addr: String, proto: HttpProtocol) -> (c: RhodConnInfo)
        ensures
            c.addr@ == addr@,
            c.proto == proto,
    {
        RhodConnInfo { addr, proto }
    }
}

/// Cross-stage scratch state, defined by the user of the library. A fresh
/// value is built for every request and handed by mutable reference to each
/// stage call and to the terminal service of that request.
pub trait CommunicationChannel: Sized {
    fn new() -> Self;
}

} // verus!
