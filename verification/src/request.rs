//! The request as the pipeline sees it: method, target, version, headers and
//! the buffered body, all as plain values.

use vstd::prelude::*;
use vstd::string::*;

verus! {

use crate::headers::{RhodHeaderMap, lower_char, lower_char_exec, lower_chars};

/// How a request body is encoded, judged from the content-type header.
#[derive(Debug, PartialEq, Eq, Structural)]
pub enum BodyProcessor {
    URLENCODED,
    XML,
    JSON,
    MULTIPART,
    Other,
}

/// The protocol version a request or response was carried with.
#[derive(Debug, Clone, Copy, PartialEq, Eq, Structural)]
pub enum RhodVersion {
    Http09,
    Http10,
    Http11,
    Http2,
    Http3,
}

impl RhodVersion {
    pub fn as_str(&self) -> (r: &str)
        ensures
            self is Http09 ==> r@ == "HTTP/0.9"@,
            self is Http10 ==> r@ == "HTTP/1.0"@,
            self is Http11 ==> r@ == "HTTP/1.1"@,
            self is Http2 ==> r@ == "HTTP/2.0"@,
            self is Http3 ==> r@ == "HTTP/3.0"@,
    {
        match self {
            RhodVersion::Http09 => "HTTP/0.9",
            RhodVersion::Http10 => "HTTP/1.0",
            RhodVersion::Http11 => "HTTP/1.1",
            RhodVersion::Http2 => "HTTP/2.0",
            RhodVersion::Http3 => "HTTP/3.0",
        }
    }
}

/// The request target, split in its parts.
#[derive(Debug)]
pub struct RhodUri {
    host: Option<String>,
    path: String,
    query: Option<String>,
}

impl RhodUri {
    pub closed spec fn spec_host(&self) -> Option<Seq<char>> {
        match self.host {
            Some(h) => Some(h@),
            None => None,
        }
    }

    pub closed spec fn spec_path(&self) -> Seq<char> {
        self.path@
    }

    pub closed spec fn spec_query(&self) -> Option<Seq<char>> {
        match self.query {
            Some(q) => Some(q@),
            None => None,
        }
    }

    pub fn new(host: Option<String>, path: String, query: Option<String>) -> (u: RhodUri)
        ensures
            u.spec_host() == match host {
                Some(h) => Some(h@),
                None => None::<Seq<char>>,
            },
            u.spec_path() == path@,
            u.spec_query() == match query {
                Some(q) => Some(q@),
                None => None::<Seq<char>>,
            },
    {
        RhodUri { host, path, query }
    }

    pub fn host(&self) -> (r: Option<&str>)
        ensures
            match r {
                Some(h) => self.spec_host() == Some(h@),
                None => self.spec_host() is None,
            },
    {
        match &self.host {
            Some(h) => Some(h.as_str()),
            None => None,
        }
    }

    pub fn path(&self) -> (r: &str)
        ensures
            r@ == self.spec_path(),
    {
        self.path.as_str()
    }

    pub fn query(&self) -> (r: Option<&str>)
        ensures
            match r {
                Some(q) => self.spec_query() == Some(q@),
                None => self.spec_query() is None,
            },
    {
        match &self.query {
            Some(q) => Some(q.as_str()),
            None => None,
        }
    }
}

/// The needle occurs in the haystack at offset i, comparing the haystack
/// without regard to ASCII case; the needle is taken as written.
pub open spec fn contains_at(hay: Seq<char>, needle: Seq<char>, i: int) -> bool {
    0 <= i && i + needle.len() <= hay.len() && forall|j: int|
        0 <= j < needle.len() ==> lower_char(hay[i + j]) == needle[j]
}

/// The needle occurs somewhere in the haystack, comparing the haystack
/// without regard to ASCII case.
pub open spec fn contains_ci(hay: Seq<char>, needle: Seq<char>) -> bool {
    exists|i: int| contains_at(hay, needle, i)
}

fn str_contains_ci(hay: &str, needle: &str) -> (r: bool)
    ensures
        r == contains_ci(hay@, needle@),
{
    let n = hay.unicode_len();
    let m = needle.unicode_len();
    if m > n {
        return false;
    }
    let mut i: usize = 0;
    while i <= n - m
        invariant
            n == hay@.len(),
            m == needle@.len(),
            m <= n,
            i <= n - m + 1,
            forall|k: int| 0 <= k < i ==> !contains_at(hay@, needle@, k),
        decreases n + 1 - m - i,
    {
        let mut j: usize = 0;
        let mut matched = true;
        while j < m
            invariant
                n == hay@.len(),
                m == needle@.len(),
                i + m <= n,
                j <= m,
                matched <==> forall|l: int| 0 <= l < j ==> lower_char(hay@[i + l]) == needle@[l],
            decreases m - j,
        {
            let hc = hay.get_char(i + j);
            let nc = needle.get_char(j);
            if lower_char_exec(hc) != nc {
                matched = false;
                j = m;
            } else {
                j += 1;
            }
        }
        if matched {
            assert(contains_at(hay@, needle@, i as int));
            return true;
        }
        i += 1;
    }
    assert forall|k: int| !contains_at(hay@, needle@, k) by {
        if 0 <= k && k + needle@.len() <= hay@.len() {
            assert(k < i);
        }
    }
    false
}

/// The encoding named by a content-type value, judged without regard to the
/// value's ASCII case.
pub open spec fn body_processor_of(value: Seq<char>) -> BodyProcessor {
    if contains_ci(value, "application/x-www-form-urlencoded"@) {
        BodyProcessor::URLENCODED
    } else if contains_ci(value, "application/xml"@) {
        BodyProcessor::XML
    } else if contains_ci(value, "application/json"@) {
        BodyProcessor::JSON
    } else if contains_ci(value, "multipart/form-data"@) {
        BodyProcessor::MULTIPART
    } else {
        BodyProcessor::Other
    }
}

/// A request in flight: owned by the pipeline until the terminal service
/// consumes it, mutable by every forward-pass stage.
#[derive(Debug)]
pub struct RhodRequest {
    method: String,
    uri: RhodUri,
    version: RhodVersion,
    headers: RhodHeaderMap,
    body: Vec<u8>,
}

impl RhodRequest {
    pub closed spec fn spec_method(&self) -> Seq<char> {
        self.method@
    }

    pub closed spec fn spec_uri(&self) -> RhodUri {
        self.uri
    }

    pub closed spec fn spec_version(&self) -> RhodVersion {
        self.version
    }

    pub closed spec fn spec_headers(&self) -> Map<Seq<char>, Seq<char>> {
        self.headers@
    }

    pub closed spec fn spec_body(&self) -> Seq<u8> {
        self.body@
    }

    pub closed spec fn wf(&self) -> bool {
        self.headers.wf()
    }

    pub fn new(
        method: String,
        uri: RhodUri,
        version: RhodVersion,
        headers: RhodHeaderMap,
        body: Vec<u8>,
    ) -> (r: RhodRequest)
        requires
            headers.wf(),
        ensures
            r.wf(),
            r.spec_method() == method@,
            r.spec_uri() == uri,
            r.spec_version() == version,
            r.spec_headers() == headers@,
            r.spec_body() == body@,
    {
        RhodRequest { method, uri, version, headers, body }
    }

    pub fn uri(&self) -> (r: &RhodUri)
        ensures
            *r == self.spec_uri(),
    {
        &self.uri
    }

    pub fn set_uri(&mut self, uri: RhodUri)
        requires
            old(self).wf(),
        ensures
            final(self).wf(),
            final(self).spec_uri() == uri,
            final(self).spec_method() == old(self).spec_method(),
            final(self).spec_version() == old(self).spec_version(),
            final(self).spec_headers() == old(self).spec_headers(),
            final(self).spec_body() == old(self).spec_body(),
    {
        self.uri = uri;
    }

    pub fn method(&self) -> (r: &String)
        ensures
            r@ == self.spec_method(),
    {
        &self.method
    }

    pub fn method_str(&self) -> (r: &str)
        ensures
            r@ == self.spec_method(),
    {
        self.method.as_str()
    }

    pub fn is_post(&self) -> (r: bool)
        ensures
            r == (self.spec_method() == "POST"@),
    {
        let post: String = "POST".to_owned();
        self.method == post
    }

    pub fn version(&self) -> (r: RhodVersion)
        ensures
            r == self.spec_version(),
    {
        self.version
    }

    pub fn set_version(&mut self, version: RhodVersion)
        requires
            old(self).wf(),
        ensures
            final(self).wf(),
            final(self).spec_version() == version,
            final(self).spec_method() == old(self).spec_method(),
            final(self).spec_uri() == old(self).spec_uri(),
            final(self).spec_headers() == old(self).spec_headers(),
            final(self).spec_body() == old(self).spec_body(),
    {
        self.version = version;
    }

    pub fn headers(&self) -> (r: &RhodHeaderMap)
        ensures
            r@ == self.spec_headers(),
            r.wf() == self.wf(),
    {
        &self.headers
    }

    pub fn insert_header(&mut self, name: &str, value: &str)
        requires
            old(self).wf(),
        ensures
            final(self).wf(),
            final(self).spec_headers() == old(self).spec_headers().insert(
                lower_chars(name@),
                value@,
            ),
            final(self).spec_method() == old(self).spec_method(),
            final(self).spec_uri() == old(self).spec_uri(),
            final(self).spec_version() == old(self).spec_version(),
            final(self).spec_body() == old(self).spec_body(),
    {
        self.headers.insert(name, value);
    }

    /// The buffered body bytes.
    pub fn body(&self) -> (r: &Vec<u8>)
        ensures
            r@ == self.spec_body(),
    {
        &self.body
    }

    /// Judges from the content-type header how the body is encoded; a
    /// request without that header gives no judgement.
    pub fn body_processor(&self) -> (r: Option<BodyProcessor>)
        requires
            self.wf(),
        ensures
            match r {
                Some(p) => self.spec_headers().contains_key(lower_chars("Content-Type"@))
                    && p == body_processor_of(
                    self.spec_headers()[lower_chars("Content-Type"@)],
                ),
                None => !self.spec_headers().contains_key(lower_chars("Content-Type"@)),
            },
    {
        match self.headers.get("Content-Type") {
            Some(value) => {
                let v = value.as_str();
                if str_contains_ci(v, "application/x-www-form-urlencoded") {
                    Some(BodyProcessor::URLENCODED)
                } else if str_contains_ci(v, "application/xml") {
                    Some(BodyProcessor::XML)
                } else if str_contains_ci(v, "application/json") {
                    Some(BodyProcessor::JSON)
                } else if str_contains_ci(v, "multipart/form-data") {
                    Some(BodyProcessor::MULTIPART)
                } else {
                    Some(BodyProcessor::Other)
                }
            },
            None => None,
        }
    }

    /// The version, as the text a request line carries.
    pub fn version_string(&self) -> (r: String)
        ensures
            r@ == self.spec_version_string(),
    {
        String::from_str(self.version.as_str())
    }

    pub open spec fn spec_version_string(&self) -> Seq<char> {
        match self.spec_version() {
            RhodVersion::Http09 => "HTTP/0.9"@,
            RhodVersion::Http10 => "HTTP/1.0"@,
            RhodVersion::Http11 => "HTTP/1.1"@,
            RhodVersion::Http2 => "HTTP/2.0"@,
            RhodVersion::Http3 => "HTTP/3.0"@,
        }
    }

    /// The opening line of the request on the wire: method, path, version.
    pub fn request_line(&self) -> (r: String)
        ensures
            r@ == self.spec_method() + " "@ + self.spec_uri().spec_path() + " "@
                + self.spec_version_string(),
    {
        let mut line = self.method.clone();
        line.append(" ");
        line.append(self.uri.path());
        line.append(" ");
        line.append(self.version.as_str());
        line
    }
}

} // verus!
