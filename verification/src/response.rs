//! The response as the pipeline sees it: status, headers and the buffered
//! body, all as plain values. A response is moved by value between
//! backward-pass stages.

use vstd::prelude::*;

verus! {

use crate::headers::{RhodHeaderMap, lower_chars};

/// A response in flight: created by the terminal service (or synthesized by a
/// stage), consumed and returned by each backward-pass stage in turn.
#[derive(Debug)]
pub struct RhodResponse {
    status: u16,
    headers: RhodHeaderMap,
    body: Vec<u8>,
}

impl RhodResponse {
    pub closed spec fn spec_status(&self) -> u16 {
        self.status
    }

    pub closed spec fn spec_headers(&self) -> Map<Seq<char>, Seq<char>> {
        self.headers@
    }

    pub closed spec fn spec_body(&self) -> Seq<u8> {
        self.body@
    }

    pub closed spec fn wf(&self) -> bool {
        self.headers.wf()
    }

    pub fn new(status: u16, headers: RhodHeaderMap, body: Vec<u8>) -> (r: RhodResponse)
        requires
            headers.wf(),
        ensures
            r.wf(),
            r.spec_status() == status,
            r.spec_headers() == headers@,
            r.spec_body() == body@,
    {
        RhodResponse { status, headers, body }
    }

    pub fn status_as_int(&self) -> (r: u16)
        ensures
            r == self.spec_status(),
    {
        self.status
    }

    pub fn set_status(&mut self, status: u16)
        requires
            old(self).wf(),
        ensures
            final(self).wf(),
            final(self).spec_status() == status,
            final(self).spec_headers() == old(self).spec_headers(),
            final(self).spec_body() == old(self).spec_body(),
    {
        self.status = status;
    }

    pub fn headers(&self) -> (r: &RhodHeaderMap)
        ensures
            r@ == self.spec_headers(),
            r.wf() == self.wf(),
    {
        &self.headers
    }

    pub fn insert_header(&mut self, name: &str, value: &str)
        requires
            old(self).wf(),
        ensures
            final(self).wf(),
            final(self).spec_headers() == old(self).spec_headers().insert(
                lower_chars(name@),
                value@,
            ),
            final(self).spec_status() == old(self).spec_status(),
            final(self).spec_body() == old(self).spec_body(),
    {
        self.headers.insert(name, value);
    }

    /// The buffered body bytes.
    pub fn body(&self) -> (r: &Vec<u8>)
        ensures
            r@ == self.spec_body(),
    {
        &self.body
    }

    pub fn set_body(&mut self, body: Vec<u8>)
        requires
            old(self).wf(),
        ensures
            final(self).wf(),
            final(self).spec_body() == body@,
            final(self).spec_status() == old(self).spec_status(),
            final(self).spec_headers() == old(self).spec_headers(),
    {
        self.body = body;
    }
}

} // verus!
