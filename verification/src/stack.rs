//! The stage stack: an ordered sequence of stage entries and one terminal
//! service, assembled once and shared read-only by every execution.

use vstd::prelude::*;

verus! {

use crate::RhodConnInfo;
use crate::errors::{RhodError, RhodResult};
use crate::request::RhodRequest;
use crate::response::RhodResponse;

/// One middleware stage. Users of the library implement this for their own
/// types; the pipeline only demands that the request and response values a
/// stage hands back are still well formed.
pub trait RhodHandler<C>: Sized {
    /// Normal forward-pass processing of the request.
    fn handle_request(&self, conn: &RhodConnInfo, req: &mut RhodRequest, comm: &mut C) -> (r:
        RhodResult<()>)
        requires
            old(req).wf(),
        ensures
            final(req).wf(),
    ;

    /// Notification that an earlier stage already failed the forward pass;
    /// a side effect only, it cannot clear or replace the recorded error.
    fn catch_request(&self, conn: &RhodConnInfo, req: &RhodRequest, err: &RhodError, comm: &C)
        requires
            req.wf(),
    ;

    /// Normal backward-pass processing: consumes the response and returns a
    /// possibly modified one together with the outcome. The returned response
    /// replaces the current one whether the outcome is success or failure.
    fn handle_response(&self, conn: &RhodConnInfo, res: RhodResponse, comm: &mut C) -> (r: (
        RhodResponse,
        RhodResult<()>,
    ))
        requires
            res.wf(),
        ensures
            r.0.wf(),
    ;

    /// Notification that a later stage already failed the backward pass.
    fn catch_response(&self, conn: &RhodConnInfo, res: &RhodResponse, err: &RhodError, comm: &C)
        requires
            res.wf(),
    ;
}

/// A stage entry whose stage is picked per request: the resolver runs once
/// during the forward pass and the stage it returns is reused, unchanged, for
/// the backward pass of the same request.
pub trait DynamicRhodHandler<C, H: RhodHandler<C>>: Sized {
    fn get_handler<'a>(&'a self, conn: &RhodConnInfo, req: &RhodRequest, comm: &mut C) -> (h:
        &'a H)
        requires
            req.wf(),
    ;
}

/// The terminal stage: consumes the fully stage-processed request and
/// produces the substantive response, or fails.
pub trait RhodService<C>: Sized {
    fn serve(&self, conn: &RhodConnInfo, req: RhodRequest, comm: &mut C) -> (r: RhodResult<
        RhodResponse,
    >)
        requires
            req.wf(),
        ensures
            match r {
                Ok(res) => res.wf(),
                Err(_) => true,
            },
    ;
}

/// One position in the pipeline: a fixed stage shared by all requests, or a
/// resolver that picks the stage per request.
pub enum RhodHandlerInStack<H, D> {
    RhodHandler(H),
    DynamicRhodHandler(D),
}

/// The full pipeline configuration: the ordered stage entries and the single
/// terminal service. Declaration order is priority order; an empty entry list
/// is valid and degenerates to calling the service alone.
pub struct RhodStack<H, D, S> {
    pub handlers: Vec<RhodHandlerInStack<H, D>>,
    pub service: S,
}

impl<H, D, S> RhodStack<H, D, S> {
    pub fn new(handlers: Vec<RhodHandlerInStack<H, D>>, service: S) -> (r: RhodStack<H, D, S>)
        ensures
            r.handlers == handlers,
            r.service == service,
    {
        RhodStack { handlers, service }
    }
}

} // verus!
