//! The synchronous pipeline executor: drives the execution machine against a
//! stack of stages, performing each operation the machine asks for and
//! reporting its outcome back. A ghost run record keeps, besides the machine
//! and its trace, the request and response values threaded through the
//! stages, so the contract can say what each call received and what the run
//! finally returned.

use vstd::prelude::*;
use vstd::pervasive::arbitrary;

verus! {

use crate::RhodConnInfo;
use crate::CommunicationChannel;
use crate::errors::RhodError;
use crate::pipeline::{EntryKind, PipelineAction, PipelineExec};
use crate::request::RhodRequest;
use crate::response::RhodResponse;
use crate::stack::{DynamicRhodHandler, RhodHandler, RhodHandlerInStack, RhodService, RhodStack};

/// The entry kinds of a stack's positions.
pub open spec fn kinds_of<H, D>(entries: Seq<RhodHandlerInStack<H, D>>) -> Seq<EntryKind> {
    Seq::new(
        entries.len(),
        |j: int|
            match entries[j] {
                RhodHandlerInStack::RhodHandler(_) => EntryKind::Fixed,
                RhodHandlerInStack::DynamicRhodHandler(_) => EntryKind::Dynamic,
            },
    )
}

/// One request-handling call of the forward pass: the stage position, the
/// request value the stage received, and the value it left behind.
pub struct RequestStep {
    pub pos: int,
    pub input: RhodRequest,
    pub output: RhodRequest,
}

/// One response-handling call of the backward pass: the stage position, the
/// response the stage consumed, and the response it returned.
pub struct ResponseStep {
    pub pos: int,
    pub input: RhodResponse,
    pub output: RhodResponse,
}

/// What a finished run leaves behind, for reasoning: the machine in its final
/// state, whose trace records every operation performed; the request values
/// threaded through the forward pass and handed to the terminal service; the
/// service's outcome; the response values threaded through the backward pass;
/// and the response every response-recovery notice saw.
pub struct RunRecord {
    pub machine: PipelineExec,
    pub request_steps: Seq<RequestStep>,
    pub serve_request: Option<RhodRequest>,
    pub serve_result: Option<Result<RhodResponse, RhodError>>,
    pub response_steps: Seq<ResponseStep>,
    pub caught_response: Option<RhodResponse>,
}

/// The response a successful run returns: the last backward stage's output,
/// or the service's response when no stage ran the backward pass.
pub open spec fn final_response_of(rec: RunRecord) -> RhodResponse {
    if rec.response_steps.len() > 0 {
        rec.response_steps.last().output
    } else {
        match rec.serve_result {
            Some(Ok(res)) => res,
            _ => arbitrary(),
        }
    }
}

/// Runs one request through the stack: the forward pass in declared order,
/// the terminal service if the forward pass was error-free, and the backward
/// pass in reverse order if the service succeeded. The first error of a pass
/// is recorded and logged; later stages of that pass get the recovery
/// notification instead of normal processing, and the recorded error is
/// returned alone. A fresh communication value is built for this request and
/// every operation of the run receives that same value.
pub fn execute<
    C: CommunicationChannel,
    H: RhodHandler<C>,
    D: DynamicRhodHandler<C, H>,
    S: RhodService<C>,
>(stack: &RhodStack<H, D, S>, conn: &RhodConnInfo, req: RhodRequest) -> (r: (
    Result<RhodResponse, RhodError>,
    Ghost<RunRecord>,
))
    requires
        req.wf(),
    ensures
        r.1@.machine.inv(),
        r.1@.machine.spec_kinds() == kinds_of(stack.handlers@),
        r.1@.machine.finished(),
        r.0 is Ok <==> r.1@.machine.spec_next() == PipelineAction::ReturnResponse,
        r.0 matches Err(e) ==> r.1@.machine.first_error() == Some(e),
        r.0 matches Ok(res) ==> res.wf() && r.1@.machine.first_error() is None,
        r.1@.machine.spec_phase() is Forward <==> r.1@.serve_result is None,
        r.1@.serve_result matches Some(sr) ==> (sr is Err <==> r.1@.machine.spec_phase()
            is ServeFailed),
        r.1@.machine.n() == 0 ==> r.1@.serve_result == Some(r.0),
        // the request thread: stage 0 received this call's request, every
        // later stage received the value the stage before it left behind
        forall|t: int| 0 <= t < r.1@.request_steps.len() ==> (#[trigger] r.1@.request_steps[t]).pos
            == t,
        r.1@.request_steps.len() > 0 ==> r.1@.request_steps[0].input == req,
        forall|t: int|
            0 < t < r.1@.request_steps.len() ==> (#[trigger] r.1@.request_steps[t]).input
                == r.1@.request_steps[t - 1].output,
        r.1@.machine.spec_phase() is Forward ==> r.1@.request_steps.len() == r.1@.machine.fail_idx()->0
            + 1,
        !(r.1@.machine.spec_phase() is Forward) ==> r.1@.request_steps.len() == r.1@.machine.n(),
        // what the terminal service received: the request as the last stage
        // left it (this call's request when there are no stages)
        r.1@.serve_request is Some <==> !(r.1@.machine.spec_phase() is Forward),
        r.1@.serve_request matches Some(q) ==> q == (if r.1@.request_steps.len() == 0 {
            req
        } else {
            r.1@.request_steps.last().output
        }),
        // the response thread: the deepest stage consumed the service's
        // response, every earlier stage consumed what its successor returned
        forall|t: int|
            0 <= t < r.1@.response_steps.len() ==> (#[trigger] r.1@.response_steps[t]).pos
                == r.1@.machine.n() - 1 - t,
        r.1@.response_steps.len() > 0 ==> (r.1@.serve_result matches Some(Ok(q))
            && r.1@.response_steps[0].input == q),
        forall|t: int|
            0 < t < r.1@.response_steps.len() ==> (#[trigger] r.1@.response_steps[t]).input
                == r.1@.response_steps[t - 1].output,
        r.1@.machine.spec_phase() is Backward && r.1@.machine.first_error() is None
            ==> r.1@.response_steps.len() == r.1@.machine.n(),
        r.1@.machine.spec_phase() is Backward && r.1@.machine.first_error() is Some
            ==> r.1@.response_steps.len() == r.1@.machine.n() - r.1@.machine.fail_idx()->0,
        !(r.1@.machine.spec_phase() is Backward) ==> r.1@.response_steps.len() == 0,
        // every response-recovery notice saw the latest response: the output
        // of the stage that failed the backward pass
        r.1@.caught_response is Some <==> (r.1@.machine.spec_phase() is Backward
            && r.1@.machine.first_error() is Some && r.1@.machine.fail_idx()->0 > 0),
        r.1@.caught_response matches Some(c) ==> c == r.1@.response_steps.last().output,
        // the returned response is the last backward stage's output (the
        // service's response when there are no stages); on failure it is
        // discarded and the error returned alone
        r.0 matches Ok(res) ==> res == final_response_of(r.1@),
{
    let hn = stack.handlers.len();
    let mut kinds: Vec<EntryKind> = Vec::new();
    let mut t: usize = 0;
    while t < hn
        invariant
            t <= hn,
            hn == stack.handlers@.len(),
            kinds@.len() == t,
            forall|j: int| 0 <= j < t ==> kinds@[j] == kinds_of(stack.handlers@)[j],
        decreases hn - t,
    {
        match &stack.handlers[t] {
            RhodHandlerInStack::RhodHandler(_) => kinds.push(EntryKind::Fixed),
            RhodHandlerInStack::DynamicRhodHandler(_) => kinds.push(EntryKind::Dynamic),
        }
        t += 1;
    }
    proof {
        assert(kinds@ =~= kinds_of(stack.handlers@));
    }
    let mut m = PipelineExec::new(kinds);
    let mut comm = C::new();
    let ghost req0 = req;
    let mut req = req;
    let ghost mut req_steps: Seq<RequestStep> = Seq::empty();
    let mut cache: Vec<&H> = Vec::new();
    let mut i: usize = 0;
    while i < hn
        invariant
            m.inv(),
            m.spec_phase() is Forward,
            !m.partial(),
            m.spec_pos() == i,
            i <= hn,
            m.spec_kinds() == kinds_of(stack.handlers@),
            m.n() == hn,
            hn == stack.handlers@.len(),
            req.wf(),
            forall|t: int| 0 <= t < req_steps.len() ==> (#[trigger] req_steps[t]).pos == t,
            req_steps.len() > 0 ==> req_steps[0].input == req0,
            forall|t: int|
                0 < t < req_steps.len() ==> (#[trigger] req_steps[t]).input == req_steps[t
                    - 1].output,
            m.first_error() is None ==> req_steps.len() == i,
            m.first_error() is Some ==> req_steps.len() == m.fail_idx()->0 + 1,
            req == (if req_steps.len() == 0 {
                req0
            } else {
                req_steps.last().output
            }),
            forall|j: int|
                0 <= j < hn ==> ((#[trigger] m.spec_resolved()[j]) matches Some(id) ==> id
                    < cache@.len()),
        decreases hn - i,
    {
        let entry = &stack.handlers[i];
        let h: &H = match entry {
            RhodHandlerInStack::DynamicRhodHandler(d) => {
                let rh = d.get_handler(conn, &req, &mut comm);
                cache.push(rh);
                m.resolve_done(cache.len() - 1);
                rh
            },
            RhodHandlerInStack::RhodHandler(fh) => fh,
        };
        if m.has_error() {
            h.catch_request(conn, &req, m.error_ref(), &comm);
            m.request_caught();
        } else {
            let ghost req_in = req;
            let outcome = h.handle_request(conn, &mut req, &mut comm);
            proof {
                req_steps = req_steps.push(
                    RequestStep { pos: i as int, input: req_in, output: req },
                );
            }
            match outcome {
                Ok(()) => m.request_handled(None),
                Err(e) => {
                    e.log();
                    m.request_handled(Some(e));
                },
            }
        }
        i += 1;
    }
    if m.has_error() {
        let ghost mm = m;
        let e = m.into_error();
        return (
            Err(e),
            Ghost(
                RunRecord {
                    machine: mm,
                    request_steps: req_steps,
                    serve_request: None,
                    serve_result: None,
                    response_steps: Seq::empty(),
                    caught_response: None,
                },
            ),
        );
    }
    let ghost serve_req = req;
    match stack.service.serve(conn, req, &mut comm) {
        Err(e) => {
            let ghost sr = Result::<RhodResponse, RhodError>::Err(e);
            e.log();
            m.served(Some(e));
            let ghost mm = m;
            let err = m.into_error();
            (
                Err(err),
                Ghost(
                    RunRecord {
                        machine: mm,
                        request_steps: req_steps,
                        serve_request: Some(serve_req),
                        serve_result: Some(sr),
                        response_steps: Seq::empty(),
                        caught_response: None,
                    },
                ),
            )
        },
        Ok(res0) => {
            let ghost serve_ok = res0;
            let ghost sr = Result::<RhodResponse, RhodError>::Ok(res0);
            m.served(None);
            let mut res = res0;
            let ghost mut res_steps: Seq<ResponseStep> = Seq::empty();
            let ghost mut caught: Option<RhodResponse> = None;
            let mut j: usize = hn;
            while j > 0
                invariant
                    m.inv(),
                    m.spec_phase() is Backward,
                    m.spec_pos() == j,
                    j <= hn,
                    m.spec_kinds() == kinds_of(stack.handlers@),
                    m.n() == hn,
                    hn == stack.handlers@.len(),
                    res.wf(),
                    forall|t: int| 0 <= t < res_steps.len() ==> (#[trigger] res_steps[t]).pos == hn
                        - 1 - t,
                    res_steps.len() > 0 ==> res_steps[0].input == serve_ok,
                    forall|t: int|
                        0 < t < res_steps.len() ==> (#[trigger] res_steps[t]).input == res_steps[t
                            - 1].output,
                    m.first_error() is None ==> res_steps.len() == hn - j && caught is None,
                    m.first_error() is Some ==> res_steps.len() == hn - m.fail_idx()->0,
                    res == (if res_steps.len() == 0 {
                        serve_ok
                    } else {
                        res_steps.last().output
                    }),
                    m.first_error() is Some ==> ((caught is Some <==> j < m.fail_idx()->0) && (
                    caught matches Some(c) ==> c == res)),
                    forall|jj: int|
                        0 <= jj < hn ==> ((#[trigger] m.spec_resolved()[jj]) matches Some(id)
                            ==> id < cache@.len()),
                decreases j,
            {
                let entry = &stack.handlers[j - 1];
                let h: &H = match entry {
                    RhodHandlerInStack::DynamicRhodHandler(_) => {
                        let id = match m.resolved_id(j - 1) {
                            Some(id) => id,
                            None => unreached(),
                        };
                        &cache[id]
                    },
                    RhodHandlerInStack::RhodHandler(fh) => fh,
                };
                if m.has_error() {
                    h.catch_response(conn, &res, m.error_ref(), &comm);
                    proof {
                        caught = Some(res);
                    }
                    m.response_caught();
                } else {
                    let ghost res_in = res;
                    let (new_res, outcome) = h.handle_response(conn, res, &mut comm);
                    res = new_res;
                    proof {
                        res_steps = res_steps.push(
                            ResponseStep { pos: (j - 1) as int, input: res_in, output: res },
                        );
                    }
                    match outcome {
                        Ok(()) => m.response_handled(None),
                        Err(e) => {
                            e.log();
                            m.response_handled(Some(e));
                        },
                    }
                }
                j -= 1;
            }
            if m.has_error() {
                let ghost mm = m;
                let e = m.into_error();
                return (
                    Err(e),
                    Ghost(
                        RunRecord {
                            machine: mm,
                            request_steps: req_steps,
                            serve_request: Some(serve_req),
                            serve_result: Some(sr),
                            response_steps: res_steps,
                            caught_response: caught,
                        },
                    ),
                );
            }
            let ghost mm = m;
            (
                Ok(res),
                Ghost(
                    RunRecord {
                        machine: mm,
                        request_steps: req_steps,
                        serve_request: Some(serve_req),
                        serve_result: Some(sr),
                        response_steps: res_steps,
                        caught_response: caught,
                    },
                ),
            )
        },
    }
}

} // verus!
