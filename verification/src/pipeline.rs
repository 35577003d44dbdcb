//! The pipeline execution machine.
//!
//! A run is a sequence of small steps. The machine holds the per-request
//! control state — which stage is next, which pass is running, the first
//! error of the pass, and the cached identity of every stage a resolver
//! picked — and tells its driver which operation to perform next. The driver
//! performs the operation and reports its outcome. A ghost trace records
//! every operation performed, and the machine's invariant pins the exact
//! shape of that trace, which is where the ordering and first-error-wins
//! guarantees live.

use vstd::prelude::*;

verus! {

use crate::errors::RhodError;

/// Whether a pipeline position holds a fixed stage or a per-request resolver.
#[derive(Debug, Clone, Copy, PartialEq, Eq, Structural)]
pub enum EntryKind {
    Fixed,
    Dynamic,
}

/// Which stage an operation addresses: the fixed stage at a position, or the
/// stage a resolver picked, under the identity the driver assigned to it.
#[derive(Debug, Clone, Copy, PartialEq, Eq, Structural)]
pub enum StageSel {
    Fixed { pos: usize },
    Resolved { pos: usize, id: usize },
}

/// The operation the driver must perform next.
#[derive(Debug, Clone, Copy, PartialEq, Eq, Structural)]
pub enum PipelineAction {
    /// Run the resolver at this position and report the identity it chose.
    Resolve { pos: usize },
    /// Run the stage's request-handling operation.
    HandleRequest { sel: StageSel },
    /// Run the stage's request-recovery notification.
    CatchRequest { sel: StageSel },
    /// Run the terminal service.
    Serve,
    /// Run the stage's response-handling operation.
    HandleResponse { sel: StageSel },
    /// Run the stage's response-recovery notification.
    CatchResponse { sel: StageSel },
    /// The run is over; the recorded error is the result.
    ReturnError,
    /// The run is over; the current response is the result.
    ReturnResponse,
}

/// One performed operation, as the ghost trace records it.
pub enum PipelineOp {
    Resolve { pos: usize, id: usize },
    HandleRequest { pos: usize, err: Option<RhodError> },
    CatchRequest { pos: usize },
    Serve { err: Option<RhodError> },
    HandleResponse { pos: usize, err: Option<RhodError> },
    CatchResponse { pos: usize },
}

#[derive(Debug, Clone, Copy, PartialEq, Eq, Structural)]
pub enum PipelinePhase {
    /// Walking the stages in declared order with the request.
    Forward,
    /// The terminal service failed; the run is over.
    ServeFailed,
    /// Walking the stages in reverse order with the response.
    Backward,
}

/// The resolution ops a position contributes to the trace: one Resolve for a
/// dynamic position, nothing for a fixed one.
pub open spec fn resolve_ops(
    kinds: Seq<EntryKind>,
    resolved: Seq<Option<usize>>,
    i: int,
) -> Seq<PipelineOp> {
    if kinds[i] is Dynamic {
        seq![PipelineOp::Resolve { pos: i as usize, id: resolved[i]->0 }]
    } else {
        seq![]
    }
}

/// The trace of an error-free forward pass over stages 0..p.
pub open spec fn fwd_ok_trace(
    kinds: Seq<EntryKind>,
    resolved: Seq<Option<usize>>,
    p: int,
) -> Seq<PipelineOp>
    decreases p,
{
    if p <= 0 {
        seq![]
    } else {
        fwd_ok_trace(kinds, resolved, p - 1) + resolve_ops(kinds, resolved, p - 1) + seq![
            PipelineOp::HandleRequest { pos: (p - 1) as usize, err: None },
        ]
    }
}

/// The trace of request-recovery notifications over stages from..p.
pub open spec fn fwd_catch_trace(
    kinds: Seq<EntryKind>,
    resolved: Seq<Option<usize>>,
    from: int,
    p: int,
) -> Seq<PipelineOp>
    decreases p - from,
{
    if p <= from {
        seq![]
    } else {
        fwd_catch_trace(kinds, resolved, from, p - 1) + resolve_ops(kinds, resolved, p - 1) + seq![
            PipelineOp::CatchRequest { pos: (p - 1) as usize },
        ]
    }
}

/// The trace of a forward pass over stages 0..p whose first failure was at
/// stage k, with error e.
pub open spec fn fwd_fail_trace(
    kinds: Seq<EntryKind>,
    resolved: Seq<Option<usize>>,
    k: int,
    e: RhodError,
    p: int,
) -> Seq<PipelineOp> {
    fwd_ok_trace(kinds, resolved, k) + resolve_ops(kinds, resolved, k) + seq![
        PipelineOp::HandleRequest { pos: k as usize, err: Some(e) },
    ] + fwd_catch_trace(kinds, resolved, k + 1, p)
}

/// The trace of an error-free backward pass from stage n-1 down to stage q.
pub open spec fn bwd_ok_trace(n: int, q: int) -> Seq<PipelineOp>
    decreases n - q,
{
    if q >= n {
        seq![]
    } else {
        bwd_ok_trace(n, q + 1) + seq![PipelineOp::HandleResponse { pos: q as usize, err: None }]
    }
}

/// The trace of response-recovery notifications from stage k-1 down to q.
pub open spec fn bwd_catch_trace(k: int, q: int) -> Seq<PipelineOp>
    decreases k - q,
{
    if q >= k {
        seq![]
    } else {
        bwd_catch_trace(k, q + 1) + seq![PipelineOp::CatchResponse { pos: q as usize }]
    }
}

/// The trace of a backward pass from stage n-1 down to q whose first failure
/// was at stage k, with error e.
pub open spec fn bwd_fail_trace(n: int, k: int, e: RhodError, q: int) -> Seq<PipelineOp> {
    bwd_ok_trace(n, k + 1) + seq![PipelineOp::HandleResponse { pos: k as usize, err: Some(e) }]
        + bwd_catch_trace(k, q)
}

/// Every dynamic position below p is resolved, and nothing else is.
pub open spec fn resolved_upto(
    kinds: Seq<EntryKind>,
    resolved: Seq<Option<usize>>,
    p: int,
) -> bool {
    forall|j: int|
        0 <= j < kinds.len() ==> (resolved[j] is Some <==> (kinds[j] is Dynamic && j < p))
}

/// The per-request pipeline execution machine.
pub struct PipelineExec {
    kinds: Vec<EntryKind>,
    resolved: Vec<Option<usize>>,
    phase: PipelinePhase,
    pos: usize,
    error: Option<RhodError>,
    fail_at: Ghost<Option<int>>,
    trace: Ghost<Seq<PipelineOp>>,
}

impl PipelineExec {
    /// The entry kinds of the stack this run walks.
    pub closed spec fn spec_kinds(&self) -> Seq<EntryKind> {
        self.kinds@
    }

    /// The number of stages.
    pub open spec fn n(&self) -> int {
        self.spec_kinds().len() as int
    }

    /// The cached identity of each resolved position.
    pub closed spec fn spec_resolved(&self) -> Seq<Option<usize>> {
        self.resolved@
    }

    pub closed spec fn spec_phase(&self) -> PipelinePhase {
        self.phase
    }

    pub closed spec fn spec_pos(&self) -> int {
        self.pos as int
    }

    /// The first error recorded in the current pass, if any.
    pub closed spec fn first_error(&self) -> Option<RhodError> {
        self.error
    }

    /// The stage the first error of the current pass came from, if the pass
    /// failed at a stage (a service failure records no stage).
    pub closed spec fn fail_idx(&self) -> Option<int> {
        self.fail_at@
    }

    /// Every operation performed so far, in order.
    pub closed spec fn trace(&self) -> Seq<PipelineOp> {
        self.trace@
    }

    /// A forward-pass position is resolved but its stage operation has not
    /// run yet.
    pub open spec fn partial(&self) -> bool {
        self.spec_phase() is Forward && self.spec_pos() < self.n() && self.spec_kinds()[self.spec_pos()] is Dynamic
            && self.spec_resolved()[self.spec_pos()] is Some
    }

    /// The stage selector for position i: the fixed stage there, or the
    /// cached identity of the stage its resolver picked.
    pub open spec fn sel_of(&self, i: int) -> StageSel {
        if self.spec_kinds()[i] is Fixed {
            StageSel::Fixed { pos: i as usize }
        } else {
            StageSel::Resolved { pos: i as usize, id: self.spec_resolved()[i]->0 }
        }
    }

    /// The operation the machine asks for next.
    pub open spec fn spec_next(&self) -> PipelineAction {
        match self.spec_phase() {
            PipelinePhase::Forward => {
                if self.spec_pos() < self.n() {
                    if self.spec_kinds()[self.spec_pos()] is Dynamic && self.spec_resolved()[self.spec_pos()] is None {
                        PipelineAction::Resolve { pos: self.spec_pos() as usize }
                    } else if self.first_error() is None {
                        PipelineAction::HandleRequest { sel: self.sel_of(self.spec_pos()) }
                    } else {
                        PipelineAction::CatchRequest { sel: self.sel_of(self.spec_pos()) }
                    }
                } else {
                    if self.first_error() is Some {
                        PipelineAction::ReturnError
                    } else {
                        PipelineAction::Serve
                    }
                }
            },
            PipelinePhase::ServeFailed => PipelineAction::ReturnError,
            PipelinePhase::Backward => {
                if self.spec_pos() > 0 {
                    if self.first_error() is None {
                        PipelineAction::HandleResponse { sel: self.sel_of(self.spec_pos() - 1) }
                    } else {
                        PipelineAction::CatchResponse { sel: self.sel_of(self.spec_pos() - 1) }
                    }
                } else {
                    if self.first_error() is Some {
                        PipelineAction::ReturnError
                    } else {
                        PipelineAction::ReturnResponse
                    }
                }
            },
        }
    }

    /// The run is over: the driver must return the error or the response.
    pub open spec fn finished(&self) -> bool {
        self.spec_next() == PipelineAction::ReturnError || self.spec_next()
            == PipelineAction::ReturnResponse
    }

    /// The machine's invariant: the bookkeeping is consistent and the trace
    /// has exactly the shape the current control state dictates.
    pub open spec fn inv(&self) -> bool {
        &&& self.n() <= usize::MAX
        &&& self.spec_resolved().len() == self.n()
        &&& match self.spec_phase() {
            PipelinePhase::Forward => {
                &&& 0 <= self.spec_pos() <= self.n()
                &&& resolved_upto(
                    self.spec_kinds(),
                    self.spec_resolved(),
                    if self.partial() {
                        self.spec_pos() + 1
                    } else {
                        self.spec_pos()
                    },
                )
                &&& match (self.first_error(), self.fail_idx()) {
                    (None, None) => self.trace() == fwd_ok_trace(
                        self.spec_kinds(),
                        self.spec_resolved(),
                        self.spec_pos(),
                    ) + if self.partial() {
                        resolve_ops(self.spec_kinds(), self.spec_resolved(), self.spec_pos())
                    } else {
                        seq![]
                    },
                    (Some(e), Some(k)) => {
                        &&& 0 <= k < self.spec_pos()
                        &&& self.trace() == fwd_fail_trace(
                            self.spec_kinds(),
                            self.spec_resolved(),
                            k,
                            e,
                            self.spec_pos(),
                        ) + if self.partial() {
                            resolve_ops(self.spec_kinds(), self.spec_resolved(), self.spec_pos())
                        } else {
                            seq![]
                        }
                    },
                    _ => false,
                }
            },
            PipelinePhase::ServeFailed => {
                &&& self.spec_pos() == self.n()
                &&& resolved_upto(self.spec_kinds(), self.spec_resolved(), self.n())
                &&& self.fail_idx() is None
                &&& match self.first_error() {
                    Some(e) => self.trace() == fwd_ok_trace(
                        self.spec_kinds(),
                        self.spec_resolved(),
                        self.n(),
                    ) + seq![PipelineOp::Serve { err: Some(e) }],
                    None => false,
                }
            },
            PipelinePhase::Backward => {
                &&& 0 <= self.spec_pos() <= self.n()
                &&& resolved_upto(self.spec_kinds(), self.spec_resolved(), self.n())
                &&& match (self.first_error(), self.fail_idx()) {
                    (None, None) => self.trace() == fwd_ok_trace(
                        self.spec_kinds(),
                        self.spec_resolved(),
                        self.n(),
                    ) + seq![PipelineOp::Serve { err: None }] + bwd_ok_trace(
                        self.n(),
                        self.spec_pos(),
                    ),
                    (Some(e), Some(k)) => {
                        &&& self.spec_pos() <= k < self.n()
                        &&& self.trace() == fwd_ok_trace(
                            self.spec_kinds(),
                            self.spec_resolved(),
                            self.n(),
                        ) + seq![PipelineOp::Serve { err: None }] + bwd_fail_trace(
                            self.n(),
                            k,
                            e,
                            self.spec_pos(),
                        )
                    },
                    _ => false,
                }
            },
        }
    }

    /// Starts a run over a stack whose positions have the given kinds.
    pub fn new(kinds: Vec<EntryKind>) -> (m: PipelineExec)
        ensures
            m.inv(),
            m.spec_kinds() == kinds@,
            m.spec_phase() is Forward,
            m.spec_pos() == 0,
            m.first_error() is None,
            m.trace() == Seq::<PipelineOp>::empty(),
    {
        let n = kinds.len();
        let resolved: Vec<Option<usize>> = vec![None; n];
        proof {
            assert(fwd_ok_trace(kinds@, resolved@, 0) =~= Seq::<PipelineOp>::empty());
        }
        PipelineExec {
            kinds,
            resolved,
            phase: PipelinePhase::Forward,
            pos: 0,
            error: None,
            fail_at: Ghost(None),
            trace: Ghost(Seq::empty()),
        }
    }

    /// The number of stages.
    pub fn n_stages(&self) -> (r: usize)
        ensures
            r == self.n(),
    {
        self.kinds.len()
    }

    /// The operation to perform next.
    pub fn next(&self) -> (a: PipelineAction)
        requires
            self.inv(),
        ensures
            a == self.spec_next(),
    {
        match self.phase {
            PipelinePhase::Forward => {
                if self.pos < self.kinds.len() {
                    let dynamic = match self.kinds[self.pos] {
                        EntryKind::Dynamic => true,
                        EntryKind::Fixed => false,
                    };
                    let unresolved = self.resolved[self.pos].is_none();
                    if dynamic && unresolved {
                        PipelineAction::Resolve { pos: self.pos }
                    } else if self.error.is_none() {
                        PipelineAction::HandleRequest { sel: self.sel_at(self.pos) }
                    } else {
                        PipelineAction::CatchRequest { sel: self.sel_at(self.pos) }
                    }
                } else {
                    if self.error.is_some() {
                        PipelineAction::ReturnError
                    } else {
                        PipelineAction::Serve
                    }
                }
            },
            PipelinePhase::ServeFailed => PipelineAction::ReturnError,
            PipelinePhase::Backward => {
                if self.pos > 0 {
                    if self.error.is_none() {
                        PipelineAction::HandleResponse { sel: self.sel_at(self.pos - 1) }
                    } else {
                        PipelineAction::CatchResponse { sel: self.sel_at(self.pos - 1) }
                    }
                } else {
                    if self.error.is_some() {
                        PipelineAction::ReturnError
                    } else {
                        PipelineAction::ReturnResponse
                    }
                }
            },
        }
    }

    fn sel_at(&self, i: usize) -> (s: StageSel)
        requires
            i < self.spec_resolved().len(),
            i < self.spec_kinds().len(),
            self.spec_kinds()[i as int] is Dynamic ==> self.spec_resolved()[i as int] is Some,
        ensures
            s == self.sel_of(i as int),
    {
        match self.kinds[i] {
            EntryKind::Fixed => StageSel::Fixed { pos: i },
            EntryKind::Dynamic => StageSel::Resolved {
                pos: i,
                id: match self.resolved[i] {
                    Some(id) => id,
                    None => 0,
                },
            },
        }
    }

    /// Whether an error is recorded in the current pass.
    pub fn has_error(&self) -> (r: bool)
        ensures
            r == (self.first_error() is Some),
    {
        self.error.is_some()
    }

    /// The recorded error, to hand to recovery notifications.
    pub fn error_ref(&self) -> (r: &RhodError)
        requires
            self.first_error() is Some,
        ensures
            *r == self.first_error()->0,
    {
        match &self.error {
            Some(e) => e,
            None => unreached(),
        }
    }

    /// The cached identity at a position, if its resolver already ran.
    pub fn resolved_id(&self, i: usize) -> (r: Option<usize>)
        requires
            i < self.spec_resolved().len(),
        ensures
            r == self.spec_resolved()[i as int],
    {
        self.resolved[i]
    }

    /// Ends a failed run, yielding the recorded error.
    pub fn into_error(self) -> (e: RhodError)
        requires
            self.inv(),
            self.spec_next() == PipelineAction::ReturnError,
        ensures
            Some(e) == self.first_error(),
    {
        match self.error {
            Some(e) => e,
            None => unreached(),
        }
    }

    /// Records the identity the resolver at the current position picked.
    pub fn resolve_done(&mut self, id: usize)
        requires
            old(self).inv(),
            old(self).spec_next() == (PipelineAction::Resolve { pos: old(self).spec_pos() as usize }),
        ensures
            final(self).inv(),
            final(self).spec_kinds() == old(self).spec_kinds(),
            final(self).spec_phase() == old(self).spec_phase(),
            final(self).spec_pos() == old(self).spec_pos(),
            final(self).first_error() == old(self).first_error(),
            final(self).fail_idx() == old(self).fail_idx(),
            final(self).spec_resolved() == old(self).spec_resolved().update(
                old(self).spec_pos(),
                Some(id),
            ),
            final(self).trace() == old(self).trace().push(
                PipelineOp::Resolve { pos: old(self).spec_pos() as usize, id: id },
            ),
    {
        let ghost pre = *self;
        let p = self.pos;
        self.resolved[p] = Some(id);
        self.trace = Ghost(self.trace@.push(PipelineOp::Resolve { pos: p, id: id }));
        proof {
            let k = self.kinds@;
            let r0 = pre.spec_resolved();
            let r1 = self.resolved@;
            lemma_fwd_ok_frame(k, r0, r1, p as int);
            assert(resolve_ops(k, r1, p as int) =~= seq![
                PipelineOp::Resolve { pos: p, id: id },
            ]);
            match (pre.first_error(), pre.fail_idx()) {
                (None, None) => {
                    assert(self.trace@ =~= fwd_ok_trace(k, r1, p as int) + resolve_ops(
                        k,
                        r1,
                        p as int,
                    ));
                },
                (Some(e), Some(fk)) => {
                    lemma_fwd_ok_frame(k, r0, r1, fk);
                    assert(resolve_ops(k, r0, fk) =~= resolve_ops(k, r1, fk));
                    lemma_fwd_catch_frame(k, r0, r1, fk + 1, p as int);
                    assert(fwd_fail_trace(k, r1, fk, e, p as int) =~= fwd_fail_trace(
                        k,
                        r0,
                        fk,
                        e,
                        p as int,
                    ));
                    assert(self.trace@ =~= fwd_fail_trace(k, r1, fk, e, p as int) + resolve_ops(
                        k,
                        r1,
                        p as int,
                    ));
                },
                _ => {},
            }
        }
    }

    /// Records the outcome of the stage's request-handling operation: on
    /// failure the error becomes the error of the pass.
    pub fn request_handled(&mut self, outcome: Option<RhodError>)
        requires
            old(self).inv(),
            old(self).spec_next() is HandleRequest,
        ensures
            final(self).inv(),
            final(self).spec_kinds() == old(self).spec_kinds(),
            final(self).spec_phase() == old(self).spec_phase(),
            final(self).spec_resolved() == old(self).spec_resolved(),
            final(self).spec_pos() == old(self).spec_pos() + 1,
            final(self).first_error() == outcome,
            final(self).fail_idx() == (if outcome is Some {
                Some(old(self).spec_pos())
            } else {
                None::<int>
            }),
            final(self).trace() == old(self).trace().push(
                PipelineOp::HandleRequest {
                    pos: old(self).spec_pos() as usize,
                    err: outcome,
                },
            ),
    {
        let ghost pre = *self;
        let p = self.pos;
        let total = self.kinds.len();
        proof {
            assert(p < total);
        }
        self.trace = Ghost(self.trace@.push(PipelineOp::HandleRequest { pos: p, err: outcome }));
        let failed = outcome.is_some();
        if failed {
            self.fail_at = Ghost(Some(p as int));
        }
        self.error = outcome;
        self.pos = p + 1;
        proof {
            let k = self.kinds@;
            let r = self.resolved@;
            assert(fwd_ok_trace(k, r, p as int + 1) == fwd_ok_trace(k, r, p as int) + resolve_ops(
                k,
                r,
                p as int,
            ) + seq![PipelineOp::HandleRequest { pos: p, err: None }]);
            if !failed {
                assert(self.trace@ =~= fwd_ok_trace(k, r, p as int + 1));
            } else {
                let e = self.error->0;
                assert(fwd_catch_trace(k, r, p as int + 1, p as int + 1) =~= Seq::<
                    PipelineOp,
                >::empty());
                assert(self.trace@ =~= fwd_fail_trace(k, r, p as int, e, p as int + 1));
            }
        }
    }

    /// Records that the stage's request-recovery notification ran.
    pub fn request_caught(&mut self)
        requires
            old(self).inv(),
            old(self).spec_next() is CatchRequest,
        ensures
            final(self).inv(),
            final(self).spec_kinds() == old(self).spec_kinds(),
            final(self).spec_phase() == old(self).spec_phase(),
            final(self).spec_resolved() == old(self).spec_resolved(),
            final(self).spec_pos() == old(self).spec_pos() + 1,
            final(self).first_error() == old(self).first_error(),
            final(self).fail_idx() == old(self).fail_idx(),
            final(self).trace() == old(self).trace().push(
                PipelineOp::CatchRequest { pos: old(self).spec_pos() as usize },
            ),
    {
        let p = self.pos;
        let total = self.kinds.len();
        proof {
            assert(p < total);
        }
        self.trace = Ghost(self.trace@.push(PipelineOp::CatchRequest { pos: p }));
        self.pos = p + 1;
        proof {
            let k = self.kinds@;
            let r = self.resolved@;
            let e = self.error->0;
            let fk = self.fail_at@->0;
            assert(fwd_catch_trace(k, r, fk + 1, p as int + 1) == fwd_catch_trace(
                k,
                r,
                fk + 1,
                p as int,
            ) + resolve_ops(k, r, p as int) + seq![PipelineOp::CatchRequest { pos: p }]);
            assert(self.trace@ =~= fwd_fail_trace(k, r, fk, e, p as int + 1));
        }
    }

    /// Records the outcome of the terminal service: on success the backward
    /// pass begins with a fresh error slot; on failure the run is over.
    pub fn served(&mut self, outcome: Option<RhodError>)
        requires
            old(self).inv(),
            old(self).spec_next() == PipelineAction::Serve,
        ensures
            final(self).inv(),
            final(self).spec_kinds() == old(self).spec_kinds(),
            final(self).spec_resolved() == old(self).spec_resolved(),
            final(self).spec_pos() == old(self).spec_pos(),
            final(self).first_error() == outcome,
            final(self).fail_idx() is None,
            outcome is None ==> final(self).spec_phase() is Backward,
            outcome is Some ==> final(self).spec_phase() is ServeFailed,
            final(self).trace() == old(self).trace().push(PipelineOp::Serve { err: outcome }),
    {
        self.trace = Ghost(self.trace@.push(PipelineOp::Serve { err: outcome }));
        if outcome.is_some() {
            self.phase = PipelinePhase::ServeFailed;
        } else {
            self.phase = PipelinePhase::Backward;
        }
        self.error = outcome;
        proof {
            let k = self.kinds@;
            let r = self.resolved@;
            let n = self.n();
            if self.error is None {
                assert(bwd_ok_trace(n, n) =~= Seq::<PipelineOp>::empty());
                assert(self.trace@ =~= fwd_ok_trace(k, r, n) + seq![
                    PipelineOp::Serve { err: None },
                ] + bwd_ok_trace(n, n));
            } else {
                let e = self.error->0;
                assert(self.trace@ =~= fwd_ok_trace(k, r, n) + seq![
                    PipelineOp::Serve { err: Some(e) },
                ]);
            }
        }
    }

    /// Records the outcome of the stage's response-handling operation: on
    /// failure the error becomes the error of the pass, but the pass goes on
    /// so later (earlier-declared) stages still see the response.
    pub fn response_handled(&mut self, outcome: Option<RhodError>)
        requires
            old(self).inv(),
            old(self).spec_next() is HandleResponse,
        ensures
            final(self).inv(),
            final(self).spec_kinds() == old(self).spec_kinds(),
            final(self).spec_phase() == old(self).spec_phase(),
            final(self).spec_resolved() == old(self).spec_resolved(),
            final(self).spec_pos() == old(self).spec_pos() - 1,
            final(self).first_error() == outcome,
            final(self).fail_idx() == (if outcome is Some {
                Some(old(self).spec_pos() - 1)
            } else {
                None::<int>
            }),
            final(self).trace() == old(self).trace().push(
                PipelineOp::HandleResponse {
                    pos: (old(self).spec_pos() - 1) as usize,
                    err: outcome,
                },
            ),
    {
        let p = self.pos;
        self.trace = Ghost(
            self.trace@.push(PipelineOp::HandleResponse { pos: (p - 1) as usize, err: outcome }),
        );
        let failed = outcome.is_some();
        if failed {
            self.fail_at = Ghost(Some(p as int - 1));
        }
        self.error = outcome;
        self.pos = p - 1;
        proof {
            let k = self.kinds@;
            let r = self.resolved@;
            let n = self.n();
            if !failed {
                assert(bwd_ok_trace(n, p as int - 1) == bwd_ok_trace(n, p as int) + seq![
                    PipelineOp::HandleResponse { pos: (p - 1) as usize, err: None },
                ]);
                assert(self.trace@ =~= fwd_ok_trace(k, r, n) + seq![
                    PipelineOp::Serve { err: None },
                ] + bwd_ok_trace(n, p as int - 1));
            } else {
                let e = self.error->0;
                assert(bwd_catch_trace(p as int - 1, p as int - 1) =~= Seq::<
                    PipelineOp,
                >::empty());
                assert(self.trace@ =~= fwd_ok_trace(k, r, n) + seq![
                    PipelineOp::Serve { err: None },
                ] + bwd_fail_trace(n, p as int - 1, e, p as int - 1));
            }
        }
    }

    /// Records that the stage's response-recovery notification ran.
    pub fn response_caught(&mut self)
        requires
            old(self).inv(),
            old(self).spec_next() is CatchResponse,
        ensures
            final(self).inv(),
            final(self).spec_kinds() == old(self).spec_kinds(),
            final(self).spec_phase() == old(self).spec_phase(),
            final(self).spec_resolved() == old(self).spec_resolved(),
            final(self).spec_pos() == old(self).spec_pos() - 1,
            final(self).first_error() == old(self).first_error(),
            final(self).fail_idx() == old(self).fail_idx(),
            final(self).trace() == old(self).trace().push(
                PipelineOp::CatchResponse { pos: (old(self).spec_pos() - 1) as usize },
            ),
    {
        let p = self.pos;
        self.trace = Ghost(self.trace@.push(PipelineOp::CatchResponse { pos: (p - 1) as usize }));
        self.pos = p - 1;
        proof {
            let k = self.kinds@;
            let r = self.resolved@;
            let n = self.n();
            let e = self.error->0;
            let fk = self.fail_at@->0;
            assert(bwd_catch_trace(fk, p as int - 1) == bwd_catch_trace(fk, p as int) + seq![
                PipelineOp::CatchResponse { pos: (p - 1) as usize },
            ]);
            assert(self.trace@ =~= fwd_ok_trace(k, r, n) + seq![PipelineOp::Serve { err: None }]
                + bwd_fail_trace(n, fk, e, p as int - 1));
        }
    }
}

/// Traces over a prefix only read the cached identities inside that prefix.
proof fn lemma_fwd_ok_frame(
    kinds: Seq<EntryKind>,
    r0: Seq<Option<usize>>,
    r1: Seq<Option<usize>>,
    p: int,
)
    requires
        forall|j: int| 0 <= j < p ==> r0[j] == r1[j],
    ensures
        fwd_ok_trace(kinds, r0, p) == fwd_ok_trace(kinds, r1, p),
    decreases p,
{
    if p > 0 {
        lemma_fwd_ok_frame(kinds, r0, r1, p - 1);
        assert(resolve_ops(kinds, r0, p - 1) =~= resolve_ops(kinds, r1, p - 1));
    }
}

proof fn lemma_fwd_catch_frame(
    kinds: Seq<EntryKind>,
    r0: Seq<Option<usize>>,
    r1: Seq<Option<usize>>,
    from: int,
    p: int,
)
    requires
        forall|j: int| from <= j < p ==> r0[j] == r1[j],
    ensures
        fwd_catch_trace(kinds, r0, from, p) == fwd_catch_trace(kinds, r1, from, p),
    decreases p - from,
{
    if p > from {
        lemma_fwd_catch_frame(kinds, r0, r1, from, p - 1);
        assert(resolve_ops(kinds, r0, p - 1) =~= resolve_ops(kinds, r1, p - 1));
    }
}

} // verus!

// What follows states the pipeline's guarantees as theorems over the machine:
// the shape of the trace at the end of a run pins which stages ran which
// operation, in which order, and under which cached identity.

verus! {

/// The op is a resolver run at position i.
pub open spec fn is_resolve_at(op: PipelineOp, i: int) -> bool {
    op matches PipelineOp::Resolve { pos, id } && pos as int == i
}

/// The predicate that picks the resolver runs at position i out of a trace.
pub open spec fn resolve_pred(i: int) -> spec_fn(PipelineOp) -> bool {
    |op: PipelineOp| is_resolve_at(op, i)
}

/// How many times the resolver at position i ran.
pub open spec fn resolve_count(t: Seq<PipelineOp>, i: int) -> int {
    t.filter(resolve_pred(i)).len() as int
}

/// What an op of an error-free forward prefix over stages 0..p may be.
pub open spec fn fwd_ok_op(
    kinds: Seq<EntryKind>,
    resolved: Seq<Option<usize>>,
    p: int,
    op: PipelineOp,
) -> bool {
    match op {
        PipelineOp::HandleRequest { pos, err } => pos < p && err is None,
        PipelineOp::Resolve { pos, id } => pos < p && kinds[pos as int] is Dynamic && Some(id)
            == resolved[pos as int],
        _ => false,
    }
}

/// What an op of the recovery tail over stages from..p may be.
pub open spec fn fwd_catch_op(
    kinds: Seq<EntryKind>,
    resolved: Seq<Option<usize>>,
    from: int,
    p: int,
    op: PipelineOp,
) -> bool {
    match op {
        PipelineOp::CatchRequest { pos } => from <= pos < p,
        PipelineOp::Resolve { pos, id } => from <= pos < p && kinds[pos as int] is Dynamic
            && Some(id) == resolved[pos as int],
        _ => false,
    }
}

proof fn lemma_fwd_ok_trace_ops(kinds: Seq<EntryKind>, resolved: Seq<Option<usize>>, p: int)
    requires
        p <= usize::MAX,
        forall|j: int| 0 <= j < p && kinds[j] is Dynamic ==> resolved[j] is Some,
    ensures
        forall|t: int|
            0 <= t < fwd_ok_trace(kinds, resolved, p).len() ==> fwd_ok_op(
                kinds,
                resolved,
                p,
                #[trigger] fwd_ok_trace(kinds, resolved, p)[t],
            ),
        forall|i: int|
            0 <= i < p ==> #[trigger] fwd_ok_trace(kinds, resolved, p).contains(
                PipelineOp::HandleRequest { pos: i as usize, err: None },
            ),
    decreases p,
{
    if p > 0 {
        lemma_fwd_ok_trace_ops(kinds, resolved, p - 1);
        let prev = fwd_ok_trace(kinds, resolved, p - 1);
        let cur = fwd_ok_trace(kinds, resolved, p);
        let mid = resolve_ops(kinds, resolved, p - 1);
        assert forall|t: int| 0 <= t < cur.len() implies fwd_ok_op(
            kinds,
            resolved,
            p,
            cur[t],
        ) by {
            if t < prev.len() {
                assert(cur[t] == prev[t]);
            } else if t < prev.len() + mid.len() {
                assert(cur[t] == mid[t - prev.len()]);
            } else {
                assert(cur[t] == PipelineOp::HandleRequest { pos: (p - 1) as usize, err: None });
            }
        }
        assert forall|i: int| 0 <= i < p implies #[trigger] cur.contains(
            PipelineOp::HandleRequest { pos: i as usize, err: None },
        ) by {
            let op = PipelineOp::HandleRequest { pos: i as usize, err: None };
            if i < p - 1 {
                assert(prev.contains(op));
                let j = choose|j: int| 0 <= j < prev.len() && prev[j] == op;
                assert(cur[j] == op);
            } else {
                assert(cur[cur.len() - 1] == op);
            }
        }
    }
}

proof fn lemma_fwd_catch_trace_ops(
    kinds: Seq<EntryKind>,
    resolved: Seq<Option<usize>>,
    from: int,
    p: int,
)
    requires
        0 <= from,
        p <= usize::MAX,
        forall|j: int| from <= j < p && kinds[j] is Dynamic ==> resolved[j] is Some,
    ensures
        forall|t: int|
            0 <= t < fwd_catch_trace(kinds, resolved, from, p).len() ==> fwd_catch_op(
                kinds,
                resolved,
                from,
                p,
                #[trigger] fwd_catch_trace(kinds, resolved, from, p)[t],
            ),
        forall|i: int|
            from <= i < p ==> #[trigger] fwd_catch_trace(kinds, resolved, from, p).contains(
                PipelineOp::CatchRequest { pos: i as usize },
            ),
    decreases p - from,
{
    if p > from {
        lemma_fwd_catch_trace_ops(kinds, resolved, from, p - 1);
        let prev = fwd_catch_trace(kinds, resolved, from, p - 1);
        let cur = fwd_catch_trace(kinds, resolved, from, p);
        let mid = resolve_ops(kinds, resolved, p - 1);
        assert forall|t: int| 0 <= t < cur.len() implies fwd_catch_op(
            kinds,
            resolved,
            from,
            p,
            cur[t],
        ) by {
            if t < prev.len() {
                assert(cur[t] == prev[t]);
            } else if t < prev.len() + mid.len() {
                assert(cur[t] == mid[t - prev.len()]);
            } else {
                assert(cur[t] == PipelineOp::CatchRequest { pos: (p - 1) as usize });
            }
        }
        assert forall|i: int| from <= i < p implies #[trigger] cur.contains(
            PipelineOp::CatchRequest { pos: i as usize },
        ) by {
            let op = PipelineOp::CatchRequest { pos: i as usize };
            if i < p - 1 {
                assert(prev.contains(op));
                let j = choose|j: int| 0 <= j < prev.len() && prev[j] == op;
                assert(cur[j] == op);
            } else {
                assert(cur[cur.len() - 1] == op);
            }
        }
    }
}

proof fn lemma_bwd_ok_trace_ops(n: int, q: int)
    requires
        0 <= q,
        n <= usize::MAX,
    ensures
        bwd_ok_trace(n, q).len() == if q < n { n - q } else { 0 },
        forall|t: int|
            0 <= t < bwd_ok_trace(n, q).len() ==> (#[trigger] bwd_ok_trace(n, q)[t])
                == (PipelineOp::HandleResponse { pos: (n - 1 - t) as usize, err: None }),
        forall|t: int|
            0 <= t < bwd_ok_trace(n, q).len() ==> ((#[trigger] bwd_ok_trace(n, q)[t]) matches
                PipelineOp::HandleResponse { pos, err } && q <= pos < n && err is None),
        forall|i: int|
            q <= i < n ==> #[trigger] bwd_ok_trace(n, q).contains(
                PipelineOp::HandleResponse { pos: i as usize, err: None },
            ),
    decreases n - q,
{
    if q < n {
        lemma_bwd_ok_trace_ops(n, q + 1);
        let prev = bwd_ok_trace(n, q + 1);
        let cur = bwd_ok_trace(n, q);
        assert forall|t: int| 0 <= t < cur.len() implies (#[trigger] cur[t])
            == (PipelineOp::HandleResponse { pos: (n - 1 - t) as usize, err: None }) by {
            if t < prev.len() {
                assert(cur[t] == prev[t]);
            } else {
                assert(cur[t] == PipelineOp::HandleResponse { pos: q as usize, err: None });
            }
        }
        assert forall|i: int| q <= i < n implies #[trigger] cur.contains(
            PipelineOp::HandleResponse { pos: i as usize, err: None },
        ) by {
            let op = PipelineOp::HandleResponse { pos: i as usize, err: None };
            if i > q {
                assert(prev.contains(op));
                let j = choose|j: int| 0 <= j < prev.len() && prev[j] == op;
                assert(cur[j] == op);
            } else {
                assert(cur[cur.len() - 1] == op);
            }
        }
    }
}

proof fn lemma_bwd_catch_trace_ops(k: int, q: int)
    requires
        0 <= q,
        k <= usize::MAX,
    ensures
        forall|t: int|
            0 <= t < bwd_catch_trace(k, q).len() ==> ((#[trigger] bwd_catch_trace(k, q)[t]) matches
                PipelineOp::CatchResponse { pos } && q <= pos < k),
        forall|i: int|
            q <= i < k ==> #[trigger] bwd_catch_trace(k, q).contains(
                PipelineOp::CatchResponse { pos: i as usize },
            ),
    decreases k - q,
{
    if q < k {
        lemma_bwd_catch_trace_ops(k, q + 1);
        let prev = bwd_catch_trace(k, q + 1);
        let cur = bwd_catch_trace(k, q);
        assert forall|t: int| 0 <= t < cur.len() implies ((#[trigger] cur[t]) matches
            PipelineOp::CatchResponse { pos } && q <= pos < k) by {
            if t < prev.len() {
                assert(cur[t] == prev[t]);
            } else {
                assert(cur[t] == PipelineOp::CatchResponse { pos: q as usize });
            }
        }
        assert forall|i: int| q <= i < k implies #[trigger] cur.contains(
            PipelineOp::CatchResponse { pos: i as usize },
        ) by {
            let op = PipelineOp::CatchResponse { pos: i as usize };
            if i > q {
                assert(prev.contains(op));
                let j = choose|j: int| 0 <= j < prev.len() && prev[j] == op;
                assert(cur[j] == op);
            } else {
                assert(cur[cur.len() - 1] == op);
            }
        }
    }
}

} // verus!

verus! {

proof fn lemma_count_empty(i: int)
    ensures
        resolve_count(Seq::<PipelineOp>::empty(), i) == 0,
{
    reveal(Seq::filter);
}

proof fn lemma_count_singleton(op: PipelineOp, i: int)
    ensures
        resolve_count(seq![op], i) == if is_resolve_at(op, i) {
            1int
        } else {
            0int
        },
{
    reveal_with_fuel(Seq::filter, 2);
    assert(seq![op].drop_last() =~= Seq::<PipelineOp>::empty());
    assert(seq![op].last() == op);
}

proof fn lemma_count_concat(a: Seq<PipelineOp>, b: Seq<PipelineOp>, i: int)
    ensures
        resolve_count(a + b, i) == resolve_count(a, i) + resolve_count(b, i),
{
    Seq::filter_distributes_over_add(a, b, resolve_pred(i));
}

proof fn lemma_fwd_ok_resolve_count(
    kinds: Seq<EntryKind>,
    resolved: Seq<Option<usize>>,
    p: int,
    i: int,
)
    requires
        p <= usize::MAX,
    ensures
        resolve_count(fwd_ok_trace(kinds, resolved, p), i) == if 0 <= i < p && kinds[i] is Dynamic {
            1int
        } else {
            0int
        },
    decreases p,
{
    if p <= 0 {
        lemma_count_empty(i);
    } else {
        lemma_fwd_ok_resolve_count(kinds, resolved, p - 1, i);
        let a = fwd_ok_trace(kinds, resolved, p - 1);
        let b = resolve_ops(kinds, resolved, p - 1);
        let c = seq![PipelineOp::HandleRequest { pos: (p - 1) as usize, err: None }];
        lemma_count_concat(a, b, i);
        lemma_count_concat(a + b, c, i);
        lemma_count_singleton(c[0], i);
        assert(c =~= seq![c[0]]);
        if kinds[p - 1] is Dynamic {
            lemma_count_singleton(b[0], i);
            assert(b =~= seq![b[0]]);
        } else {
            assert(b =~= Seq::<PipelineOp>::empty());
            lemma_count_empty(i);
        }
    }
}

proof fn lemma_fwd_catch_resolve_count(
    kinds: Seq<EntryKind>,
    resolved: Seq<Option<usize>>,
    from: int,
    p: int,
    i: int,
)
    requires
        0 <= from,
        p <= usize::MAX,
    ensures
        resolve_count(fwd_catch_trace(kinds, resolved, from, p), i) == if from <= i < p
            && kinds[i] is Dynamic {
            1int
        } else {
            0int
        },
    decreases p - from,
{
    if p <= from {
        lemma_count_empty(i);
    } else {
        lemma_fwd_catch_resolve_count(kinds, resolved, from, p - 1, i);
        let a = fwd_catch_trace(kinds, resolved, from, p - 1);
        let b = resolve_ops(kinds, resolved, p - 1);
        let c = seq![PipelineOp::CatchRequest { pos: (p - 1) as usize }];
        lemma_count_concat(a, b, i);
        lemma_count_concat(a + b, c, i);
        lemma_count_singleton(c[0], i);
        assert(c =~= seq![c[0]]);
        if kinds[p - 1] is Dynamic {
            lemma_count_singleton(b[0], i);
            assert(b =~= seq![b[0]]);
        } else {
            assert(b =~= Seq::<PipelineOp>::empty());
            lemma_count_empty(i);
        }
    }
}

proof fn lemma_bwd_ok_resolve_count(n: int, q: int, i: int)
    requires
        n <= usize::MAX,
    ensures
        resolve_count(bwd_ok_trace(n, q), i) == 0,
    decreases n - q,
{
    if q >= n {
        lemma_count_empty(i);
    } else {
        lemma_bwd_ok_resolve_count(n, q + 1, i);
        let a = bwd_ok_trace(n, q + 1);
        let c = seq![PipelineOp::HandleResponse { pos: q as usize, err: None }];
        lemma_count_concat(a, c, i);
        lemma_count_singleton(c[0], i);
        assert(c =~= seq![c[0]]);
    }
}

proof fn lemma_bwd_catch_resolve_count(k: int, q: int, i: int)
    requires
        k <= usize::MAX,
    ensures
        resolve_count(bwd_catch_trace(k, q), i) == 0,
    decreases k - q,
{
    if q >= k {
        lemma_count_empty(i);
    } else {
        lemma_bwd_catch_resolve_count(k, q + 1, i);
        let a = bwd_catch_trace(k, q + 1);
        let c = seq![PipelineOp::CatchResponse { pos: q as usize }];
        lemma_count_concat(a, c, i);
        lemma_count_singleton(c[0], i);
        assert(c =~= seq![c[0]]);
    }
}

} // verus!

// The laws of the pipeline, stated over a machine's trace.

verus! {

/// Every resolver run recorded in the trace is at a dynamic position and
/// carries exactly the identity the machine has cached for that position.
proof fn lemma_trace_ops(m: PipelineExec)
    requires
        m.inv(),
    ensures
        forall|t: int|
            0 <= t < m.trace().len() ==> ((#[trigger] m.trace()[t]) matches PipelineOp::Resolve {
                pos,
                id,
            } ==> pos < m.n() && m.spec_kinds()[pos as int] is Dynamic && Some(id)
                == m.spec_resolved()[pos as int]),
{
    let kinds = m.spec_kinds();
    let resolved = m.spec_resolved();
    let n = m.n();
    let tr = m.trace();
    match m.spec_phase() {
        PipelinePhase::Forward => {
            let pos = m.spec_pos();
            let tail: Seq<PipelineOp> = if m.partial() {
                resolve_ops(kinds, resolved, pos)
            } else {
                seq![]
            };
            match (m.first_error(), m.fail_idx()) {
                (None, None) => {
                    lemma_fwd_ok_trace_ops(kinds, resolved, pos);
                    let a = fwd_ok_trace(kinds, resolved, pos);
                    assert forall|t: int|
                        0 <= t < tr.len() implies ((#[trigger] tr[t])
                        matches PipelineOp::Resolve { pos: rp, id } ==> rp < n && kinds[rp as int] is Dynamic
                        && Some(id) == resolved[rp as int]) by {
                        if t < a.len() {
                            assert(tr[t] == a[t]);
                        } else {
                            assert(tr[t] == tail[t - a.len()]);
                        }
                    }
                },
                (Some(e), Some(k)) => {
                    lemma_fwd_ok_trace_ops(kinds, resolved, k);
                    lemma_fwd_catch_trace_ops(kinds, resolved, k + 1, pos);
                    let a = fwd_ok_trace(kinds, resolved, k);
                    let b = resolve_ops(kinds, resolved, k);
                    let c = seq![PipelineOp::HandleRequest { pos: k as usize, err: Some(e) }];
                    let d = fwd_catch_trace(kinds, resolved, k + 1, pos);
                    assert(tr == a + b + c + d + tail);
                    assert forall|t: int|
                        0 <= t < tr.len() implies ((#[trigger] tr[t])
                        matches PipelineOp::Resolve { pos: rp, id } ==> rp < n && kinds[rp as int] is Dynamic
                        && Some(id) == resolved[rp as int]) by {
                        if t < a.len() {
                            assert(tr[t] == a[t]);
                        } else if t < a.len() + b.len() {
                            assert(tr[t] == b[t - a.len()]);
                        } else if t < a.len() + b.len() + 1 {
                            assert(tr[t] == c[0]);
                        } else if t < a.len() + b.len() + 1 + d.len() {
                            assert(tr[t] == d[t - (a.len() + b.len() + 1)]);
                        } else {
                            assert(tr[t] == tail[t - (a.len() + b.len() + 1 + d.len())]);
                        }
                    }
                },
                _ => {},
            }
        },
        PipelinePhase::ServeFailed => {
            lemma_fwd_ok_trace_ops(kinds, resolved, n);
            let a = fwd_ok_trace(kinds, resolved, n);
            assert forall|t: int|
                0 <= t < tr.len() implies ((#[trigger] tr[t]) matches PipelineOp::Resolve {
                pos: rp,
                id,
            } ==> rp < n && kinds[rp as int] is Dynamic && Some(id) == resolved[rp as int]) by {
                if t < a.len() {
                    assert(tr[t] == a[t]);
                } else {
                    assert(tr[t] == PipelineOp::Serve { err: Some(m.first_error()->0) });
                }
            }
        },
        PipelinePhase::Backward => {
            let pos = m.spec_pos();
            lemma_fwd_ok_trace_ops(kinds, resolved, n);
            let a = fwd_ok_trace(kinds, resolved, n);
            let s = seq![PipelineOp::Serve { err: None }];
            match (m.first_error(), m.fail_idx()) {
                (None, None) => {
                    lemma_bwd_ok_trace_ops(n, pos);
                    let w = bwd_ok_trace(n, pos);
                    assert forall|t: int|
                        0 <= t < tr.len() implies ((#[trigger] tr[t])
                        matches PipelineOp::Resolve { pos: rp, id } ==> rp < n && kinds[rp as int] is Dynamic
                        && Some(id) == resolved[rp as int]) by {
                        if t < a.len() {
                            assert(tr[t] == a[t]);
                        } else if t < a.len() + 1 {
                            assert(tr[t] == s[0]);
                        } else {
                            assert(tr[t] == w[t - (a.len() + 1)]);
                        }
                    }
                },
                (Some(e), Some(k)) => {
                    lemma_bwd_ok_trace_ops(n, k + 1);
                    lemma_bwd_catch_trace_ops(k, pos);
                    let w = bwd_ok_trace(n, k + 1);
                    let f = seq![PipelineOp::HandleResponse { pos: k as usize, err: Some(e) }];
                    let g = bwd_catch_trace(k, pos);
                    assert(tr == a + s + (w + f + g));
                    assert forall|t: int|
                        0 <= t < tr.len() implies ((#[trigger] tr[t])
                        matches PipelineOp::Resolve { pos: rp, id } ==> rp < n && kinds[rp as int] is Dynamic
                        && Some(id) == resolved[rp as int]) by {
                        if t < a.len() {
                            assert(tr[t] == a[t]);
                        } else if t < a.len() + 1 {
                            assert(tr[t] == s[0]);
                        } else if t < a.len() + 1 + w.len() {
                            assert(tr[t] == w[t - (a.len() + 1)]);
                        } else if t < a.len() + 1 + w.len() + 1 {
                            assert(tr[t] == f[0]);
                        } else {
                            assert(tr[t] == g[t - (a.len() + 1 + w.len() + 1)]);
                        }
                    }
                },
                _ => {},
            }
        },
    }
}

/// A resolver runs at most once per request: at a fixed position it never
/// runs; at a dynamic position it has run exactly once as soon as an
/// identity is cached, every resolver run recorded for that position carries
/// the cached identity, and every stage operation the machine addresses to
/// that position uses it.
pub proof fn law_resolver_once(m: PipelineExec, i: int)
    requires
        m.inv(),
        0 <= i < m.n(),
    ensures
        resolve_count(m.trace(), i) == if m.spec_resolved()[i] is Some {
            1int
        } else {
            0int
        },
        m.spec_kinds()[i] is Fixed ==> resolve_count(m.trace(), i) == 0,
        forall|t: int|
            0 <= t < m.trace().len() && is_resolve_at(#[trigger] m.trace()[t], i) ==> m.trace()[t]
                == (PipelineOp::Resolve { pos: i as usize, id: m.spec_resolved()[i]->0 }),
        m.spec_kinds()[i] is Dynamic && m.spec_resolved()[i] is Some ==> m.sel_of(i) == (
        StageSel::Resolved { pos: i as usize, id: m.spec_resolved()[i]->0 }),
{
    lemma_trace_ops(m);
    let kinds = m.spec_kinds();
    let resolved = m.spec_resolved();
    let n = m.n();
    let tr = m.trace();
    match m.spec_phase() {
        PipelinePhase::Forward => {
            let pos = m.spec_pos();
            let tail: Seq<PipelineOp> = if m.partial() {
                resolve_ops(kinds, resolved, pos)
            } else {
                seq![]
            };
            if m.partial() {
                lemma_count_singleton(tail[0], i);
                assert(tail =~= seq![tail[0]]);
            } else {
                assert(tail =~= Seq::<PipelineOp>::empty());
                lemma_count_empty(i);
            }
            match (m.first_error(), m.fail_idx()) {
                (None, None) => {
                    let a = fwd_ok_trace(kinds, resolved, pos);
                    lemma_fwd_ok_resolve_count(kinds, resolved, pos, i);
                    lemma_count_concat(a, tail, i);
                },
                (Some(e), Some(k)) => {
                    let a = fwd_ok_trace(kinds, resolved, k);
                    let b = resolve_ops(kinds, resolved, k);
                    let c = seq![PipelineOp::HandleRequest { pos: k as usize, err: Some(e) }];
                    let d = fwd_catch_trace(kinds, resolved, k + 1, pos);
                    assert(tr == a + b + c + d + tail);
                    lemma_fwd_ok_resolve_count(kinds, resolved, k, i);
                    if kinds[k] is Dynamic {
                        lemma_count_singleton(b[0], i);
                        assert(b =~= seq![b[0]]);
                    } else {
                        assert(b =~= Seq::<PipelineOp>::empty());
                        lemma_count_empty(i);
                    }
                    lemma_count_singleton(c[0], i);
                    assert(c =~= seq![c[0]]);
                    lemma_fwd_catch_resolve_count(kinds, resolved, k + 1, pos, i);
                    lemma_count_concat(a, b, i);
                    lemma_count_concat(a + b, c, i);
                    lemma_count_concat(a + b + c, d, i);
                    lemma_count_concat(a + b + c + d, tail, i);
                },
                _ => {},
            }
        },
        PipelinePhase::ServeFailed => {
            let a = fwd_ok_trace(kinds, resolved, n);
            let c = seq![PipelineOp::Serve { err: Some(m.first_error()->0) }];
            lemma_fwd_ok_resolve_count(kinds, resolved, n, i);
            lemma_count_singleton(c[0], i);
            assert(c =~= seq![c[0]]);
            lemma_count_concat(a, c, i);
        },
        PipelinePhase::Backward => {
            let pos = m.spec_pos();
            let a = fwd_ok_trace(kinds, resolved, n);
            let s = seq![PipelineOp::Serve { err: None }];
            lemma_fwd_ok_resolve_count(kinds, resolved, n, i);
            lemma_count_singleton(s[0], i);
            assert(s =~= seq![s[0]]);
            match (m.first_error(), m.fail_idx()) {
                (None, None) => {
                    let w = bwd_ok_trace(n, pos);
                    lemma_bwd_ok_resolve_count(n, pos, i);
                    lemma_count_concat(a, s, i);
                    lemma_count_concat(a + s, w, i);
                },
                (Some(e), Some(k)) => {
                    let w = bwd_ok_trace(n, k + 1);
                    let f = seq![PipelineOp::HandleResponse { pos: k as usize, err: Some(e) }];
                    let g = bwd_catch_trace(k, pos);
                    assert(tr == a + s + (w + f + g));
                    lemma_bwd_ok_resolve_count(n, k + 1, i);
                    lemma_count_singleton(f[0], i);
                    assert(f =~= seq![f[0]]);
                    lemma_bwd_catch_resolve_count(k, pos, i);
                    lemma_count_concat(w, f, i);
                    lemma_count_concat(w + f, g, i);
                    lemma_count_concat(a, s, i);
                    lemma_count_concat(a + s, w + f + g, i);
                },
                _ => {},
            }
        },
    }
}

} // verus!

verus! {

/// With no stages at all, the whole run is exactly one call of the terminal
/// service, and the machine returns that call's outcome unchanged: its error
/// on failure, the response the driver holds on success.
pub proof fn law_empty_stage_sequence(m: PipelineExec)
    requires
        m.inv(),
        m.n() == 0,
        m.finished(),
    ensures
        m.trace() == seq![PipelineOp::Serve { err: m.first_error() }],
        m.first_error() is Some ==> m.spec_next() == PipelineAction::ReturnError,
        m.first_error() is None ==> m.spec_next() == PipelineAction::ReturnResponse,
{
    let kinds = m.spec_kinds();
    let resolved = m.spec_resolved();
    match m.spec_phase() {
        PipelinePhase::Forward => {
            assert(m.spec_pos() == 0);
            assert(m.first_error() is Some);
            assert(false);
        },
        PipelinePhase::ServeFailed => {
            let e = m.first_error()->0;
            assert(m.trace() =~= seq![PipelineOp::Serve { err: Some(e) }]);
        },
        PipelinePhase::Backward => {
            assert(m.spec_pos() == 0);
            assert(m.first_error() is None);
            assert(m.trace() =~= seq![PipelineOp::Serve { err: None }]);
        },
    }
}

/// If the forward pass failed, it failed first at some stage k: stages
/// before k ran normal request handling, stage k ran it and failed with the
/// recorded error, stages after k received the request-recovery notification
/// instead — and no stage at or before k received it. The terminal service
/// never ran and no response-phase operation ran at all.
pub proof fn law_forward_failure(m: PipelineExec)
    requires
        m.inv(),
        m.spec_phase() is Forward,
        m.spec_pos() == m.n(),
        m.first_error() is Some,
    ensures
        m.spec_next() == PipelineAction::ReturnError,
        m.fail_idx() is Some,
        0 <= m.fail_idx()->0 < m.n(),
        m.trace() == fwd_fail_trace(
            m.spec_kinds(),
            m.spec_resolved(),
            m.fail_idx()->0,
            m.first_error()->0,
            m.n(),
        ),
        forall|i: int|
            0 <= i < m.fail_idx()->0 ==> #[trigger] m.trace().contains(
                PipelineOp::HandleRequest { pos: i as usize, err: None },
            ),
        m.trace().contains(
            PipelineOp::HandleRequest {
                pos: m.fail_idx()->0 as usize,
                err: Some(m.first_error()->0),
            },
        ),
        forall|i: int|
            m.fail_idx()->0 < i < m.n() ==> #[trigger] m.trace().contains(
                PipelineOp::CatchRequest { pos: i as usize },
            ),
        forall|t: int|
            0 <= t < m.trace().len() ==> !((#[trigger] m.trace()[t]) is Serve) && !(m.trace()[t] is HandleResponse)
                && !(m.trace()[t] is CatchResponse),
        forall|t: int|
            0 <= t < m.trace().len() ==> ((#[trigger] m.trace()[t])
                matches PipelineOp::CatchRequest { pos } ==> m.fail_idx()->0 < pos < m.n()),
        forall|t: int|
            0 <= t < m.trace().len() ==> ((#[trigger] m.trace()[t])
                matches PipelineOp::HandleRequest { pos, err } ==> pos <= m.fail_idx()->0 && (err
                == Some(m.first_error()->0) <==> pos == m.fail_idx()->0) && (err is None <==> pos
                < m.fail_idx()->0)),
{
    let kinds = m.spec_kinds();
    let resolved = m.spec_resolved();
    let n = m.n();
    let tr = m.trace();
    let k = m.fail_idx()->0;
    let e = m.first_error()->0;
    let a = fwd_ok_trace(kinds, resolved, k);
    let b = resolve_ops(kinds, resolved, k);
    let c = seq![PipelineOp::HandleRequest { pos: k as usize, err: Some(e) }];
    let d = fwd_catch_trace(kinds, resolved, k + 1, n);
    assert(tr =~= a + b + c + d);
    lemma_fwd_ok_trace_ops(kinds, resolved, k);
    lemma_fwd_catch_trace_ops(kinds, resolved, k + 1, n);
    assert forall|t: int|
        0 <= t < tr.len() implies !((#[trigger] tr[t]) is Serve) && !(tr[t] is HandleResponse) && !(
    tr[t] is CatchResponse) && (tr[t] matches PipelineOp::CatchRequest { pos } ==> k < pos < n) && (
    tr[t] matches PipelineOp::HandleRequest { pos, err } ==> pos <= k && (err == Some(e) <==> pos
        == k) && (err is None <==> pos < k)) by {
        if t < a.len() {
            assert(tr[t] == a[t]);
        } else if t < a.len() + b.len() {
            assert(tr[t] == b[t - a.len()]);
        } else if t < a.len() + b.len() + 1 {
            assert(tr[t] == c[0]);
        } else {
            assert(tr[t] == d[t - (a.len() + b.len() + 1)]);
        }
    }
    assert forall|i: int| 0 <= i < k implies #[trigger] tr.contains(
        PipelineOp::HandleRequest { pos: i as usize, err: None },
    ) by {
        let op = PipelineOp::HandleRequest { pos: i as usize, err: None };
        assert(a.contains(op));
        let j = choose|j: int| 0 <= j < a.len() && a[j] == op;
        assert(tr[j] == op);
    }
    assert(tr[a.len() + b.len() as int] == c[0]);
    assert forall|i: int| k < i < n implies #[trigger] tr.contains(
        PipelineOp::CatchRequest { pos: i as usize },
    ) by {
        let op = PipelineOp::CatchRequest { pos: i as usize };
        assert(d.contains(op));
        let j = choose|j: int| 0 <= j < d.len() && d[j] == op;
        assert(tr[a.len() + b.len() + 1 + j] == op);
    }
}

/// If the backward pass failed, it failed first at some stage k (counting in
/// reverse order): the whole forward pass and the terminal service had
/// succeeded, stages after k ran normal response handling before it, stage k
/// ran it and failed with the recorded error, and the stages before k
/// received the response-recovery notification instead.
pub proof fn law_backward_failure(m: PipelineExec)
    requires
        m.inv(),
        m.spec_phase() is Backward,
        m.spec_pos() == 0,
        m.first_error() is Some,
    ensures
        m.spec_next() == PipelineAction::ReturnError,
        m.fail_idx() is Some,
        0 <= m.fail_idx()->0 < m.n(),
        m.trace() == fwd_ok_trace(m.spec_kinds(), m.spec_resolved(), m.n()) + seq![
            PipelineOp::Serve { err: None },
        ] + bwd_fail_trace(m.n(), m.fail_idx()->0, m.first_error()->0, 0),
        forall|i: int|
            0 <= i < m.n() ==> #[trigger] m.trace().contains(
                PipelineOp::HandleRequest { pos: i as usize, err: None },
            ),
        m.trace().contains(PipelineOp::Serve { err: None }),
        forall|i: int|
            m.fail_idx()->0 < i < m.n() ==> #[trigger] m.trace().contains(
                PipelineOp::HandleResponse { pos: i as usize, err: None },
            ),
        m.trace().contains(
            PipelineOp::HandleResponse {
                pos: m.fail_idx()->0 as usize,
                err: Some(m.first_error()->0),
            },
        ),
        forall|i: int|
            0 <= i < m.fail_idx()->0 ==> #[trigger] m.trace().contains(
                PipelineOp::CatchResponse { pos: i as usize },
            ),
        forall|t: int|
            0 <= t < m.trace().len() ==> ((#[trigger] m.trace()[t])
                matches PipelineOp::HandleResponse { pos, err } ==> m.fail_idx()->0 <= pos < m.n()
                && (err == Some(m.first_error()->0) <==> pos == m.fail_idx()->0) && (err is None
                <==> m.fail_idx()->0 < pos)),
        forall|t: int|
            0 <= t < m.trace().len() ==> ((#[trigger] m.trace()[t])
                matches PipelineOp::CatchResponse { pos } ==> 0 <= pos < m.fail_idx()->0),
{
    let kinds = m.spec_kinds();
    let resolved = m.spec_resolved();
    let n = m.n();
    let tr = m.trace();
    let k = m.fail_idx()->0;
    let e = m.first_error()->0;
    let a = fwd_ok_trace(kinds, resolved, n);
    let s = seq![PipelineOp::Serve { err: None }];
    let w = bwd_ok_trace(n, k + 1);
    let f = seq![PipelineOp::HandleResponse { pos: k as usize, err: Some(e) }];
    let g = bwd_catch_trace(k, 0);
    assert(tr =~= a + s + (w + f + g));
    lemma_fwd_ok_trace_ops(kinds, resolved, n);
    lemma_bwd_ok_trace_ops(n, k + 1);
    lemma_bwd_catch_trace_ops(k, 0);
    assert forall|t: int|
        0 <= t < tr.len() implies ((#[trigger] tr[t]) matches PipelineOp::HandleResponse {
        pos,
        err,
    } ==> k <= pos < n && (err == Some(e) <==> pos == k) && (err is None <==> k < pos)) && (tr[t]
        matches PipelineOp::CatchResponse { pos } ==> 0 <= pos < k) by {
        if t < a.len() {
            assert(tr[t] == a[t]);
        } else if t < a.len() + 1 {
            assert(tr[t] == s[0]);
        } else if t < a.len() + 1 + w.len() {
            assert(tr[t] == w[t - (a.len() + 1)]);
        } else if t < a.len() + 1 + w.len() + 1 {
            assert(tr[t] == f[0]);
        } else {
            assert(tr[t] == g[t - (a.len() + 1 + w.len() + 1)]);
        }
    }
    assert forall|i: int| 0 <= i < n implies #[trigger] tr.contains(
        PipelineOp::HandleRequest { pos: i as usize, err: None },
    ) by {
        let op = PipelineOp::HandleRequest { pos: i as usize, err: None };
        assert(a.contains(op));
        let j = choose|j: int| 0 <= j < a.len() && a[j] == op;
        assert(tr[j] == op);
    }
    assert(tr[a.len() as int] == s[0]);
    assert forall|i: int| k < i < n implies #[trigger] tr.contains(
        PipelineOp::HandleResponse { pos: i as usize, err: None },
    ) by {
        let op = PipelineOp::HandleResponse { pos: i as usize, err: None };
        assert(w.contains(op));
        let j = choose|j: int| 0 <= j < w.len() && w[j] == op;
        assert(tr[a.len() + 1 + j] == op);
    }
    assert(tr[a.len() + 1 + w.len() as int] == f[0]);
    assert forall|i: int| 0 <= i < k implies #[trigger] tr.contains(
        PipelineOp::CatchResponse { pos: i as usize },
    ) by {
        let op = PipelineOp::CatchResponse { pos: i as usize };
        assert(g.contains(op));
        let j = choose|j: int| 0 <= j < g.len() && g[j] == op;
        assert(tr[a.len() + 1 + w.len() + 1 + j] == op);
    }
}

} // verus!

verus! {

/// The terminal service runs exactly once per request — never while the
/// forward pass is still running or after it failed, exactly once otherwise —
/// and where it ran, every forward-pass stage had handled the request without
/// error.
pub proof fn law_service_once(m: PipelineExec)
    requires
        m.inv(),
    ensures
        m.spec_phase() is Forward ==> forall|t: int|
            0 <= t < m.trace().len() ==> !((#[trigger] m.trace()[t]) is Serve),
        !(m.spec_phase() is Forward) ==> exists|t: int|
            0 <= t < m.trace().len() && (#[trigger] m.trace()[t]) is Serve,
        forall|t1: int, t2: int|
            0 <= t1 < m.trace().len() && 0 <= t2 < m.trace().len() && (#[trigger] m.trace()[t1]) is Serve
                && (#[trigger] m.trace()[t2]) is Serve ==> t1 == t2,
        !(m.spec_phase() is Forward) ==> forall|t: int|
            0 <= t < m.trace().len() ==> ((#[trigger] m.trace()[t])
                matches PipelineOp::HandleRequest { pos, err } ==> err is None),
{
    let kinds = m.spec_kinds();
    let resolved = m.spec_resolved();
    let n = m.n();
    let tr = m.trace();
    match m.spec_phase() {
        PipelinePhase::Forward => {
            let pos = m.spec_pos();
            let tail: Seq<PipelineOp> = if m.partial() {
                resolve_ops(kinds, resolved, pos)
            } else {
                seq![]
            };
            match (m.first_error(), m.fail_idx()) {
                (None, None) => {
                    lemma_fwd_ok_trace_ops(kinds, resolved, pos);
                    let a = fwd_ok_trace(kinds, resolved, pos);
                    assert forall|t: int| 0 <= t < tr.len() implies !((#[trigger] tr[t])
                        is Serve) by {
                        if t < a.len() {
                            assert(tr[t] == a[t]);
                        } else {
                            assert(tr[t] == tail[t - a.len()]);
                        }
                    }
                },
                (Some(e), Some(k)) => {
                    lemma_fwd_ok_trace_ops(kinds, resolved, k);
                    lemma_fwd_catch_trace_ops(kinds, resolved, k + 1, pos);
                    let a = fwd_ok_trace(kinds, resolved, k);
                    let b = resolve_ops(kinds, resolved, k);
                    let c = seq![PipelineOp::HandleRequest { pos: k as usize, err: Some(e) }];
                    let d = fwd_catch_trace(kinds, resolved, k + 1, pos);
                    assert(tr == a + b + c + d + tail);
                    assert forall|t: int| 0 <= t < tr.len() implies !((#[trigger] tr[t])
                        is Serve) by {
                        if t < a.len() {
                            assert(tr[t] == a[t]);
                        } else if t < a.len() + b.len() {
                            assert(tr[t] == b[t - a.len()]);
                        } else if t < a.len() + b.len() + 1 {
                            assert(tr[t] == c[0]);
                        } else if t < a.len() + b.len() + 1 + d.len() {
                            assert(tr[t] == d[t - (a.len() + b.len() + 1)]);
                        } else {
                            assert(tr[t] == tail[t - (a.len() + b.len() + 1 + d.len())]);
                        }
                    }
                },
                _ => {},
            }
        },
        PipelinePhase::ServeFailed => {
            lemma_fwd_ok_trace_ops(kinds, resolved, n);
            let a = fwd_ok_trace(kinds, resolved, n);
            assert(tr[a.len() as int] is Serve);
            assert forall|t: int| 0 <= t < tr.len() && t != a.len() implies !((#[trigger] tr[t])
                is Serve) by {
                assert(tr[t] == a[t]);
            }
            assert forall|t: int| 0 <= t < tr.len() implies ((#[trigger] tr[t])
                matches PipelineOp::HandleRequest { pos, err } ==> err is None) by {
                if t < a.len() {
                    assert(tr[t] == a[t]);
                }
            }
        },
        PipelinePhase::Backward => {
            let pos = m.spec_pos();
            lemma_fwd_ok_trace_ops(kinds, resolved, n);
            let a = fwd_ok_trace(kinds, resolved, n);
            let s = seq![PipelineOp::Serve { err: None }];
            match (m.first_error(), m.fail_idx()) {
                (None, None) => {
                    lemma_bwd_ok_trace_ops(n, pos);
                    let w = bwd_ok_trace(n, pos);
                    assert(tr[a.len() as int] is Serve);
                    assert forall|t: int|
                        0 <= t < tr.len() && t != a.len() implies !((#[trigger] tr[t])
                        is Serve) by {
                        if t < a.len() {
                            assert(tr[t] == a[t]);
                        } else {
                            assert(tr[t] == w[t - (a.len() + 1)]);
                        }
                    }
                    assert forall|t: int| 0 <= t < tr.len() implies ((#[trigger] tr[t])
                        matches PipelineOp::HandleRequest { pos: hp, err } ==> err is None) by {
                        if t < a.len() {
                            assert(tr[t] == a[t]);
                        } else if t > a.len() {
                            assert(tr[t] == w[t - (a.len() + 1)]);
                        }
                    }
                },
                (Some(e), Some(k)) => {
                    lemma_bwd_ok_trace_ops(n, k + 1);
                    lemma_bwd_catch_trace_ops(k, pos);
                    let w = bwd_ok_trace(n, k + 1);
                    let f = seq![PipelineOp::HandleResponse { pos: k as usize, err: Some(e) }];
                    let g = bwd_catch_trace(k, pos);
                    assert(tr == a + s + (w + f + g));
                    assert(tr[a.len() as int] is Serve);
                    assert forall|t: int|
                        0 <= t < tr.len() && t != a.len() implies !((#[trigger] tr[t])
                        is Serve) by {
                        if t < a.len() {
                            assert(tr[t] == a[t]);
                        } else if t < a.len() + 1 + w.len() {
                            assert(tr[t] == w[t - (a.len() + 1)]);
                        } else if t < a.len() + 1 + w.len() + 1 {
                            assert(tr[t] == f[0]);
                        } else {
                            assert(tr[t] == g[t - (a.len() + 1 + w.len() + 1)]);
                        }
                    }
                    assert forall|t: int| 0 <= t < tr.len() implies ((#[trigger] tr[t])
                        matches PipelineOp::HandleRequest { pos: hp, err } ==> err is None) by {
                        if t < a.len() {
                            assert(tr[t] == a[t]);
                        } else if a.len() + 1 <= t < a.len() + 1 + w.len() {
                            assert(tr[t] == w[t - (a.len() + 1)]);
                        } else if t == a.len() + 1 + w.len() {
                            assert(tr[t] == f[0]);
                        } else if t > a.len() + 1 + w.len() {
                            assert(tr[t] == g[t - (a.len() + 1 + w.len() + 1)]);
                        }
                    }
                },
                _ => {},
            }
        },
    }
}

} // verus!

verus! {

/// On an error-free run, every stage handled the request in declared order,
/// the terminal service ran once, and every stage then handled the response
/// in exactly reversed order: the stage at position i runs the (n-i)-th
/// response-handling operation, right after the Serve op for i == n-1.
pub proof fn law_success_round_trip(m: PipelineExec)
    requires
        m.inv(),
        m.spec_phase() is Backward,
        m.spec_pos() == 0,
        m.first_error() is None,
    ensures
        m.spec_next() == PipelineAction::ReturnResponse,
        m.trace() == fwd_ok_trace(m.spec_kinds(), m.spec_resolved(), m.n()) + seq![
            PipelineOp::Serve { err: None },
        ] + bwd_ok_trace(m.n(), 0),
        forall|i: int|
            0 <= i < m.n() ==> #[trigger] m.trace().contains(
                PipelineOp::HandleRequest { pos: i as usize, err: None },
            ),
        forall|i: int|
            0 <= i < m.n() ==> #[trigger] m.trace()[fwd_ok_trace(
                m.spec_kinds(),
                m.spec_resolved(),
                m.n(),
            ).len() + 1 + (m.n() - 1 - i)] == (PipelineOp::HandleResponse {
                pos: i as usize,
                err: None,
            }),
{
    let kinds = m.spec_kinds();
    let resolved = m.spec_resolved();
    let n = m.n();
    let tr = m.trace();
    let a = fwd_ok_trace(kinds, resolved, n);
    let w = bwd_ok_trace(n, 0);
    lemma_fwd_ok_trace_ops(kinds, resolved, n);
    lemma_bwd_ok_trace_ops(n, 0);
    assert forall|i: int| 0 <= i < n implies #[trigger] tr.contains(
        PipelineOp::HandleRequest { pos: i as usize, err: None },
    ) by {
        let op = PipelineOp::HandleRequest { pos: i as usize, err: None };
        assert(a.contains(op));
        let j = choose|j: int| 0 <= j < a.len() && a[j] == op;
        assert(tr[j] == op);
    }
    assert forall|i: int| 0 <= i < n implies #[trigger] tr[a.len() + 1 + (n - 1 - i)]
        == (PipelineOp::HandleResponse { pos: i as usize, err: None }) by {
        assert(tr[a.len() + 1 + (n - 1 - i)] == w[n - 1 - i]);
    }
}

} // verus!
