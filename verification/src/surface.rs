//! The surface layer: user-facing composition of stages.
//!
//! Users write a chain head-first, source to sink, but a push chain must
//! be assembled tail-first, because every node needs to know what
//! consumes its output.  The surface resolves this with a two-pass
//! construction: composing "reversed" surface nodes defers realization
//! while the chain is still growing, and once the terminal is known
//! [`PushSurfaceReversed::into_build`] unwinds the composition into the
//! concrete build chain, at no cost per item.

use vstd::prelude::*;

use crate::handoff::{RecvPort, SendPort};
use crate::pull::{FilterMapPullBuild, PullBuild};
use crate::push::{FilterMapPushBuild, HandoffPushBuild, PushBuild};
use crate::stage::{MapOp, Pred, Stage};

verus! {

/// A surface node that composes a filter-map stage onto a pull chain,
/// or onto a push chain being assembled.
pub struct FilterMapSurface {
    pub prev: PullBuild,
    pub pred: Pred,
    pub op: MapOp,
}

impl FilterMapSurface {
    pub fn new(prev: PullBuild, pred: Pred, op: MapOp) -> (s: FilterMapSurface)
        ensures
            s.prev == prev,
            s.pred == pred,
            s.op == op,
    {
        FilterMapSurface { prev, pred, op }
    }

    /// Realize as a pull chain: the receive port drained and the stage
    /// list applied, the filter-map stage last.
    pub fn into_parts(self) -> (r: (RecvPort, Vec<Stage>))
        ensures
            r.0.hof_id() == self.prev.src_hof(),
            r.0.reader_id() == self.prev.src_reader(),
            r.1@ == self.prev.stages().push(Stage::FilterMap(self.pred, self.op)),
    {
        let FilterMapSurface { prev, pred, op } = self;
        let chain = PullBuild::FilterMap(FilterMapPullBuild::new(prev, pred, op));
        chain.into_parts()
    }

    /// Compose for a push chain: the surface's own stage is wrapped
    /// around the already-known downstream part, and the upstream pull
    /// part is handed back for the caller to keep composing or realize.
    pub fn push_to(self, next: PushSurfaceReversed) -> (r: (PullBuild, PushSurfaceReversed))
        ensures
            r.0 == self.prev,
            r.1.stages() == seq![Stage::FilterMap(self.pred, self.op)] + next.stages(),
            r.1.out_hof() == next.out_hof(),
    {
        let FilterMapSurface { prev, pred, op } = self;
        (prev, PushSurfaceReversed::FilterMap(FilterMapPushSurfaceReversed::new(next, pred, op)))
    }
}

/// The terminal of a reversed push composition: the handoff send port
/// the finished chain will feed.
pub struct HandoffPushSurfaceReversed {
    pub port: SendPort,
}

impl HandoffPushSurfaceReversed {
    pub fn new(port: SendPort) -> (s: HandoffPushSurfaceReversed)
        ensures
            s.port.hof_id() == port.hof_id(),
    {
        HandoffPushSurfaceReversed { port }
    }
}

/// A deferred filter-map node of a reversed push composition.
pub struct FilterMapPushSurfaceReversed {
    pub next: Box<PushSurfaceReversed>,
    pub pred: Pred,
    pub op: MapOp,
}

impl FilterMapPushSurfaceReversed {
    pub fn new(next: PushSurfaceReversed, pred: Pred, op: MapOp) -> (s:
        FilterMapPushSurfaceReversed)
        ensures
            *s.next == next,
            s.pred == pred,
            s.op == op,
    {
        FilterMapPushSurfaceReversed { next: Box::new(next), pred, op }
    }
}

/// A push chain under tail-first assembly: the part of the chain from
/// some point down to the terminal, realization deferred.
pub enum PushSurfaceReversed {
    Handoff(HandoffPushSurfaceReversed),
    FilterMap(FilterMapPushSurfaceReversed),
}

impl PushSurfaceReversed {
    /// The stages of the composed part, in the order an item meets them.
    pub open spec fn stages(&self) -> Seq<Stage>
        decreases self,
    {
        match self {
            PushSurfaceReversed::Handoff(_) => Seq::empty(),
            PushSurfaceReversed::FilterMap(f) => seq![Stage::FilterMap(f.pred, f.op)] + (
            *f.next).stages(),
        }
    }

    /// The handoff the finished chain will feed.
    pub open spec fn out_hof(&self) -> int
        decreases self,
    {
        match self {
            PushSurfaceReversed::Handoff(h) => h.port.hof_id(),
            PushSurfaceReversed::FilterMap(f) => (*f.next).out_hof(),
        }
    }

    /// Unwind the deferred composition into the concrete build chain:
    /// the second pass of the tail-first construction.
    pub fn into_build(self) -> (b: PushBuild)
        ensures
            b.stages() == self.stages(),
            !b.is_collecting(),
            b.out_hof() == self.out_hof(),
        decreases self,
    {
        match self {
            PushSurfaceReversed::Handoff(h) => PushBuild::Handoff(HandoffPushBuild::new(h.port)),
            PushSurfaceReversed::FilterMap(f) => {
                let inner = (*f.next).into_build();
                PushBuild::FilterMap(FilterMapPushBuild::new(inner, f.pred, f.op))
            },
        }
    }

    /// Decompose into the send port fed and the ordered stage list: the
    /// concrete form the graph registers.
    pub fn into_parts(self) -> (r: (SendPort, Vec<Stage>))
        ensures
            r.0.hof_id() == self.out_hof(),
            r.1@ == self.stages(),
        decreases self,
    {
        match self {
            PushSurfaceReversed::Handoff(h) => {
                let stages: Vec<Stage> = Vec::new();
                assert(stages@ =~= self.stages());
                (h.port, stages)
            },
            PushSurfaceReversed::FilterMap(f) => {
                let (p, ss) = (*f.next).into_parts();
                let mut out: Vec<Stage> = Vec::new();
                out.push(Stage::FilterMap(f.pred, f.op));
                let mut rest = ss;
                out.append(&mut rest);
                assert(out@ =~= seq![Stage::FilterMap(f.pred, f.op)] + (*f.next).stages());
                (p, out)
            },
        }
    }
}

} // verus!
