//! Pull chains: lazily evaluated operator sequences.
//!
//! A pull chain is described by build nodes (source, filter, filter-map,
//! map, flatten) assembled once at graph-build time, and realized per
//! invocation as a [`PullCursor`], a lazy sequence that pulls items on
//! demand from a drained input batch.  The cursor is proved to yield
//! exactly the reference application of the chain's stages.

use vstd::prelude::*;

use crate::handoff::RecvPort;
use crate::stage::{
    apply_stages, lemma_apply_stages_concat, lemma_apply_stages_empty, run_stages_one, ExpandOp,
    MapOp, Pred, Stage,
};

verus! {

/// The source end of a pull chain: the items drained from one handoff
/// reader.
pub struct HandoffPullBuild {
    pub port: RecvPort,
}

impl HandoffPullBuild {
    pub fn new(port: RecvPort) -> (b: HandoffPullBuild)
        ensures
            b.port.hof_id() == port.hof_id(),
            b.port.reader_id() == port.reader_id(),
    {
        HandoffPullBuild { port }
    }
}

/// A filter node: forwards only the upstream items for which the
/// predicate holds; rejected items are dropped with no side channel.
pub struct FilterPullBuild {
    pub prev: Box<PullBuild>,
    pub pred: Pred,
}

impl FilterPullBuild {
    pub fn new(prev: PullBuild, pred: Pred) -> (b: FilterPullBuild)
        ensures
            *b.prev == prev,
            b.pred == pred,
    {
        FilterPullBuild { prev: Box::new(prev), pred }
    }
}

/// A filter-map node: forwards the transformed item when the predicate
/// holds, drops the item otherwise.
pub struct FilterMapPullBuild {
    pub prev: Box<PullBuild>,
    pub pred: Pred,
    pub op: MapOp,
}

impl FilterMapPullBuild {
    pub fn new(prev: PullBuild, pred: Pred, op: MapOp) -> (b: FilterMapPullBuild)
        ensures
            *b.prev == prev,
            b.pred == pred,
            b.op == op,
    {
        FilterMapPullBuild { prev: Box::new(prev), pred, op }
    }
}

/// A map node: transforms every upstream item.
pub struct MapPullBuild {
    pub prev: Box<PullBuild>,
    pub op: MapOp,
}

impl MapPullBuild {
    pub fn new(prev: PullBuild, op: MapOp) -> (b: MapPullBuild)
        ensures
            *b.prev == prev,
            b.op == op,
    {
        MapPullBuild { prev: Box::new(prev), op }
    }
}

/// A flatten node: expands each upstream item into zero or more items,
/// preserving the relative order of the outer items.
pub struct FlattenPullBuild {
    pub prev: Box<PullBuild>,
    pub op: ExpandOp,
}

impl FlattenPullBuild {
    pub fn new(prev: PullBuild, op: ExpandOp) -> (b: FlattenPullBuild)
        ensures
            *b.prev == prev,
            b.op == op,
    {
        FlattenPullBuild { prev: Box::new(prev), op }
    }
}

/// A whole pull chain: one source node followed by transformation nodes.
pub enum PullBuild {
    Source(HandoffPullBuild),
    Filter(FilterPullBuild),
    FilterMap(FilterMapPullBuild),
    Transform(MapPullBuild),
    Flatten(FlattenPullBuild),
}

impl PullBuild {
    /// The stages of this chain, source first.
    pub open spec fn stages(&self) -> Seq<Stage>
        decreases self,
    {
        match self {
            PullBuild::Source(_) => Seq::empty(),
            PullBuild::Filter(f) => (*f.prev).stages().push(Stage::Filter(f.pred)),
            PullBuild::FilterMap(f) => (*f.prev).stages().push(Stage::FilterMap(f.pred, f.op)),
            PullBuild::Transform(f) => (*f.prev).stages().push(Stage::Transform(f.op)),
            PullBuild::Flatten(f) => (*f.prev).stages().push(Stage::Flatten(f.op)),
        }
    }

    /// The handoff index the chain's source drains.
    pub open spec fn src_hof(&self) -> int
        decreases self,
    {
        match self {
            PullBuild::Source(h) => h.port.hof_id(),
            PullBuild::Filter(f) => (*f.prev).src_hof(),
            PullBuild::FilterMap(f) => (*f.prev).src_hof(),
            PullBuild::Transform(f) => (*f.prev).src_hof(),
            PullBuild::Flatten(f) => (*f.prev).src_hof(),
        }
    }

    /// The reader slot the chain's source drains.
    pub open spec fn src_reader(&self) -> int
        decreases self,
    {
        match self {
            PullBuild::Source(h) => h.port.reader_id(),
            PullBuild::Filter(f) => (*f.prev).src_reader(),
            PullBuild::FilterMap(f) => (*f.prev).src_reader(),
            PullBuild::Transform(f) => (*f.prev).src_reader(),
            PullBuild::Flatten(f) => (*f.prev).src_reader(),
        }
    }

    /// Decompose the chain into the receive port it drains and the
    /// ordered stage list it applies: the concrete form the graph
    /// registers.
    pub fn into_parts(self) -> (r: (RecvPort, Vec<Stage>))
        ensures
            r.0.hof_id() == self.src_hof(),
            r.0.reader_id() == self.src_reader(),
            r.1@ == self.stages(),
        decreases self,
    {
        match self {
            PullBuild::Source(h) => {
                let stages: Vec<Stage> = Vec::new();
                assert(stages@ =~= self.stages());
                (h.port, stages)
            },
            PullBuild::Filter(f) => {
                let (p, mut ss) = (*f.prev).into_parts();
                ss.push(Stage::Filter(f.pred));
                (p, ss)
            },
            PullBuild::FilterMap(f) => {
                let (p, mut ss) = (*f.prev).into_parts();
                ss.push(Stage::FilterMap(f.pred, f.op));
                (p, ss)
            },
            PullBuild::Transform(f) => {
                let (p, mut ss) = (*f.prev).into_parts();
                ss.push(Stage::Transform(f.op));
                (p, ss)
            },
            PullBuild::Flatten(f) => {
                let (p, mut ss) = (*f.prev).into_parts();
                ss.push(Stage::Flatten(f.op));
                (p, ss)
            },
        }
    }
}

/// The realization of a pull chain for one invocation: a lazy sequence
/// over a drained input batch.  Items are produced on demand; no stage
/// runs before the item that needs it is pulled.
pub struct PullCursor {
    pub stages: Vec<Stage>,
    pub input: Vec<i64>,
    pub pos: usize,
    pub pending: Vec<i64>,
    pub ppos: usize,
    pub emitted: Ghost<Seq<i64>>,
}

impl PullCursor {
    /// The full sequence this cursor will have yielded once exhausted.
    pub open spec fn total(&self) -> Seq<i64> {
        apply_stages(self.stages@, self.input@)
    }

    /// The cursor's internal consistency: what it has emitted, what is
    /// buffered, and what is still unpulled together form the reference
    /// application of the stages to the input.
    pub open spec fn wf(&self) -> bool {
        &&& self.pos <= self.input@.len()
        &&& self.ppos <= self.pending@.len()
        &&& self.emitted@ + self.pending@.skip(self.ppos as int) + apply_stages(
            self.stages@,
            self.input@.skip(self.pos as int),
        ) == self.total()
    }

    /// Start a lazy realization of `stages` over the batch `input`.
    pub fn new(stages: Vec<Stage>, input: Vec<i64>) -> (c: PullCursor)
        ensures
            c.wf(),
            c.stages@ == stages@,
            c.input@ == input@,
            c.emitted@ == Seq::<i64>::empty(),
    {
        let c = PullCursor {
            stages,
            input,
            pos: 0,
            pending: Vec::new(),
            ppos: 0,
            emitted: Ghost(Seq::empty()),
        };
        proof {
            assert(c.input@.skip(0) =~= c.input@);
            assert(c.emitted@ + c.pending@.skip(0) + apply_stages(c.stages@, c.input@) =~= c.total());
        }
        c
    }

    /// Pull the next item, if any.  Yields, one at a time and in order,
    /// exactly the elements of the reference application of the stages
    /// to the input batch.
    pub fn next(&mut self) -> (r: Option<i64>)
        requires
            old(self).wf(),
        ensures
            final(self).wf(),
            final(self).stages@ == old(self).stages@,
            final(self).input@ == old(self).input@,
            match r {
                Some(x) => final(self).emitted@ == old(self).emitted@.push(x),
                None => {
                    &&& final(self).emitted@ == old(self).emitted@
                    &&& old(self).emitted@ == old(self).total()
                },
            },
    {
        loop
            invariant
                self.wf(),
                self.stages@ == old(self).stages@,
                self.input@ == old(self).input@,
                self.emitted@ == old(self).emitted@,
            decreases self.input@.len() - self.pos,
        {
            if self.ppos < self.pending.len() {
                let x = self.pending[self.ppos];
                self.ppos = self.ppos + 1;
                proof {
                    self.emitted@ = self.emitted@.push(x);
                    assert(self.pending@.skip(self.ppos - 1 as int) =~= seq![x] + self.pending@.skip(
                        self.ppos as int,
                    ));
                    assert(self.emitted@ + self.pending@.skip(self.ppos as int) + apply_stages(
                        self.stages@,
                        self.input@.skip(self.pos as int),
                    ) =~= self.total());
                }
                return Some(x);
            }
            if self.pos == self.input.len() {
                proof {
                    assert(self.input@.skip(self.pos as int) =~= Seq::<i64>::empty());
                    lemma_apply_stages_empty(self.stages@);
                    assert(self.pending@.skip(self.ppos as int) =~= Seq::<i64>::empty());
                    assert(self.emitted@ =~= self.total());
                }
                return None;
            }
            proof {
                assert(self.pending@.skip(self.ppos as int) =~= Seq::<i64>::empty());
                assert(self.emitted@ + apply_stages(
                    self.stages@,
                    self.input@.skip(self.pos as int),
                ) =~= self.total());
            }
            let x = self.input[self.pos];
            let ghost oldpos = self.pos as int;
            self.pos = self.pos + 1;
            let fresh = run_stages_one(&self.stages, x);
            self.pending = fresh;
            self.ppos = 0;
            proof {
                assert(self.input@.skip(oldpos) =~= seq![x] + self.input@.skip(self.pos as int));
                lemma_apply_stages_concat(self.stages@, seq![x], self.input@.skip(self.pos as int));
                assert(self.pending@.skip(0) =~= self.pending@);
                assert(self.emitted@ + self.pending@.skip(self.ppos as int) + apply_stages(
                    self.stages@,
                    self.input@.skip(self.pos as int),
                ) =~= self.total());
            }
        }
    }

    /// Pull until exhaustion.  Starting from a fresh cursor this returns
    /// exactly the reference application of the chain's stages to the
    /// input, elements and order alike.
    pub fn drain_remaining(&mut self) -> (out: Vec<i64>)
        requires
            old(self).wf(),
        ensures
            final(self).wf(),
            old(self).emitted@ + out@ == old(self).total(),
            final(self).emitted@ == old(self).total(),
    {
        let mut out: Vec<i64> = Vec::new();
        proof {
            // The emitted part never outgrows the total.
            assert(self.emitted@.len() <= self.total().len());
        }
        loop
            invariant
                self.wf(),
                self.stages@ == old(self).stages@,
                self.input@ == old(self).input@,
                self.emitted@ == old(self).emitted@ + out@,
                self.total() == old(self).total(),
            decreases self.total().len() - self.emitted@.len(),
        {
            proof {
                assert(self.emitted@.len() <= self.total().len());
            }
            match self.next() {
                Some(x) => {
                    out.push(x);
                },
                None => {
                    return out;
                },
            }
        }
    }
}

} // verus!
