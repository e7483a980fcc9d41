//! Push chains: eagerly evaluated operator sequences.
//!
//! A push chain accepts one item at a time and threads it through
//! filter, filter-map, map and flatten nodes until it reaches the
//! terminal node: either a collecting for-each sink or a handoff send
//! port.  Each node knows what consumes its output, so the chain is
//! assembled tail-first; the surface layer resolves the head-first
//! user order (see `surface`).

use vstd::prelude::*;

use crate::handoff::SendPort;
use crate::stage::{
    apply_stages, eval_expand, eval_pred, lemma_apply_stage_one, lemma_apply_stages_concat,
    lemma_apply_stages_empty, ExpandOp, MapOp, Pred, Stage,
};

verus! {

/// The terminal collecting sink of a push chain.  It stands where the
/// original pipeline would call a per-item consumer; everything pushed
/// into it is kept, in arrival order, until taken.
pub struct ForEachPushBuild {
    pub collected: Vec<i64>,
}

impl ForEachPushBuild {
    pub fn new() -> (b: ForEachPushBuild)
        ensures
            b.collected@ == Seq::<i64>::empty(),
    {
        ForEachPushBuild { collected: Vec::new() }
    }
}

/// The terminal node that hands items to a handoff send port; used when
/// a push chain is wired into the graph.
pub struct HandoffPushBuild {
    pub port: SendPort,
}

impl HandoffPushBuild {
    pub fn new(port: SendPort) -> (b: HandoffPushBuild)
        ensures
            b.port.hof_id() == port.hof_id(),
    {
        HandoffPushBuild { port }
    }
}

/// A filter node: stops propagation of items the predicate rejects.
pub struct FilterPushBuild {
    pub next: Box<PushBuild>,
    pub pred: Pred,
}

impl FilterPushBuild {
    pub fn new(next: PushBuild, pred: Pred) -> (b: FilterPushBuild)
        ensures
            *b.next == next,
            b.pred == pred,
    {
        FilterPushBuild { next: Box::new(next), pred }
    }
}

/// A filter-map node: forwards the transformed item only when the
/// predicate holds, drops the item otherwise.
pub struct FilterMapPushBuild {
    pub next: Box<PushBuild>,
    pub pred: Pred,
    pub op: MapOp,
}

impl FilterMapPushBuild {
    pub fn new(next: PushBuild, pred: Pred, op: MapOp) -> (b: FilterMapPushBuild)
        ensures
            *b.next == next,
            b.pred == pred,
            b.op == op,
    {
        FilterMapPushBuild { next: Box::new(next), pred, op }
    }
}

/// A map node: transforms every item unconditionally.
pub struct MapPushBuild {
    pub next: Box<PushBuild>,
    pub op: MapOp,
}

impl MapPushBuild {
    pub fn new(next: PushBuild, op: MapOp) -> (b: MapPushBuild)
        ensures
            *b.next == next,
            b.op == op,
    {
        MapPushBuild { next: Box::new(next), op }
    }
}

/// A flatten node: re-emits zero or more items per input, in order.
pub struct FlattenPushBuild {
    pub next: Box<PushBuild>,
    pub op: ExpandOp,
}

impl FlattenPushBuild {
    pub fn new(next: PushBuild, op: ExpandOp) -> (b: FlattenPushBuild)
        ensures
            *b.next == next,
            b.op == op,
    {
        FlattenPushBuild { next: Box::new(next), op }
    }
}

/// A whole push chain, from its first transformation down to its
/// terminal node.
pub enum PushBuild {
    ForEach(ForEachPushBuild),
    Handoff(HandoffPushBuild),
    Filter(FilterPushBuild),
    FilterMap(FilterMapPushBuild),
    Transform(MapPushBuild),
    Flatten(FlattenPushBuild),
}

impl PushBuild {
    /// The stages of this chain in the order an item meets them.
    pub open spec fn stages(&self) -> Seq<Stage>
        decreases self,
    {
        match self {
            PushBuild::ForEach(_) => Seq::empty(),
            PushBuild::Handoff(_) => Seq::empty(),
            PushBuild::Filter(f) => seq![Stage::Filter(f.pred)] + (*f.next).stages(),
            PushBuild::FilterMap(f) => seq![Stage::FilterMap(f.pred, f.op)] + (*f.next).stages(),
            PushBuild::Transform(f) => seq![Stage::Transform(f.op)] + (*f.next).stages(),
            PushBuild::Flatten(f) => seq![Stage::Flatten(f.op)] + (*f.next).stages(),
        }
    }

    /// The number of transformation nodes above the terminal; the
    /// recursion measure for the chain walkers.
    pub open spec fn depth(&self) -> nat
        decreases self,
    {
        match self {
            PushBuild::ForEach(_) => 0,
            PushBuild::Handoff(_) => 0,
            PushBuild::Filter(f) => 1 + (*f.next).depth(),
            PushBuild::FilterMap(f) => 1 + (*f.next).depth(),
            PushBuild::Transform(f) => 1 + (*f.next).depth(),
            PushBuild::Flatten(f) => 1 + (*f.next).depth(),
        }
    }

    /// Whether the chain ends in the collecting for-each sink.
    pub open spec fn is_collecting(&self) -> bool
        decreases self,
    {
        match self {
            PushBuild::ForEach(_) => true,
            PushBuild::Handoff(_) => false,
            PushBuild::Filter(f) => (*f.next).is_collecting(),
            PushBuild::FilterMap(f) => (*f.next).is_collecting(),
            PushBuild::Transform(f) => (*f.next).is_collecting(),
            PushBuild::Flatten(f) => (*f.next).is_collecting(),
        }
    }

    /// What the collecting sink has observed so far.
    pub open spec fn collected(&self) -> Seq<i64>
        decreases self,
    {
        match self {
            PushBuild::ForEach(t) => t.collected@,
            PushBuild::Handoff(_) => Seq::empty(),
            PushBuild::Filter(f) => (*f.next).collected(),
            PushBuild::FilterMap(f) => (*f.next).collected(),
            PushBuild::Transform(f) => (*f.next).collected(),
            PushBuild::Flatten(f) => (*f.next).collected(),
        }
    }

    /// The handoff the terminal send node writes, when there is one.
    pub open spec fn out_hof(&self) -> int
        decreases self,
    {
        match self {
            PushBuild::ForEach(_) => -1,
            PushBuild::Handoff(h) => h.port.hof_id(),
            PushBuild::Filter(f) => (*f.next).out_hof(),
            PushBuild::FilterMap(f) => (*f.next).out_hof(),
            PushBuild::Transform(f) => (*f.next).out_hof(),
            PushBuild::Flatten(f) => (*f.next).out_hof(),
        }
    }

    /// Offer one item to the chain.  The item threads through every
    /// stage; the collecting sink observes exactly the reference
    /// filter/filter-map/map/flatten semantics of the chain for it —
    /// each offered item zero or one times per filtering decision, and
    /// in order for expanding stages.
    pub fn give(&mut self, x: i64)
        requires
            old(self).is_collecting(),
        ensures
            final(self).stages() == old(self).stages(),
            final(self).depth() == old(self).depth(),
            final(self).is_collecting(),
            final(self).collected() == old(self).collected() + apply_stages(
                old(self).stages(),
                seq![x],
            ),
    {
        let mut tmp = PushBuild::ForEach(ForEachPushBuild::new());
        core::mem::swap(self, &mut tmp);
        let mut fed = tmp.give_owned(x);
        core::mem::swap(self, &mut fed);
    }

    fn give_owned(self, x: i64) -> (r: PushBuild)
        requires
            self.is_collecting(),
        ensures
            r.stages() == self.stages(),
            r.depth() == self.depth(),
            r.is_collecting(),
            r.collected() == self.collected() + apply_stages(self.stages(), seq![x]),
        decreases self.depth(),
    {
        let ghost pre = self;
        match self {
            PushBuild::ForEach(t) => {
                let mut sink = t;
                sink.collected.push(x);
                proof {
                    assert(apply_stages(pre.stages(), seq![x]) == seq![x]);
                    assert(pre.collected().push(x) =~= pre.collected() + seq![x]);
                }
                PushBuild::ForEach(sink)
            },
            PushBuild::Handoff(h) => PushBuild::Handoff(h),
            PushBuild::Filter(f) => {
                let FilterPushBuild { next, pred } = f;
                let forward = eval_pred(&pred, x);
                proof {
                    lemma_apply_stage_one(Stage::Filter(pred), x);
                    assert((seq![Stage::Filter(pred)] + (*next).stages()).drop_first() =~= (
                    *next).stages());
                }
                if forward {
                    let fed = (*next).give_owned(x);
                    PushBuild::Filter(FilterPushBuild { next: Box::new(fed), pred })
                } else {
                    proof {
                        lemma_apply_stages_empty((*next).stages());
                        assert(pre.collected() + apply_stages(pre.stages(), seq![x]) =~= pre
                            .collected());
                    }
                    PushBuild::Filter(FilterPushBuild { next, pred })
                }
            },
            PushBuild::FilterMap(f) => {
                let FilterMapPushBuild { next, pred, op } = f;
                let forward = eval_pred(&pred, x);
                proof {
                    lemma_apply_stage_one(Stage::FilterMap(pred, op), x);
                    assert((seq![Stage::FilterMap(pred, op)] + (*next).stages()).drop_first() =~= (
                    *next).stages());
                }
                if forward {
                    let y = crate::stage::eval_map(&op, x);
                    let fed = (*next).give_owned(y);
                    PushBuild::FilterMap(FilterMapPushBuild { next: Box::new(fed), pred, op })
                } else {
                    proof {
                        lemma_apply_stages_empty((*next).stages());
                        assert(pre.collected() + apply_stages(pre.stages(), seq![x]) =~= pre
                            .collected());
                    }
                    PushBuild::FilterMap(FilterMapPushBuild { next, pred, op })
                }
            },
            PushBuild::Transform(f) => {
                let MapPushBuild { next, op } = f;
                proof {
                    lemma_apply_stage_one(Stage::Transform(op), x);
                    assert((seq![Stage::Transform(op)] + (*next).stages()).drop_first() =~= (
                    *next).stages());
                }
                let y = crate::stage::eval_map(&op, x);
                let fed = (*next).give_owned(y);
                PushBuild::Transform(MapPushBuild { next: Box::new(fed), op })
            },
            PushBuild::Flatten(f) => {
                let FlattenPushBuild { next, op } = f;
                proof {
                    lemma_apply_stage_one(Stage::Flatten(op), x);
                    assert((seq![Stage::Flatten(op)] + (*next).stages()).drop_first() =~= (
                    *next).stages());
                }
                let items = eval_expand(&op, x);
                let ghost base = (*next).collected();
                let ghost rest = (*next).stages();
                let ghost d = (*next).depth();
                proof {
                    assert(items@.take(0) =~= Seq::<i64>::empty());
                    lemma_apply_stages_empty(rest);
                    assert(base + apply_stages(rest, items@.take(0)) =~= base);
                }
                let mut cur = next;
                let mut i: usize = 0;
                #[verifier::loop_isolation(false)]
                while i < items.len()
                    invariant
                        i <= items@.len(),
                        (*cur).is_collecting(),
                        (*cur).depth() == d,
                        d < pre.depth(),
                        (*cur).stages() == rest,
                        (*cur).collected() == base + apply_stages(rest, items@.take(i as int)),
                    decreases items@.len() - i,
                {
                    proof {
                        assert(items@.take(i + 1 as int) =~= items@.take(i as int) + seq![
                            items@[i as int],
                        ]);
                        lemma_apply_stages_concat(rest, items@.take(i as int), seq![
                            items@[i as int],
                        ]);
                    }
                    let fed = (*cur).give_owned(items[i]);
                    cur = Box::new(fed);
                    i = i + 1;
                }
                proof {
                    assert(items@.take(items@.len() as int) =~= items@);
                    assert(apply_stages(pre.stages(), seq![x]) == apply_stages(rest, items@));
                }
                PushBuild::Flatten(FlattenPushBuild { next: cur, op })
            },
        }
    }

    /// Offer a whole batch, item by item, in order.
    pub fn give_all(&mut self, xs: &Vec<i64>)
        requires
            old(self).is_collecting(),
        ensures
            final(self).stages() == old(self).stages(),
            final(self).is_collecting(),
            final(self).collected() == old(self).collected() + apply_stages(
                old(self).stages(),
                xs@,
            ),
    {
        proof {
            assert(xs@.take(0) =~= Seq::<i64>::empty());
            lemma_apply_stages_empty(old(self).stages());
            assert(old(self).collected() + apply_stages(old(self).stages(), xs@.take(0)) =~= old(
                self,
            ).collected());
        }
        let mut i: usize = 0;
        while i < xs.len()
            invariant
                i <= xs@.len(),
                self.is_collecting(),
                self.stages() == old(self).stages(),
                self.collected() == old(self).collected() + apply_stages(
                    self.stages(),
                    xs@.take(i as int),
                ),
            decreases xs@.len() - i,
        {
            proof {
                assert(xs@.take(i + 1 as int) =~= xs@.take(i as int) + seq![xs@[i as int]]);
                lemma_apply_stages_concat(self.stages(), xs@.take(i as int), seq![xs@[i as int]]);
            }
            self.give(xs[i]);
            i = i + 1;
        }
        proof {
            assert(xs@.take(xs@.len() as int) =~= xs@);
        }
    }

    /// Take everything the collecting sink has observed, leaving it
    /// empty.
    pub fn take_collected(&mut self) -> (out: Vec<i64>)
        ensures
            final(self).stages() == old(self).stages(),
            final(self).depth() == old(self).depth(),
            final(self).is_collecting() == old(self).is_collecting(),
            out@ == old(self).collected(),
            final(self).collected() == Seq::<i64>::empty(),
    {
        let mut tmp = PushBuild::ForEach(ForEachPushBuild::new());
        core::mem::swap(self, &mut tmp);
        let (chain, out) = tmp.take_owned();
        let mut chain = chain;
        core::mem::swap(self, &mut chain);
        out
    }

    fn take_owned(self) -> (r: (PushBuild, Vec<i64>))
        ensures
            r.0.stages() == self.stages(),
            r.0.depth() == self.depth(),
            r.0.is_collecting() == self.is_collecting(),
            r.1@ == self.collected(),
            r.0.collected() == Seq::<i64>::empty(),
        decreases self.depth(),
    {
        match self {
            PushBuild::ForEach(t) => {
                let mut sink = t;
                let mut out: Vec<i64> = Vec::new();
                out.append(&mut sink.collected);
                (PushBuild::ForEach(sink), out)
            },
            PushBuild::Handoff(h) => (PushBuild::Handoff(h), Vec::new()),
            PushBuild::Filter(f) => {
                let FilterPushBuild { next, pred } = f;
                let (inner, out) = (*next).take_owned();
                (PushBuild::Filter(FilterPushBuild { next: Box::new(inner), pred }), out)
            },
            PushBuild::FilterMap(f) => {
                let FilterMapPushBuild { next, pred, op } = f;
                let (inner, out) = (*next).take_owned();
                (PushBuild::FilterMap(FilterMapPushBuild { next: Box::new(inner), pred, op }), out)
            },
            PushBuild::Transform(f) => {
                let MapPushBuild { next, op } = f;
                let (inner, out) = (*next).take_owned();
                (PushBuild::Transform(MapPushBuild { next: Box::new(inner), op }), out)
            },
            PushBuild::Flatten(f) => {
                let FlattenPushBuild { next, op } = f;
                let (inner, out) = (*next).take_owned();
                (PushBuild::Flatten(FlattenPushBuild { next: Box::new(inner), op }), out)
            },
        }
    }

    /// Decompose the chain into its terminal send port (when the chain
    /// ends in a handoff) and its ordered stage list: the concrete form
    /// the graph registers.
    pub fn into_parts(self) -> (r: (Option<SendPort>, Vec<Stage>))
        ensures
            r.1@ == self.stages(),
            match r.0 {
                Some(p) => !self.is_collecting() && p.hof_id() == self.out_hof(),
                None => self.is_collecting(),
            },
        decreases self,
    {
        match self {
            PushBuild::ForEach(_) => (None, Vec::new()),
            PushBuild::Handoff(h) => (Some(h.port), Vec::new()),
            PushBuild::Filter(f) => {
                let (p, ss) = (*f.next).into_parts();
                let mut out: Vec<Stage> = Vec::new();
                out.push(Stage::Filter(f.pred));
                let mut rest = ss;
                out.append(&mut rest);
                assert(out@ =~= seq![Stage::Filter(f.pred)] + (*f.next).stages());
                (p, out)
            },
            PushBuild::FilterMap(f) => {
                let (p, ss) = (*f.next).into_parts();
                let mut out: Vec<Stage> = Vec::new();
                out.push(Stage::FilterMap(f.pred, f.op));
                let mut rest = ss;
                out.append(&mut rest);
                assert(out@ =~= seq![Stage::FilterMap(f.pred, f.op)] + (*f.next).stages());
                (p, out)
            },
            PushBuild::Transform(f) => {
                let (p, ss) = (*f.next).into_parts();
                let mut out: Vec<Stage> = Vec::new();
                out.push(Stage::Transform(f.op));
                let mut rest = ss;
                out.append(&mut rest);
                assert(out@ =~= seq![Stage::Transform(f.op)] + (*f.next).stages());
                (p, out)
            },
            PushBuild::Flatten(f) => {
                let (p, ss) = (*f.next).into_parts();
                let mut out: Vec<Stage> = Vec::new();
                out.push(Stage::Flatten(f.op));
                let mut rest = ss;
                out.append(&mut rest);
                assert(out@ =~= seq![Stage::Flatten(f.op)] + (*f.next).stages());
                (p, out)
            },
        }
    }
}

} // verus!
