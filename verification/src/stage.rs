//! Transformation stages and their reference semantics.
//!
//! A chain of [`Stage`] values is the compiled form of an operator
//! pipeline: each stage turns one input item into zero or more output
//! items.  The spec functions here are the reference semantics that the
//! pull and push realizations, and the scheduler, are proved against.

use vstd::prelude::*;

verus! {

/// A predicate applied by filter and filter-map stages.
#[derive(Clone, Copy, PartialEq, Eq, Structural, Debug)]
pub enum Pred {
    /// Holds when the item is even.
    IsEven,
    /// Holds when the item is odd.
    IsOdd,
    /// Holds when the item is strictly below the bound.
    LessThan(i64),
    /// Holds when the item is at least the bound.
    AtLeast(i64),
}

/// A transformation applied by map and filter-map stages.
///
/// Arithmetic saturates at the ends of the `i64` range, so a map stage is
/// total: every input item produces exactly one output item.
#[derive(Clone, Copy, PartialEq, Eq, Structural, Debug)]
pub enum MapOp {
    /// Add a constant, saturating.
    Plus(i64),
    /// Multiply by a constant, saturating.
    Times(i64),
    /// Negate, saturating (the minimum maps to the maximum).
    Negate,
}

/// An expansion applied by flatten stages: one input item becomes zero or
/// more output items.
#[derive(Clone, Copy, PartialEq, Eq, Structural, Debug)]
pub enum ExpandOp {
    /// Emit the item this many times (zero drops it).
    Repeat(u8),
}

/// One stage of an operator chain.
#[derive(Clone, Copy, PartialEq, Eq, Structural, Debug)]
pub enum Stage {
    /// Forward only the items for which the predicate holds.
    Filter(Pred),
    /// Forward the transformed item when the predicate holds, drop otherwise.
    FilterMap(Pred, MapOp),
    /// The map stage: transform every item.
    Transform(MapOp),
    /// Expand each item into zero or more items, order preserved.
    Flatten(ExpandOp),
}

pub open spec fn pred_spec(p: Pred, x: i64) -> bool {
    match p {
        Pred::IsEven => (x as int) % 2 == 0,
        Pred::IsOdd => (x as int) % 2 != 0,
        Pred::LessThan(k) => x < k,
        Pred::AtLeast(k) => x >= k,
    }
}

/// Clamp a mathematical integer into the `i64` range.
pub open spec fn clamp_spec(v: int) -> i64 {
    if v > i64::MAX as int {
        i64::MAX
    } else if v < i64::MIN as int {
        i64::MIN
    } else {
        v as i64
    }
}

pub open spec fn map_spec(op: MapOp, x: i64) -> i64 {
    match op {
        MapOp::Plus(k) => clamp_spec(x as int + k as int),
        MapOp::Times(k) => clamp_spec(x as int * k as int),
        MapOp::Negate => clamp_spec(-(x as int)),
    }
}

pub open spec fn expand_spec(op: ExpandOp, x: i64) -> Seq<i64> {
    match op {
        ExpandOp::Repeat(n) => Seq::new(n as nat, |i: int| x),
    }
}

/// The items a single stage emits for one input item.
pub open spec fn stage_one(s: Stage, x: i64) -> Seq<i64> {
    match s {
        Stage::Filter(p) => if pred_spec(p, x) {
            seq![x]
        } else {
            Seq::empty()
        },
        Stage::FilterMap(p, m) => if pred_spec(p, x) {
            seq![map_spec(m, x)]
        } else {
            Seq::empty()
        },
        Stage::Transform(m) => seq![map_spec(m, x)],
        Stage::Flatten(e) => expand_spec(e, x),
    }
}

/// The reference semantics of one stage over a whole input sequence.
pub open spec fn apply_stage(s: Stage, xs: Seq<i64>) -> Seq<i64>
    decreases xs.len(),
{
    if xs.len() == 0 {
        Seq::empty()
    } else {
        stage_one(s, xs[0]) + apply_stage(s, xs.drop_first())
    }
}

/// The reference semantics of a whole chain: the stages applied in order.
pub open spec fn apply_stages(ss: Seq<Stage>, xs: Seq<i64>) -> Seq<i64>
    decreases ss.len(),
{
    if ss.len() == 0 {
        xs
    } else {
        apply_stages(ss.drop_first(), apply_stage(ss[0], xs))
    }
}

/// One stage distributes over concatenation of its input.
pub proof fn lemma_apply_stage_concat(s: Stage, a: Seq<i64>, b: Seq<i64>)
    ensures
        apply_stage(s, a + b) == apply_stage(s, a) + apply_stage(s, b),
    decreases a.len(),
{
    if a.len() == 0 {
        assert(a + b =~= b);
        assert(apply_stage(s, a) + apply_stage(s, b) =~= apply_stage(s, b));
    } else {
        assert((a + b).len() > 0);
        assert((a + b)[0] == a[0]);
        assert((a + b).drop_first() =~= a.drop_first() + b);
        lemma_apply_stage_concat(s, a.drop_first(), b);
        assert(stage_one(s, a[0]) + (apply_stage(s, a.drop_first()) + apply_stage(s, b)) =~= (
        stage_one(s, a[0]) + apply_stage(s, a.drop_first())) + apply_stage(s, b));
    }
}

/// A chain applied to a concatenation is the concatenation of the chain
/// applied to each part: a finite composition of filter/map/flatten stages
/// acts independently on each input item, in order.
pub proof fn lemma_apply_stages_concat(ss: Seq<Stage>, a: Seq<i64>, b: Seq<i64>)
    ensures
        apply_stages(ss, a + b) == apply_stages(ss, a) + apply_stages(ss, b),
    decreases ss.len(),
{
    if ss.len() == 0 {
    } else {
        lemma_apply_stage_concat(ss[0], a, b);
        lemma_apply_stages_concat(ss.drop_first(), apply_stage(ss[0], a), apply_stage(ss[0], b));
    }
}

/// A chain emits nothing from an empty input.
pub proof fn lemma_apply_stages_empty(ss: Seq<Stage>)
    ensures
        apply_stages(ss, Seq::empty()) == Seq::<i64>::empty(),
    decreases ss.len(),
{
    if ss.len() == 0 {
    } else {
        assert(apply_stage(ss[0], Seq::empty()) =~= Seq::<i64>::empty());
        lemma_apply_stages_empty(ss.drop_first());
    }
}

/// A stage applied to a single item emits what the stage emits for it.
pub proof fn lemma_apply_stage_one(s: Stage, x: i64)
    ensures
        apply_stage(s, seq![x]) == stage_one(s, x),
{
    assert(seq![x].drop_first() =~= Seq::<i64>::empty());
    assert(apply_stage(s, Seq::<i64>::empty()) == Seq::<i64>::empty());
    assert(apply_stage(s, seq![x]) == stage_one(s, x) + Seq::<i64>::empty());
    assert(stage_one(s, x) + Seq::<i64>::empty() =~= stage_one(s, x));
}

/// Appending a stage to a chain post-composes it.
pub proof fn lemma_apply_stages_snoc(ss: Seq<Stage>, s: Stage, xs: Seq<i64>)
    ensures
        apply_stages(ss.push(s), xs) == apply_stage(s, apply_stages(ss, xs)),
    decreases ss.len(),
{
    let t = ss.push(s);
    if ss.len() == 0 {
        assert(t.drop_first() =~= Seq::<Stage>::empty());
        assert(t[0] == s);
        assert(apply_stages(t, xs) == apply_stages(t.drop_first(), apply_stage(s, xs)));
        assert(apply_stages(Seq::<Stage>::empty(), apply_stage(s, xs)) == apply_stage(s, xs));
        assert(apply_stages(ss, xs) == xs);
    } else {
        assert(t.drop_first() =~= ss.drop_first().push(s));
        assert(t[0] == ss[0]);
        assert(apply_stages(t, xs) == apply_stages(
            ss.drop_first().push(s),
            apply_stage(ss[0], xs),
        ));
        lemma_apply_stages_snoc(ss.drop_first(), s, apply_stage(ss[0], xs));
        assert(apply_stages(ss, xs) == apply_stages(ss.drop_first(), apply_stage(ss[0], xs)));
    }
}

pub fn eval_pred(p: &Pred, x: i64) -> (r: bool)
    ensures
        r == pred_spec(*p, x),
{
    match p {
        Pred::IsEven => x % 2 == 0,
        Pred::IsOdd => x % 2 != 0,
        Pred::LessThan(k) => x < *k,
        Pred::AtLeast(k) => x >= *k,
    }
}

fn clamp(v: i128) -> (r: i64)
    ensures
        r == clamp_spec(v as int),
{
    if v > i64::MAX as i128 {
        i64::MAX
    } else if v < i64::MIN as i128 {
        i64::MIN
    } else {
        v as i64
    }
}

pub fn eval_map(op: &MapOp, x: i64) -> (r: i64)
    ensures
        r == map_spec(*op, x),
{
    match op {
        MapOp::Plus(k) => clamp(x as i128 + *k as i128),
        MapOp::Times(k) => {
            let a: i128 = x as i128;
            let b: i128 = *k as i128;
            assert(i128::MIN as int <= a as int * b as int <= i128::MAX as int)
                by (nonlinear_arith)
                requires
                    -0x8000_0000_0000_0000 <= a as int <= 0x7fff_ffff_ffff_ffff,
                    -0x8000_0000_0000_0000 <= b as int <= 0x7fff_ffff_ffff_ffff,
            ;
            clamp(a * b)
        },
        MapOp::Negate => clamp(-(x as i128)),
    }
}

pub fn eval_expand(op: &ExpandOp, x: i64) -> (r: Vec<i64>)
    ensures
        r@ == expand_spec(*op, x),
{
    match op {
        ExpandOp::Repeat(n) => {
            let mut out: Vec<i64> = Vec::new();
            let mut i: u8 = 0;
            while i < *n
                invariant
                    i <= *n,
                    out@ =~= Seq::new(i as nat, |j: int| x),
                decreases *n - i,
            {
                out.push(x);
                i = i + 1;
            }
            assert(out@ =~= expand_spec(*op, x));
            out
        },
    }
}

/// The items one stage emits for one input item.
pub fn emit_one(s: &Stage, x: i64) -> (out: Vec<i64>)
    ensures
        out@ == stage_one(*s, x),
{
    match s {
        Stage::Filter(p) => {
            let mut out: Vec<i64> = Vec::new();
            if eval_pred(p, x) {
                out.push(x);
            }
            assert(out@ =~= stage_one(*s, x));
            out
        },
        Stage::FilterMap(p, m) => {
            let mut out: Vec<i64> = Vec::new();
            if eval_pred(p, x) {
                out.push(eval_map(m, x));
            }
            assert(out@ =~= stage_one(*s, x));
            out
        },
        Stage::Transform(m) => {
            let mut out: Vec<i64> = Vec::new();
            out.push(eval_map(m, x));
            assert(out@ =~= stage_one(*s, x));
            out
        },
        Stage::Flatten(e) => eval_expand(e, x),
    }
}

/// One stage applied eagerly to a whole input buffer.
pub fn run_stage(s: &Stage, xs: &Vec<i64>) -> (out: Vec<i64>)
    ensures
        out@ == apply_stage(*s, xs@),
{
    let mut out: Vec<i64> = Vec::new();
    let mut i: usize = 0;
    while i < xs.len()
        invariant
            i <= xs.len(),
            out@ == apply_stage(*s, xs@.take(i as int)),
        decreases xs.len() - i,
    {
        let mut emitted = emit_one(s, xs[i]);
        proof {
            assert(xs@.take(i + 1 as int) =~= xs@.take(i as int) + seq![xs@[i as int]]);
            lemma_apply_stage_concat(*s, xs@.take(i as int), seq![xs@[i as int]]);
            lemma_apply_stage_one(*s, xs@[i as int]);
        }
        out.append(&mut emitted);
        i = i + 1;
    }
    proof {
        assert(xs@.take(xs@.len() as int) =~= xs@);
    }
    out
}

/// A whole chain applied eagerly to an input buffer: the reference
/// application of the stages, in order.
pub fn run_stages(ss: &Vec<Stage>, xs: Vec<i64>) -> (out: Vec<i64>)
    ensures
        out@ == apply_stages(ss@, xs@),
{
    let ghost input = xs@;
    let mut cur = xs;
    let mut i: usize = 0;
    while i < ss.len()
        invariant
            i <= ss.len(),
            cur@ == apply_stages(ss@.take(i as int), input),
        decreases ss.len() - i,
    {
        cur = run_stage(&ss[i], &cur);
        proof {
            assert(ss@.take(i + 1 as int) =~= ss@.take(i as int).push(ss@[i as int]));
            lemma_apply_stages_snoc(ss@.take(i as int), ss@[i as int], input);
        }
        i = i + 1;
    }
    proof {
        assert(ss@.take(ss@.len() as int) =~= ss@);
    }
    cur
}

/// A whole chain applied to a single item.
pub fn run_stages_one(ss: &Vec<Stage>, x: i64) -> (out: Vec<i64>)
    ensures
        out@ == apply_stages(ss@, seq![x]),
{
    let mut v: Vec<i64> = Vec::new();
    v.push(x);
    assert(v@ =~= seq![x]);
    run_stages(ss, v)
}

} // verus!
