use hydroflow::push::{
    FilterMapPushBuild, FilterPushBuild, FlattenPushBuild, ForEachPushBuild, MapPushBuild,
    PushBuild,
};
use hydroflow::stage::{ExpandOp, MapOp, Pred, Stage};
use hydroflow::surface::{
    FilterMapPushSurfaceReversed, FilterMapSurface, HandoffPushSurfaceReversed,
    PushSurfaceReversed,
};

fn collecting_chain(stages: &[Stage]) -> PushBuild {
    let mut chain = PushBuild::ForEach(ForEachPushBuild::new());
    for s in stages.iter().rev() {
        chain = match *s {
            Stage::Filter(p) => PushBuild::Filter(FilterPushBuild::new(chain, p)),
            Stage::FilterMap(p, m) => {
                PushBuild::FilterMap(FilterMapPushBuild::new(chain, p, m))
            }
            Stage::Transform(m) => PushBuild::Transform(MapPushBuild::new(chain, m)),
            Stage::Flatten(e) => PushBuild::Flatten(FlattenPushBuild::new(chain, e)),
        };
    }
    chain
}

#[test]
fn push_chain_collects_reference_semantics() {
    // source 0..10 -> filter(even) -> map(double) -> collect.
    let mut chain = collecting_chain(&[
        Stage::Filter(Pred::IsEven),
        Stage::Transform(MapOp::Times(2)),
    ]);
    for x in 0..10 {
        chain.give(x);
    }
    assert_eq!(chain.take_collected(), vec![0, 4, 8, 12, 16]);
}

#[test]
fn push_chain_each_item_observed_at_most_once() {
    let mut chain = collecting_chain(&[Stage::FilterMap(Pred::IsOdd, MapOp::Plus(100))]);
    chain.give_all(&vec![1, 2, 3]);
    let seen = chain.take_collected();
    assert_eq!(seen, vec![101, 103]);
    // Nothing is observed twice: taking again yields nothing.
    assert_eq!(chain.take_collected(), Vec::<i64>::new());
}

#[test]
fn push_chain_flatten_emits_in_order() {
    let mut chain = collecting_chain(&[
        Stage::Flatten(ExpandOp::Repeat(3)),
        Stage::Filter(Pred::AtLeast(0)),
    ]);
    chain.give(5);
    chain.give(-1);
    chain.give(6);
    assert_eq!(chain.take_collected(), vec![5, 5, 5, 6, 6, 6]);
}

#[test]
fn reversed_surface_unwinds_head_first() {
    // Users compose head-first; the reversed surface defers and then
    // unwinds tail-first into the same stage order.
    let mut g = hydroflow::graph::Hydroflow::new();
    let (send, _recv) = g.make_edge();
    let terminal = PushSurfaceReversed::Handoff(HandoffPushSurfaceReversed::new(send));
    let rev = PushSurfaceReversed::FilterMap(FilterMapPushSurfaceReversed::new(
        terminal,
        Pred::IsEven,
        MapOp::Times(2),
    ));
    let (_port, stages) = rev.into_parts();
    assert_eq!(stages, vec![Stage::FilterMap(Pred::IsEven, MapOp::Times(2))]);
}

#[test]
fn surface_push_to_wraps_own_stage() {
    let mut g = hydroflow::graph::Hydroflow::new();
    let (send, recv) = g.make_edge();
    let pull_part = hydroflow::pull::PullBuild::Source(hydroflow::pull::HandoffPullBuild::new(
        recv,
    ));
    let surface = FilterMapSurface::new(pull_part, Pred::IsOdd, MapOp::Plus(1));
    let terminal = PushSurfaceReversed::Handoff(HandoffPushSurfaceReversed::new(send));
    let (_upstream, rev) = surface.push_to(terminal);
    let build = rev.into_build();
    let (_port, stages) = build.into_parts();
    assert_eq!(stages, vec![Stage::FilterMap(Pred::IsOdd, MapOp::Plus(1))]);
}

#[test]
fn surface_into_parts_appends_filter_map_stage() {
    let mut g = hydroflow::graph::Hydroflow::new();
    let (_send, recv) = g.make_edge();
    let pull_part = hydroflow::pull::PullBuild::Source(hydroflow::pull::HandoffPullBuild::new(
        recv,
    ));
    let surface = FilterMapSurface::new(pull_part, Pred::IsEven, MapOp::Negate);
    let (_port, stages) = surface.into_parts();
    assert_eq!(stages, vec![Stage::FilterMap(Pred::IsEven, MapOp::Negate)]);
}
