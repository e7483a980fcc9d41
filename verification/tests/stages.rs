use hydroflow::pull::{
    FilterMapPullBuild, FilterPullBuild, FlattenPullBuild, HandoffPullBuild, MapPullBuild,
    PullBuild, PullCursor,
};
use hydroflow::stage::{eval_expand, eval_map, eval_pred, ExpandOp, MapOp, Pred, Stage};

fn run_chain(stages: Vec<Stage>, input: Vec<i64>) -> Vec<i64> {
    let mut cursor = PullCursor::new(stages, input);
    cursor.drain_remaining()
}

#[test]
fn filter_even_keeps_even_items() {
    assert!(eval_pred(&Pred::IsEven, 4));
    assert!(!eval_pred(&Pred::IsEven, 5));
    assert!(eval_pred(&Pred::IsEven, -4));
    assert!(!eval_pred(&Pred::IsEven, -3));
    assert!(eval_pred(&Pred::IsOdd, -3));
    assert!(eval_pred(&Pred::LessThan(10), 9));
    assert!(!eval_pred(&Pred::LessThan(10), 10));
    assert!(eval_pred(&Pred::AtLeast(10), 10));
}

#[test]
fn map_ops_have_exact_values() {
    assert_eq!(eval_map(&MapOp::Plus(5), 7), 12);
    assert_eq!(eval_map(&MapOp::Times(3), -4), -12);
    assert_eq!(eval_map(&MapOp::Negate, 9), -9);
}

#[test]
fn map_ops_saturate_at_the_ends() {
    assert_eq!(eval_map(&MapOp::Plus(1), i64::MAX), i64::MAX);
    assert_eq!(eval_map(&MapOp::Plus(-1), i64::MIN), i64::MIN);
    assert_eq!(eval_map(&MapOp::Times(2), i64::MAX), i64::MAX);
    assert_eq!(eval_map(&MapOp::Times(2), i64::MIN), i64::MIN);
    assert_eq!(eval_map(&MapOp::Times(-1), i64::MIN), i64::MAX);
    assert_eq!(eval_map(&MapOp::Negate, i64::MIN), i64::MAX);
    assert_eq!(eval_map(&MapOp::Negate, i64::MAX), i64::MIN + 1);
}

#[test]
fn repeat_expands_in_order() {
    assert_eq!(eval_expand(&ExpandOp::Repeat(3), 7), vec![7, 7, 7]);
    assert_eq!(eval_expand(&ExpandOp::Repeat(0), 7), Vec::<i64>::new());
}

#[test]
fn pull_chain_matches_reference_application() {
    // filter(even) then map(double) over 0..10.
    let stages = vec![
        Stage::Filter(Pred::IsEven),
        Stage::Transform(MapOp::Times(2)),
    ];
    let input: Vec<i64> = (0..10).collect();
    assert_eq!(run_chain(stages, input), vec![0, 4, 8, 12, 16]);
}

#[test]
fn pull_chain_flatten_preserves_outer_order() {
    let stages = vec![
        Stage::Flatten(ExpandOp::Repeat(2)),
        Stage::Transform(MapOp::Plus(1)),
    ];
    assert_eq!(run_chain(stages, vec![1, 2]), vec![2, 2, 3, 3]);
}

#[test]
fn pull_chain_filter_map_drops_and_transforms() {
    let stages = vec![Stage::FilterMap(Pred::IsOdd, MapOp::Plus(10))];
    assert_eq!(run_chain(stages, vec![1, 2, 3, 4, 5]), vec![11, 13, 15]);
}

#[test]
fn pull_chain_with_no_stages_is_identity() {
    assert_eq!(run_chain(Vec::new(), vec![3, 1, 2]), vec![3, 1, 2]);
}

#[test]
fn pull_cursor_yields_items_one_at_a_time() {
    let stages = vec![Stage::Filter(Pred::IsEven)];
    let mut cursor = PullCursor::new(stages, vec![1, 2, 3, 4]);
    assert_eq!(cursor.next(), Some(2));
    assert_eq!(cursor.next(), Some(4));
    assert_eq!(cursor.next(), None);
    assert_eq!(cursor.next(), None);
}

#[test]
fn pull_build_nodes_decompose_in_stage_order() {
    let mut g = hydroflow::graph::Hydroflow::new();
    let (_send, recv) = g.make_edge();
    let chain = PullBuild::Source(HandoffPullBuild::new(recv));
    let chain = PullBuild::Filter(FilterPullBuild::new(chain, Pred::IsEven));
    let chain = PullBuild::Transform(MapPullBuild::new(chain, MapOp::Times(2)));
    let chain = PullBuild::FilterMap(FilterMapPullBuild::new(
        chain,
        Pred::LessThan(10),
        MapOp::Plus(1),
    ));
    let chain = PullBuild::Flatten(FlattenPullBuild::new(chain, ExpandOp::Repeat(1)));
    let (_port, stages) = chain.into_parts();
    assert_eq!(
        stages,
        vec![
            Stage::Filter(Pred::IsEven),
            Stage::Transform(MapOp::Times(2)),
            Stage::FilterMap(Pred::LessThan(10), MapOp::Plus(1)),
            Stage::Flatten(ExpandOp::Repeat(1)),
        ]
    );
}
