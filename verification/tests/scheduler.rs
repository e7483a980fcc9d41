use hydroflow::chan::{ChannelSendError, TriggerError};
use hydroflow::graph::{Hydroflow, EVENT_QUEUE_CAP};
use hydroflow::reactor::Reactor;
use hydroflow::stage::{MapOp, Pred, Stage};

#[test]
fn channel_source_delivers_in_order_within_one_tick() {
    // Channel-backed source: sending [1,2,3] then one tick lets a
    // downstream collecting sink observe [1,2,3] in that order.
    let mut g = Hydroflow::new();
    let (send, recv) = g.make_edge();
    let (_id, input) = g.add_channel_input("numbers".to_string(), send);
    let sink = g.add_subgraph_sink("collect".to_string(), recv, Vec::new());
    input.give(1).unwrap();
    input.give(2).unwrap();
    input.give(3).unwrap();
    input.flush().unwrap();
    g.tick();
    assert_eq!(g.take_collected(sink), vec![1, 2, 3]);
}

#[test]
fn channel_source_loses_nothing_across_ticks() {
    // More data than one turn consumes is retained, not dropped.
    let mut g = Hydroflow::new();
    let (send, recv) = g.make_edge();
    let (_id, input) = g.add_channel_input("numbers".to_string(), send);
    let sink = g.add_subgraph_sink("collect".to_string(), recv, Vec::new());
    g.tick();
    for x in 0..100 {
        input.give(x).unwrap();
    }
    input.flush().unwrap();
    g.tick();
    let got = g.take_collected(sink);
    assert_eq!(got, (0..100).collect::<Vec<i64>>());
}

#[test]
fn buffer_source_flows_through_stages() {
    let mut g = Hydroflow::new();
    let (send, recv) = g.make_edge();
    let src = g.add_subgraph_source(
        "numbers".to_string(),
        send,
        vec![Stage::Filter(Pred::IsEven), Stage::Transform(MapOp::Times(2))],
    );
    let sink = g.add_subgraph_sink("collect".to_string(), recv, Vec::new());
    for x in 0..10 {
        assert!(g.give_input(src, x));
    }
    g.tick();
    assert_eq!(g.take_collected(sink), vec![0, 4, 8, 12, 16]);
}

#[test]
fn trigger_causes_exactly_one_run_per_trigger() {
    // A trigger from outside while the scheduler is idle runs the
    // target exactly once on the next tick.
    let mut g = Hydroflow::new();
    let (send, recv) = g.make_edge();
    let src = g.add_input("input".to_string(), send);
    let sink = g.add_subgraph_sink("collect".to_string(), recv, Vec::new());
    g.tick();
    assert_eq!(g.take_collected(sink), Vec::<i64>::new());

    let reactor = g.reactor();
    assert!(g.give_input(src, 7));
    reactor.trigger(src).unwrap();
    g.tick();
    // The item appears exactly once, and the sink was re-run exactly
    // once per trigger: a second tick without a trigger adds nothing.
    assert_eq!(g.take_collected(sink), vec![7]);
    g.tick();
    assert_eq!(g.take_collected(sink), Vec::<i64>::new());
}

#[test]
fn trigger_reports_queue_full() {
    let g = Hydroflow::new();
    let reactor = g.reactor();
    for _ in 0..EVENT_QUEUE_CAP {
        reactor.trigger(0).unwrap();
    }
    assert_eq!(reactor.trigger(0), Err(TriggerError::Full(0)));
}

#[test]
fn trigger_reports_disconnection_after_teardown() {
    let g = Hydroflow::new();
    let reactor = g.reactor();
    drop(g);
    assert_eq!(reactor.trigger(3), Err(TriggerError::Disconnected(3)));
}

#[test]
fn channel_give_reports_disconnection_after_teardown() {
    let mut g = Hydroflow::new();
    let (send, _recv) = g.make_edge();
    let (_id, input) = g.add_channel_input("numbers".to_string(), send);
    drop(g);
    assert_eq!(input.give(9), Err(ChannelSendError::Disconnected(9)));
}

#[test]
fn reactor_handle_feeds_the_event_queue() {
    let (tx, rx) = std::sync::mpsc::sync_channel::<usize>(4);
    let reactor = Reactor::new(tx);
    let clone = reactor.clone();
    reactor.trigger(2).unwrap();
    clone.trigger(5).unwrap();
    assert_eq!(rx.try_recv().unwrap(), 2);
    assert_eq!(rx.try_recv().unwrap(), 5);
}

#[test]
fn fan_out_delivers_every_item_to_every_sink() {
    // A source emitting 5 items wired to 3 independent sinks delivers
    // all 5 items to each sink: 15 observations in total.
    let mut g = Hydroflow::new();
    let (send, recvs) = g.make_tee_edge(3);
    let src = g.add_subgraph_source("numbers".to_string(), send, Vec::new());
    let mut sinks = Vec::new();
    for recv in recvs {
        sinks.push(g.add_subgraph_sink("collect".to_string(), recv, Vec::new()));
    }
    for x in 1..=5 {
        assert!(g.give_input(src, x));
    }
    g.tick();
    let mut total = 0;
    for sink in sinks {
        let got = g.take_collected(sink);
        assert_eq!(got, vec![1, 2, 3, 4, 5]);
        total += got.len();
    }
    assert_eq!(total, 15);
}

#[test]
fn slot_edge_overwrites_older_items() {
    let mut g = Hydroflow::new();
    let (send, recv) = g.make_slot_edge();
    let src = g.add_subgraph_source("numbers".to_string(), send, Vec::new());
    let sink = g.add_subgraph_sink("collect".to_string(), recv, Vec::new());
    for x in [1, 2, 3] {
        assert!(g.give_input(src, x));
    }
    g.tick();
    assert_eq!(g.take_collected(sink), vec![3]);
}

#[test]
fn tick_reaches_fixpoint_through_a_pipeline() {
    // Three stages wired in sequence all run within the same tick.
    let mut g = Hydroflow::new();
    let (send_a, recv_a) = g.make_edge();
    let (send_b, recv_b) = g.make_edge();
    let src = g.add_subgraph_source("numbers".to_string(), send_a, Vec::new());
    let _mid = g.add_subgraph_in_out(
        "double".to_string(),
        recv_a,
        send_b,
        vec![Stage::Transform(MapOp::Times(2))],
    );
    let sink = g.add_subgraph_sink(
        "collect".to_string(),
        recv_b,
        vec![Stage::Transform(MapOp::Plus(1))],
    );
    for x in [1, 2, 3] {
        assert!(g.give_input(src, x));
    }
    g.tick();
    assert_eq!(g.take_collected(sink), vec![3, 5, 7]);
}

#[test]
fn tick_terminates_once_inputs_are_drained() {
    // A subgraph whose stages drop everything enqueues nothing
    // downstream; repeated ticks stay quiescent.
    let mut g = Hydroflow::new();
    let (send, recv) = g.make_edge();
    let src = g.add_subgraph_source(
        "numbers".to_string(),
        send,
        vec![Stage::Filter(Pred::LessThan(0))],
    );
    let sink = g.add_subgraph_sink("collect".to_string(), recv, Vec::new());
    for x in [4, 5, 6] {
        assert!(g.give_input(src, x));
    }
    g.tick();
    g.tick();
    g.tick();
    assert_eq!(g.take_collected(sink), Vec::<i64>::new());
}

#[test]
fn two_inputs_concatenate_in_port_order() {
    let mut g = Hydroflow::new();
    let (send_a, recv_a) = g.make_edge();
    let (send_b, recv_b) = g.make_edge();
    let src_a = g.add_input("left".to_string(), send_a);
    let src_b = g.add_input("right".to_string(), send_b);
    let sink = g.add_subgraph_2sink("collect".to_string(), recv_a, recv_b, Vec::new());
    assert!(g.give_input(src_a, 1));
    assert!(g.give_input(src_b, 2));
    assert!(g.give_input(src_a, 3));
    g.tick();
    assert_eq!(g.take_collected(sink), vec![1, 3, 2]);
}

#[test]
fn two_outputs_duplicate_the_stream() {
    let mut g = Hydroflow::new();
    let (send_in, recv_in) = g.make_edge();
    let (send_a, recv_a) = g.make_edge();
    let (send_b, recv_b) = g.make_edge();
    let src = g.add_input("input".to_string(), send_in);
    let _split = g.add_subgraph_in_2out(
        "split".to_string(),
        recv_in,
        send_a,
        send_b,
        Vec::new(),
    );
    let sink_a = g.add_subgraph_sink("left".to_string(), recv_a, Vec::new());
    let sink_b = g.add_subgraph_sink(
        "right".to_string(),
        recv_b,
        vec![Stage::Transform(MapOp::Negate)],
    );
    for x in [1, 2] {
        assert!(g.give_input(src, x));
    }
    g.tick();
    assert_eq!(g.take_collected(sink_a), vec![1, 2]);
    assert_eq!(g.take_collected(sink_b), vec![-1, -2]);
}

#[test]
fn give_input_rejects_non_buffer_subgraphs() {
    let mut g = Hydroflow::new();
    let (send, recv) = g.make_edge();
    let _src = g.add_input("input".to_string(), send);
    let sink = g.add_subgraph_sink("collect".to_string(), recv, Vec::new());
    assert!(!g.give_input(sink, 1));
}

#[test]
fn registration_runs_each_subgraph_once_initially() {
    let mut g = Hydroflow::new();
    let (send, recv) = g.make_edge();
    let src = g.add_subgraph_source("numbers".to_string(), send, Vec::new());
    assert!(g.give_input(src, 41));
    // The sink registers after data is already pending upstream; the
    // first tick still flows everything down.
    let sink = g.add_subgraph_sink("collect".to_string(), recv, Vec::new());
    g.tick();
    assert_eq!(g.take_collected(sink), vec![41]);
}

#[test]
fn feedback_cycle_delivers_across_ticks() {
    // A feedback loop at the handoff level: A relays to B, and B sends
    // back to A over an edge wired before its producer existed.  Each
    // tick makes one bounded pass, so the looped item advances one
    // round per tick instead of spinning forever.
    let mut g = Hydroflow::new();
    let (s_in, r_in) = g.make_edge(); // input -> relay
    let (s_fwd, r_fwd) = g.make_edge(); // relay -> loop_back
    let (s_back, r_back) = g.make_edge(); // loop_back -> relay (feedback)
    let (s_out, r_out) = g.make_edge(); // relay -> sink
    let src = g.add_input("inject".to_string(), s_in);
    let _relay = g.add_subgraph(
        "relay".to_string(),
        vec![r_in, r_back],
        vec![s_fwd, s_out],
        Vec::new(),
    );
    let _loop_back = g.add_subgraph_in_out(
        "loop_back".to_string(),
        r_fwd,
        s_back,
        vec![Stage::Transform(MapOp::Plus(1))],
    );
    let sink = g.add_subgraph_sink("collect".to_string(), r_out, Vec::new());
    assert!(g.give_input(src, 1));
    g.tick();
    assert_eq!(g.take_collected(sink), vec![1]);
    g.tick();
    assert_eq!(g.take_collected(sink), vec![2]);
    g.tick();
    assert_eq!(g.take_collected(sink), vec![3]);
}

#[test]
fn self_loop_terminates_once_drained() {
    // A subgraph feeding itself through a handoff: it runs once per
    // queue entry pending at its turn, so the looped item advances as
    // far as those entries allow and the tick still returns.  Once its
    // filter drops everything, the loop is drained, nothing re-enqueues
    // it, and later ticks stay quiescent.
    let mut g = Hydroflow::new();
    let (s_in, r_in) = g.make_edge();
    let (s_loop, r_loop) = g.make_edge();
    let (s_out, r_out) = g.make_edge();
    let src = g.add_input("inject".to_string(), s_in);
    let _looper = g.add_subgraph(
        "subtract_while_large".to_string(),
        vec![r_in, r_loop],
        vec![s_loop, s_out],
        vec![Stage::FilterMap(Pred::AtLeast(10), MapOp::Plus(-10))],
    );
    let sink = g.add_subgraph_sink("collect".to_string(), r_out, Vec::new());
    assert!(g.give_input(src, 25));
    g.tick();
    assert_eq!(g.take_collected(sink), vec![15, 5]);
    // 5 fails the filter: the loop is drained and stays quiet.
    g.tick();
    g.tick();
    assert_eq!(g.take_collected(sink), Vec::<i64>::new());
}
