//! The graph and its scheduler.
//!
//! A [`Hydroflow`] owns every handoff and every compiled subgraph.
//! Registration wires ports to subgraphs and returns stable
//! identifiers; [`Hydroflow::tick`] drives the ready queue to a local
//! fixpoint, running each enqueued subgraph once per queue entry and
//! enqueueing the consumers of every handoff that received data.
//!
//! The ready queue is fed from two sides: the graph's own verified
//! work-list, and a bounded channel that reactors and channel inputs on
//! other threads insert into.  Everything a received identifier or item
//! causes is verified for every possible value.
//!
//! Each handoff keeps a single producer, enforced at registration, but
//! feedback loops at the handoff level are permitted.  A tick makes one
//! bounded pass over the subgraphs in identifier order, running each
//! once per queue entry pending at its turn: items flowing forward
//! (producer registered before consumer) reach their consumers within
//! the same tick, while items sent over a feedback edge wait in the
//! handoff for the next tick.  This is what makes every tick terminate,
//! feedback or not.

use vstd::prelude::*;

use crate::chan::{send_item, sync_channel_pair, try_recv_one, ChannelSendError, TriggerError};
use crate::handoff::{merged, Handoff, RecvPort, SendPort};
use crate::reactor::Reactor;
use crate::stage::{apply_stages, lemma_apply_stages_empty, run_stages, Stage};

verus! {

/// Capacity of the event queue shared with reactors on other threads.
pub const EVENT_QUEUE_CAP: usize = 4096;

/// Capacity of the bounded channel behind a channel-backed source.
pub const CHANNEL_INPUT_CAP: usize = 8000;

/// Where a subgraph's input batch comes from on each run.
pub enum SourceKind {
    /// Drain the registered receive ports.
    Ports,
    /// Drain a locally injected buffer (see `give_input`).
    Buffer(Vec<i64>),
    /// Drain a bounded channel fed by other threads.
    Channel(std::sync::mpsc::Receiver<i64>),
}

impl SourceKind {
    /// The pending items of a buffer source; empty for the other kinds.
    pub open spec fn buffer_view(&self) -> Seq<i64> {
        match self {
            SourceKind::Buffer(b) => b@,
            _ => Seq::empty(),
        }
    }
}

/// One compiled, schedulable unit: a stage pipeline bound to its ports.
/// A subgraph with no send ports is a sink: its output accumulates in
/// `collected` until taken.
pub struct Subgraph {
    pub name: String,
    pub recvs: Vec<RecvPort>,
    pub sends: Vec<SendPort>,
    pub stages: Vec<Stage>,
    pub source: SourceKind,
    pub collected: Vec<i64>,
}

/// How many times `id` occurs in the ready queue.
pub open spec fn count_in(s: Seq<usize>, id: int) -> nat
    decreases s.len(),
{
    if s.len() == 0 {
        0
    } else {
        (if s[0] == id {
            1nat
        } else {
            0nat
        }) + count_in(s.drop_first(), id)
    }
}

pub proof fn lemma_count_in_push(s: Seq<usize>, x: usize, id: int)
    ensures
        count_in(s.push(x), id) == count_in(s, id) + (if x == id {
            1nat
        } else {
            0nat
        }),
    decreases s.len(),
{
    let t = s.push(x);
    assert(t.len() == s.len() + 1);
    assert(count_in(t, id) == (if t[0] == id {
        1nat
    } else {
        0nat
    }) + count_in(t.drop_first(), id));
    if s.len() == 0 {
        assert(t.drop_first() =~= Seq::<usize>::empty());
        assert(t[0] == x);
        assert(count_in(Seq::<usize>::empty(), id) == 0);
    } else {
        assert(t.drop_first() =~= s.drop_first().push(x));
        assert(t[0] == s[0]);
        lemma_count_in_push(s.drop_first(), x, id);
        assert(count_in(s, id) == (if s[0] == id {
            1nat
        } else {
            0nat
        }) + count_in(s.drop_first(), id));
    }
}

pub proof fn lemma_count_in_concat(a: Seq<usize>, b: Seq<usize>, id: int)
    ensures
        count_in(a + b, id) == count_in(a, id) + count_in(b, id),
    decreases a.len(),
{
    if a.len() == 0 {
        assert(a + b =~= b);
    } else {
        assert((a + b).drop_first() =~= a.drop_first() + b);
        assert((a + b)[0] == a[0]);
        lemma_count_in_concat(a.drop_first(), b, id);
    }
}

pub proof fn lemma_count_in_absent(s: Seq<usize>, id: int)
    requires
        forall|q: int| 0 <= q < s.len() ==> s[q] != id,
    ensures
        count_in(s, id) == 0,
    decreases s.len(),
{
    if s.len() == 0 {
    } else {
        lemma_count_in_absent(s.drop_first(), id);
    }
}

/// Whether some receive port in `recvs` reads slot `r` of handoff `h`.
pub open spec fn reads_slot(recvs: Seq<RecvPort>, h: int, r: int) -> bool {
    exists|k: int| 0 <= k < recvs.len() && recvs[k].hof_id() == h && recvs[k].reader_id() == r
}

/// Whether some send port in `sends` writes handoff `h`.
pub open spec fn sends_to(sends: Seq<SendPort>, h: int) -> bool {
    exists|k: int| 0 <= k < sends.len() && sends[k].hof_id() == h
}

/// Whether an edge runs forward: from a producer to a consumer with a
/// larger identifier.  Forward edges deliver within the tick that runs
/// the producer; a feedback edge (consumer at or below the producer)
/// delivers on a later tick.
pub open spec fn producer_below(p: Option<usize>, c: Option<usize>) -> bool {
    match (p, c) {
        (Some(p), Some(c)) => p < c,
        _ => true,
    }
}

/// The dataflow graph: all handoffs, all subgraphs, the wiring table
/// from handoff reader slots to their consumer subgraphs and from
/// handoffs to their single producer, and the ready queue of
/// identifiers awaiting execution.
pub struct Hydroflow {
    pub handoffs: Vec<Handoff>,
    pub subgraphs: Vec<Subgraph>,
    pub consumers: Vec<Vec<Option<usize>>>,
    pub producers: Vec<Option<usize>>,
    pub queue: Vec<usize>,
    pub event_send: std::sync::mpsc::SyncSender<usize>,
    pub event_recv: std::sync::mpsc::Receiver<usize>,
    /// How many times each subgraph has run.
    pub runs: Ghost<Seq<nat>>,
    /// How many times each subgraph has been enqueued (registration,
    /// external trigger, or downstream scheduling).
    pub enq: Ghost<Seq<nat>>,
}

/// The input batch one run of subgraph `id` of `g` would consume from
/// its receive ports, in port order.
pub open spec fn drains(g: Hydroflow, recvs: Seq<RecvPort>) -> Seq<i64>
    decreases recvs.len(),
{
    if recvs.len() == 0 {
        Seq::empty()
    } else {
        g.handoffs@[recvs[0].hof_id()].contents(recvs[0].reader_id()) + drains(
            g,
            recvs.drop_first(),
        )
    }
}

pub proof fn lemma_drains_snoc(g: Hydroflow, recvs: Seq<RecvPort>, p: RecvPort)
    ensures
        drains(g, recvs.push(p)) == drains(g, recvs) + g.handoffs@[p.hof_id()].contents(
            p.reader_id(),
        ),
    decreases recvs.len(),
{
    let t = recvs.push(p);
    assert(drains(g, t) == g.handoffs@[t[0].hof_id()].contents(t[0].reader_id()) + drains(
        g,
        t.drop_first(),
    ));
    if recvs.len() == 0 {
        assert(t.drop_first() =~= Seq::<RecvPort>::empty());
        assert(t[0] == p);
        assert(drains(g, Seq::<RecvPort>::empty()) == Seq::<i64>::empty());
        assert(drains(g, recvs) == Seq::<i64>::empty());
        assert(g.handoffs@[p.hof_id()].contents(p.reader_id()) + Seq::<i64>::empty() =~= drains(
            g,
            recvs,
        ) + g.handoffs@[p.hof_id()].contents(p.reader_id()));
    } else {
        assert(t.drop_first() =~= recvs.drop_first().push(p));
        assert(t[0] == recvs[0]);
        lemma_drains_snoc(g, recvs.drop_first(), p);
        assert(drains(g, recvs) == g.handoffs@[recvs[0].hof_id()].contents(recvs[0].reader_id())
            + drains(g, recvs.drop_first()));
        assert(g.handoffs@[recvs[0].hof_id()].contents(recvs[0].reader_id()) + (drains(
            g,
            recvs.drop_first(),
        ) + g.handoffs@[p.hof_id()].contents(p.reader_id())) =~= (g.handoffs@[recvs[0].hof_id()].contents(
            recvs[0].reader_id(),
        ) + drains(g, recvs.drop_first())) + g.handoffs@[p.hof_id()].contents(p.reader_id()));
    }
}

/// What one run of subgraph `id` of `g` would consume right now (for a
/// channel source the batch depends on other threads and is not a
/// function of the graph's state).
pub open spec fn input_of(g: Hydroflow, id: int) -> Seq<i64> {
    let sg = g.subgraphs@[id];
    match sg.source {
        SourceKind::Ports => drains(g, sg.recvs@),
        SourceKind::Buffer(b) => b@,
        SourceKind::Channel(_) => Seq::empty(),
    }
}

/// The consumer subgraphs registered on one handoff's reader slots, in
/// slot order.
pub open spec fn row_consumers(row: Seq<Option<usize>>) -> Seq<usize>
    decreases row.len(),
{
    if row.len() == 0 {
        Seq::empty()
    } else {
        (match row[0] {
            Some(c) => seq![c],
            None => Seq::empty(),
        }) + row_consumers(row.drop_first())
    }
}

pub proof fn lemma_row_consumers_snoc(row: Seq<Option<usize>>, o: Option<usize>)
    ensures
        row_consumers(row.push(o)) == row_consumers(row) + (match o {
            Some(c) => seq![c],
            None => Seq::<usize>::empty(),
        }),
    decreases row.len(),
{
    let t = row.push(o);
    let tail = (match o {
        Some(c) => seq![c],
        None => Seq::<usize>::empty(),
    });
    assert(row_consumers(t) == (match t[0] {
        Some(c) => seq![c],
        None => Seq::<usize>::empty(),
    }) + row_consumers(t.drop_first()));
    if row.len() == 0 {
        assert(t.drop_first() =~= Seq::<Option<usize>>::empty());
        assert(t[0] == o);
        assert(row_consumers(Seq::<Option<usize>>::empty()) == Seq::<usize>::empty());
        assert(row_consumers(row) == Seq::<usize>::empty());
        assert(tail + Seq::<usize>::empty() =~= Seq::<usize>::empty() + tail);
    } else {
        assert(t.drop_first() =~= row.drop_first().push(o));
        assert(t[0] == row[0]);
        lemma_row_consumers_snoc(row.drop_first(), o);
        assert(row_consumers(row) == (match row[0] {
            Some(c) => seq![c],
            None => Seq::<usize>::empty(),
        }) + row_consumers(row.drop_first()));
        let head = (match row[0] {
            Some(c) => seq![c],
            None => Seq::<usize>::empty(),
        });
        assert(head + (row_consumers(row.drop_first()) + tail) =~= (head + row_consumers(
            row.drop_first(),
        )) + tail);
    }
}

/// The consumers that one run feeding `sends` would enqueue, in send
/// port order, then reader slot order.
pub open spec fn sends_consumers(g: Hydroflow, sends: Seq<SendPort>) -> Seq<usize>
    decreases sends.len(),
{
    if sends.len() == 0 {
        Seq::empty()
    } else {
        row_consumers(g.consumers@[sends[0].hof_id()]@) + sends_consumers(g, sends.drop_first())
    }
}

pub proof fn lemma_sends_consumers_snoc(g: Hydroflow, sends: Seq<SendPort>, p: SendPort)
    ensures
        sends_consumers(g, sends.push(p)) == sends_consumers(g, sends) + row_consumers(
            g.consumers@[p.hof_id()]@,
        ),
    decreases sends.len(),
{
    let t = sends.push(p);
    let tail = row_consumers(g.consumers@[p.hof_id()]@);
    assert(sends_consumers(g, t) == row_consumers(g.consumers@[t[0].hof_id()]@)
        + sends_consumers(g, t.drop_first()));
    if sends.len() == 0 {
        assert(t.drop_first() =~= Seq::<SendPort>::empty());
        assert(t[0] == p);
        assert(sends_consumers(g, Seq::<SendPort>::empty()) == Seq::<usize>::empty());
        assert(sends_consumers(g, sends) == Seq::<usize>::empty());
        assert(tail + Seq::<usize>::empty() =~= Seq::<usize>::empty() + tail);
    } else {
        assert(t.drop_first() =~= sends.drop_first().push(p));
        assert(t[0] == sends[0]);
        lemma_sends_consumers_snoc(g, sends.drop_first(), p);
        assert(sends_consumers(g, sends) == row_consumers(g.consumers@[sends[0].hof_id()]@)
            + sends_consumers(g, sends.drop_first()));
        let head = row_consumers(g.consumers@[sends[0].hof_id()]@);
        assert(head + (sends_consumers(g, sends.drop_first()) + tail) =~= (head + sends_consumers(
            g,
            sends.drop_first(),
        )) + tail);
    }
}

/// The identifiers one run of `id` appends to the ready queue: the
/// consumers of its send ports, but only when the run produced items.
pub open spec fn enqueue_list(g: Hydroflow, id: int, out_len: nat) -> Seq<usize> {
    if out_len == 0 {
        Seq::empty()
    } else {
        sends_consumers(g, g.subgraphs@[id].sends@)
    }
}

/// Adding a fresh edge leaves every registered subgraph's wiring facts
/// intact: ports still in range, producer ownership unchanged.
proof fn lemma_wiring_after_new_edge(pre: Hydroflow, post: Hydroflow)
    requires
        pre.wf(),
        post.subgraphs@ == pre.subgraphs@,
        post.handoffs@.len() == pre.handoffs@.len() + 1,
        forall|h: int| 0 <= h < pre.handoffs@.len() ==> #[trigger] post.handoffs@[h] == pre.handoffs@[h],
        post.producers@.len() == pre.producers@.len() + 1,
        forall|h: int| 0 <= h < pre.producers@.len() ==> #[trigger] post.producers@[h] == pre.producers@[h],
    ensures
        forall|i: int| 0 <= i < post.subgraphs@.len() ==> #[trigger] post.sg_wf(i),
        forall|i2: int, k3: int|
            0 <= i2 < post.subgraphs@.len() && 0 <= k3 < post.subgraphs@[i2].sends@.len()
                ==> #[trigger] post.producers@[post.subgraphs@[i2].sends@[k3].hof_id()] == Some(
                i2 as usize,
            ),
{
    assert forall|i: int| 0 <= i < post.subgraphs@.len() implies #[trigger] post.sg_wf(i) by {
        assert(pre.sg_wf(i));
    }
    assert forall|i2: int, k3: int|
        0 <= i2 < post.subgraphs@.len() && 0 <= k3
            < post.subgraphs@[i2].sends@.len() implies #[trigger] post.producers@[post.subgraphs@[i2].sends@[k3].hof_id()]
        == Some(i2 as usize) by {
        assert(pre.sg_wf(i2));
        assert(pre.producers@[post.subgraphs@[i2].sends@[k3].hof_id()] == Some(i2 as usize));
    }
}

impl Hydroflow {
    /// Well-formedness of one registered subgraph's wiring.
    pub open spec fn sg_wf(&self, i: int) -> bool {
        let sg = self.subgraphs@[i];
        &&& forall|k: int|
            0 <= k < sg.recvs@.len() ==> 0 <= #[trigger] sg.recvs@[k].hof_id()
                < self.handoffs@.len() && 0 <= sg.recvs@[k].reader_id()
                < self.handoffs@[sg.recvs@[k].hof_id()].reader_count()
        &&& forall|k: int|
            0 <= k < sg.sends@.len() ==> 0 <= #[trigger] sg.sends@[k].hof_id()
                < self.handoffs@.len()
        &&& forall|k1: int, k2: int|
            0 <= k1 < k2 < sg.recvs@.len() ==> !(#[trigger] sg.recvs@[k1].hof_id()
                == #[trigger] sg.recvs@[k2].hof_id() && sg.recvs@[k1].reader_id()
                == sg.recvs@[k2].reader_id())
        &&& forall|k1: int, k2: int|
            0 <= k1 < k2 < sg.sends@.len() ==> #[trigger] sg.sends@[k1].hof_id()
                != #[trigger] sg.sends@[k2].hof_id()
        &&& (!(sg.source is Ports) ==> sg.recvs@.len() == 0)
    }

    /// Well-formedness of the whole graph: the wiring table matches the
    /// handoffs, every registered port is in range, every queued
    /// identifier names a subgraph, and every enqueue is accounted for
    /// by exactly one past run or one pending queue entry.
    pub open spec fn wf(&self) -> bool {
        &&& self.consumers@.len() == self.handoffs@.len()
        &&& forall|h: int|
            0 <= h < self.handoffs@.len() ==> #[trigger] self.consumers@[h]@.len()
                == self.handoffs@[h].reader_count()
        &&& forall|h: int, r: int|
            0 <= h < self.handoffs@.len() && 0 <= r < self.consumers@[h]@.len() ==> match #[trigger] self.consumers@[h]@[r] {
                Some(c) => c < self.subgraphs@.len(),
                None => true,
            }
        &&& forall|i: int| 0 <= i < self.subgraphs@.len() ==> #[trigger] self.sg_wf(i)
        &&& self.producers@.len() == self.handoffs@.len()
        &&& forall|h: int|
            0 <= h < self.handoffs@.len() ==> match #[trigger] self.producers@[h] {
                Some(p) => p < self.subgraphs@.len(),
                None => true,
            }
        &&& forall|i: int, k: int|
            0 <= i < self.subgraphs@.len() && 0 <= k < self.subgraphs@[i].sends@.len()
                ==> #[trigger] self.producers@[self.subgraphs@[i].sends@[k].hof_id()] == Some(
                i as usize,
            )
        &&& forall|q: int|
            0 <= q < self.queue@.len() ==> #[trigger] self.queue@[q] < self.subgraphs@.len()
        &&& self.runs@.len() == self.subgraphs@.len()
        &&& self.enq@.len() == self.subgraphs@.len()
        &&& forall|i: int|
            0 <= i < self.subgraphs@.len() ==> #[trigger] self.enq@[i] == self.runs@[i] + count_in(
                self.queue@,
                i,
            )
    }

    /// A fresh graph with no handoffs, no subgraphs and an empty queue.
    pub fn new() -> (g: Hydroflow)
        ensures
            g.wf(),
            g.handoffs@.len() == 0,
            g.subgraphs@.len() == 0,
            g.queue@.len() == 0,
    {
        let (tx, rx) = sync_channel_pair::<usize>(EVENT_QUEUE_CAP);
        Hydroflow {
            handoffs: Vec::new(),
            subgraphs: Vec::new(),
            consumers: Vec::new(),
            producers: Vec::new(),
            queue: Vec::new(),
            event_send: tx,
            event_recv: rx,
            runs: Ghost(Seq::empty()),
            enq: Ghost(Seq::empty()),
        }
    }

    /// A reactor bound to this graph's event queue.
    pub fn reactor(&self) -> (r: Reactor) {
        Reactor::new(self.event_send.clone())
    }

    /// Everything but the named handoff row is as before; used by the
    /// edge constructors.
    pub open spec fn edge_added(&self, pre: &Hydroflow) -> bool {
        &&& self.handoffs@.len() == pre.handoffs@.len() + 1
        &&& forall|h: int|
            0 <= h < pre.handoffs@.len() ==> #[trigger] self.handoffs@[h] == pre.handoffs@[h]
        &&& forall|h: int|
            0 <= h < pre.handoffs@.len() ==> #[trigger] self.consumers@[h]@ == pre.consumers@[h]@
        &&& self.producers@.len() == pre.producers@.len() + 1
        &&& forall|h: int|
            0 <= h < pre.handoffs@.len() ==> #[trigger] self.producers@[h] == pre.producers@[h]
        &&& self.producers@[pre.handoffs@.len() as int] is None
        &&& self.subgraphs@ == pre.subgraphs@
        &&& self.queue@ == pre.queue@
        &&& self.runs@ == pre.runs@
        &&& self.enq@ == pre.enq@
    }

    /// Create an append-buffer edge; returns its send and receive
    /// capabilities.  Only registration calls can consume them.
    pub fn make_edge(&mut self) -> (r: (SendPort, RecvPort))
        requires
            old(self).wf(),
        ensures
            final(self).wf(),
            final(self).edge_added(old(self)),
            r.0.hof_id() == old(self).handoffs@.len(),
            r.1.hof_id() == old(self).handoffs@.len(),
            r.1.reader_id() == 0,
            final(self).handoffs@[r.0.hof_id()] is Buf,
            final(self).handoffs@[r.0.hof_id()].reader_count() == 1,
            final(self).handoffs@[r.0.hof_id()].contents(0) == Seq::<i64>::empty(),
            final(self).consumers@[r.0.hof_id()]@ == seq![Option::<usize>::None],
    {
        let h = self.handoffs.len();
        self.handoffs.push(Handoff::new_buf());
        let mut row: Vec<Option<usize>> = Vec::new();
        row.push(None);
        self.consumers.push(row);
        self.producers.push(None);
        proof {
            assert(self.consumers@[h as int]@ =~= seq![Option::<usize>::None]);
            lemma_wiring_after_new_edge(*old(self), *self);
        }
        (SendPort::new_at(h), RecvPort::new_at(h, 0))
    }

    /// Create a single-slot edge (a newly given item overwrites the
    /// previous one).
    pub fn make_slot_edge(&mut self) -> (r: (SendPort, RecvPort))
        requires
            old(self).wf(),
        ensures
            final(self).wf(),
            final(self).edge_added(old(self)),
            r.0.hof_id() == old(self).handoffs@.len(),
            r.1.hof_id() == old(self).handoffs@.len(),
            r.1.reader_id() == 0,
            final(self).handoffs@[r.0.hof_id()] is Slot,
            final(self).handoffs@[r.0.hof_id()].reader_count() == 1,
            final(self).handoffs@[r.0.hof_id()].contents(0) == Seq::<i64>::empty(),
            final(self).consumers@[r.0.hof_id()]@ == seq![Option::<usize>::None],
    {
        let h = self.handoffs.len();
        self.handoffs.push(Handoff::new_slot());
        let mut row: Vec<Option<usize>> = Vec::new();
        row.push(None);
        self.consumers.push(row);
        self.producers.push(None);
        proof {
            assert(self.consumers@[h as int]@ =~= seq![Option::<usize>::None]);
            lemma_wiring_after_new_edge(*old(self), *self);
        }
        (SendPort::new_at(h), RecvPort::new_at(h, 0))
    }

    /// Create a fan-out ("tee") edge with `readers` independent reader
    /// slots: every given item is duplicated to each reader at write
    /// time, so each reader observes the full sequence independently.
    pub fn make_tee_edge(&mut self, readers: usize) -> (r: (SendPort, Vec<RecvPort>))
        requires
            old(self).wf(),
        ensures
            final(self).wf(),
            final(self).edge_added(old(self)),
            r.0.hof_id() == old(self).handoffs@.len(),
            r.1@.len() == readers,
            forall|k: int|
                0 <= k < readers ==> #[trigger] r.1@[k].hof_id() == old(self).handoffs@.len()
                    && r.1@[k].reader_id() == k,
            final(self).handoffs@[r.0.hof_id()] is Tee,
            final(self).handoffs@[r.0.hof_id()].reader_count() == readers,
            forall|q: int|
                0 <= q < readers ==> final(self).handoffs@[r.0.hof_id()].contents(q) == Seq::<
                    i64,
                >::empty(),
            forall|q: int|
                0 <= q < readers ==> final(self).consumers@[r.0.hof_id()]@[q] is None,
            final(self).consumers@[r.0.hof_id()]@.len() == readers,
    {
        let h = self.handoffs.len();
        let mut row: Vec<Option<usize>> = Vec::new();
        let mut ports: Vec<RecvPort> = Vec::new();
        let mut q: usize = 0;
        while q < readers
            invariant
                q <= readers,
                row@.len() == q,
                ports@.len() == q,
                forall|j: int| 0 <= j < q ==> #[trigger] row@[j] is None,
                forall|j: int|
                    0 <= j < q ==> #[trigger] ports@[j].hof_id() == h && ports@[j].reader_id()
                        == j,
            decreases readers - q,
        {
            row.push(None);
            ports.push(RecvPort::new_at(h, q));
            q = q + 1;
        }
        self.handoffs.push(Handoff::new_tee(readers));
        self.consumers.push(row);
        self.producers.push(None);
        proof {
            lemma_wiring_after_new_edge(*old(self), *self);
        }
        (SendPort::new_at(h), ports)
    }

    /// Whether `recvs` and `sends` can wire a new subgraph: every port
    /// in range, every receive slot still unconsumed, and no port named
    /// twice.
    pub open spec fn can_register(&self, recvs: Seq<RecvPort>, sends: Seq<SendPort>) -> bool {
        &&& forall|k: int|
            0 <= k < recvs.len() ==> 0 <= #[trigger] recvs[k].hof_id() < self.handoffs@.len() && 0
                <= recvs[k].reader_id() < self.handoffs@[recvs[k].hof_id()].reader_count()
                && self.consumers@[recvs[k].hof_id()]@[recvs[k].reader_id()] is None
        &&& forall|k1: int, k2: int|
            0 <= k1 < k2 < recvs.len() ==> !(#[trigger] recvs[k1].hof_id() == #[trigger] recvs[k2].hof_id()
                && recvs[k1].reader_id() == recvs[k2].reader_id())
        &&& forall|k: int|
            0 <= k < sends.len() ==> 0 <= #[trigger] sends[k].hof_id() < self.handoffs@.len()
                && self.producers@[sends[k].hof_id()] is None
        &&& forall|k1: int, k2: int|
            0 <= k1 < k2 < sends.len() ==> #[trigger] sends[k1].hof_id() != #[trigger] sends[k2].hof_id()
    }

    /// The state right after a registration: one more subgraph, wired
    /// as given, enqueued once for its initial run.
    pub open spec fn registered(
        &self,
        pre: &Hydroflow,
        id: int,
        recvs: Seq<RecvPort>,
        sends: Seq<SendPort>,
        stages: Seq<Stage>,
    ) -> bool {
        &&& id == pre.subgraphs@.len()
        &&& self.subgraphs@.len() == pre.subgraphs@.len() + 1
        &&& forall|j: int|
            0 <= j < pre.subgraphs@.len() ==> #[trigger] self.subgraphs@[j] == pre.subgraphs@[j]
        &&& self.subgraphs@[id].recvs@ == recvs
        &&& self.subgraphs@[id].sends@ == sends
        &&& self.subgraphs@[id].stages@ == stages
        &&& self.subgraphs@[id].collected@ == Seq::<i64>::empty()
        &&& self.handoffs@ == pre.handoffs@
        &&& self.queue@ == pre.queue@.push(id as usize)
        &&& self.consumers@.len() == pre.consumers@.len()
        &&& forall|h: int|
            0 <= h < pre.consumers@.len() ==> #[trigger] self.consumers@[h]@.len()
                == pre.consumers@[h]@.len()
        &&& forall|h: int, r: int|
            0 <= h < pre.consumers@.len() && 0 <= r < pre.consumers@[h]@.len()
                ==> #[trigger] self.consumers@[h]@[r] == (if reads_slot(recvs, h, r) {
                Some(id as usize)
            } else {
                pre.consumers@[h]@[r]
            })
        &&& self.producers@.len() == pre.producers@.len()
        &&& forall|h: int|
            0 <= h < pre.producers@.len() ==> #[trigger] self.producers@[h] == (if sends_to(
                sends,
                h,
            ) {
                Some(id as usize)
            } else {
                pre.producers@[h]
            })
        &&& self.runs@ == pre.runs@.push(0)
        &&& self.enq@ == pre.enq@.push(1)
    }

    /// The general registration: a new subgraph on the given ordered
    /// port lists, running `stages` over `source`.  Arity-specialized
    /// wrappers are sugar over this one operation.
    fn register(
        &mut self,
        name: String,
        recvs: Vec<RecvPort>,
        sends: Vec<SendPort>,
        stages: Vec<Stage>,
        source: SourceKind,
    ) -> (id: usize)
        requires
            old(self).wf(),
            old(self).can_register(recvs@, sends@),
            !(source is Ports) ==> recvs@.len() == 0,
        ensures
            final(self).wf(),
            final(self).registered(old(self), id as int, recvs@, sends@, stages@),
            final(self).subgraphs@[id as int].name == name,
            final(self).subgraphs@[id as int].source == source,
    {
        let id = self.subgraphs.len();
        let mut k: usize = 0;
        while k < recvs.len()
            invariant
                old(self).wf(),
                old(self).can_register(recvs@, sends@),
                id == old(self).subgraphs@.len(),
                k <= recvs@.len(),
                self.handoffs@ == old(self).handoffs@,
                self.subgraphs@ == old(self).subgraphs@,
                self.queue@ == old(self).queue@,
                self.runs@ == old(self).runs@,
                self.enq@ == old(self).enq@,
                self.producers@ == old(self).producers@,
                self.consumers@.len() == old(self).consumers@.len(),
                forall|h: int|
                    0 <= h < old(self).consumers@.len() ==> #[trigger] self.consumers@[h]@.len()
                        == old(self).consumers@[h]@.len(),
                forall|h: int, r: int|
                    0 <= h < old(self).consumers@.len() && 0 <= r < old(self).consumers@[h]@.len()
                        ==> #[trigger] self.consumers@[h]@[r] == (if reads_slot(
                        recvs@.take(k as int),
                        h,
                        r,
                    ) {
                        Some(id)
                    } else {
                        old(self).consumers@[h]@[r]
                    }),
            decreases recvs@.len() - k,
        {
            let h = recvs[k].hof_index();
            let r = recvs[k].reader_index();
            proof {
                assert(0 <= h < old(self).consumers@.len() && 0 <= r < old(
                    self,
                ).consumers@[h as int]@.len());
            }
            let mut row = self.consumers.remove(h);
            row.remove(r);
            row.insert(r, Some(id));
            self.consumers.insert(h, row);
            proof {
                let pre_c = old(self).consumers@;
                assert forall|h2: int, r2: int|
                    0 <= h2 < pre_c.len() && 0 <= r2 < pre_c[h2]@.len() implies #[trigger] self.consumers@[h2]@[r2]
                    == (if reads_slot(recvs@.take(k + 1 as int), h2, r2) {
                    Some(id)
                } else {
                    pre_c[h2]@[r2]
                }) by {
                    assert(recvs@.take(k + 1 as int) =~= recvs@.take(k as int).push(
                        recvs@[k as int],
                    ));
                    if h2 == h && r2 == r {
                        assert(reads_slot(recvs@.take(k + 1 as int), h2, r2)) by {
                            assert(recvs@.take(k + 1 as int)[k as int] == recvs@[k as int]);
                        }
                    } else {
                        if reads_slot(recvs@.take(k as int), h2, r2) {
                            let w = choose|w: int|
                                0 <= w < k && (#[trigger] recvs@.take(k as int)[w]).hof_id() == h2
                                    && recvs@.take(k as int)[w].reader_id() == r2;
                            assert(recvs@.take(k + 1 as int)[w] == recvs@.take(k as int)[w]);
                        }
                        if reads_slot(recvs@.take(k + 1 as int), h2, r2) {
                            let w = choose|w: int|
                                0 <= w < k + 1 && (#[trigger] recvs@.take(k + 1 as int)[w]).hof_id()
                                    == h2 && recvs@.take(k + 1 as int)[w].reader_id() == r2;
                            if w < k {
                                assert(recvs@.take(k as int)[w] == recvs@.take(k + 1 as int)[w]);
                            }
                        }
                    }
                }
            }
            k = k + 1;
        }
        proof {
            assert(recvs@.take(recvs@.len() as int) =~= recvs@);
            assert(sends@.take(0) =~= Seq::<SendPort>::empty());
        }
        let ghost cons_mid = self.consumers@;
        let mut k2: usize = 0;
        while k2 < sends.len()
            invariant
                old(self).wf(),
                old(self).can_register(recvs@, sends@),
                id == old(self).subgraphs@.len(),
                k2 <= sends@.len(),
                self.handoffs@ == old(self).handoffs@,
                self.subgraphs@ == old(self).subgraphs@,
                self.queue@ == old(self).queue@,
                self.runs@ == old(self).runs@,
                self.enq@ == old(self).enq@,
                self.consumers@ == cons_mid,
                self.producers@.len() == old(self).producers@.len(),
                forall|h: int|
                    0 <= h < old(self).producers@.len() ==> #[trigger] self.producers@[h] == (
                    if sends_to(sends@.take(k2 as int), h) {
                        Some(id)
                    } else {
                        old(self).producers@[h]
                    }),
            decreases sends@.len() - k2,
        {
            let h = sends[k2].hof_index();
            proof {
                assert(0 <= h < old(self).producers@.len());
            }
            self.producers.remove(h);
            self.producers.insert(h, Some(id));
            proof {
                assert forall|h2: int| 0 <= h2 < old(self).producers@.len()
                    implies #[trigger] self.producers@[h2] == (if sends_to(
                    sends@.take(k2 + 1 as int),
                    h2,
                ) {
                    Some(id)
                } else {
                    old(self).producers@[h2]
                }) by {
                    assert(sends@.take(k2 + 1 as int) =~= sends@.take(k2 as int).push(
                        sends@[k2 as int],
                    ));
                    lemma_sends_to_push(sends@.take(k2 as int), sends@[k2 as int], h2);
                }
            }
            k2 = k2 + 1;
        }
        proof {
            assert(sends@.take(sends@.len() as int) =~= sends@);
        }
        self.subgraphs.push(
            Subgraph { name, recvs, sends, stages, source, collected: Vec::new() },
        );
        self.queue.push(id);
        proof {
            self.runs@ = self.runs@.push(0);
            self.enq@ = self.enq@.push(1);
            // Conservation: the new identifier was absent from the queue.
            assert forall|q: int| 0 <= q < old(self).queue@.len() implies old(self).queue@[q]
                != id by {}
            lemma_count_in_absent(old(self).queue@, id as int);
            lemma_count_in_push(old(self).queue@, id, id as int);
            assert forall|i: int| 0 <= i < self.subgraphs@.len() implies #[trigger] self.enq@[i]
                == self.runs@[i] + count_in(self.queue@, i) by {
                if i < id {
                    lemma_count_in_push(old(self).queue@, id, i);
                }
            }
            assert forall|i: int| 0 <= i < self.subgraphs@.len() implies #[trigger] self.sg_wf(
                i,
            ) by {
                if i < id {
                    assert(old(self).sg_wf(i));
                    assert(self.subgraphs@[i] == old(self).subgraphs@[i]);
                }
            }
            let recs = self.subgraphs@[id as int].recvs@;
            assert(recs == recvs@);
            assert forall|i2: int, k3: int|
                0 <= i2 < self.subgraphs@.len() && 0 <= k3
                    < self.subgraphs@[i2].sends@.len() implies #[trigger] self.producers@[self.subgraphs@[i2].sends@[k3].hof_id()]
                == Some(i2 as usize) by {
                let h = self.subgraphs@[i2].sends@[k3].hof_id();
                if i2 == id {
                    assert(sends_to(sends@, h)) by {
                        assert(sends@[k3].hof_id() == h);
                    }
                } else {
                    assert(self.subgraphs@[i2] == old(self).subgraphs@[i2]);
                    assert(old(self).producers@[h] == Some(i2 as usize));
                    assert(0 <= h < old(self).handoffs@.len()) by {
                        assert(old(self).sg_wf(i2));
                    }
                    if sends_to(sends@, h) {
                        let w = choose|w: int|
                            0 <= w < sends@.len() && (#[trigger] sends@[w]).hof_id() == h;
                        assert(old(self).producers@[h] is None);
                        assert(false);
                    }
                }
            }
        }
        id
    }

    /// Register a subgraph that drains its receive ports, runs its
    /// stages, and feeds its send ports, in the order given.
    pub fn add_subgraph(
        &mut self,
        name: String,
        recvs: Vec<RecvPort>,
        sends: Vec<SendPort>,
        stages: Vec<Stage>,
    ) -> (id: usize)
        requires
            old(self).wf(),
            old(self).can_register(recvs@, sends@),
        ensures
            final(self).wf(),
            final(self).registered(old(self), id as int, recvs@, sends@, stages@),
            final(self).subgraphs@[id as int].name == name,
            final(self).subgraphs@[id as int].source is Ports,
    {
        self.register(name, recvs, sends, stages, SourceKind::Ports)
    }
}


/// What scheduling never changes: the registered structure — wiring,
/// names, stages, source kinds, handoff shapes, the producer and
/// consumer tables.
pub open spec fn same_structure(pre: Hydroflow, post: Hydroflow) -> bool {
    &&& post.handoffs@.len() == pre.handoffs@.len()
    &&& forall|h: int|
        0 <= h < pre.handoffs@.len() ==> #[trigger] post.handoffs@[h].same_shape(
            &pre.handoffs@[h],
        )
    &&& post.subgraphs@.len() == pre.subgraphs@.len()
    &&& forall|j: int|
        0 <= j < pre.subgraphs@.len() ==> {
            let a = #[trigger] post.subgraphs@[j];
            let b = pre.subgraphs@[j];
            a.name == b.name && a.recvs == b.recvs && a.sends == b.sends && a.stages == b.stages
                && (a.source is Ports <==> b.source is Ports) && (a.source is Buffer <==> b.source
                is Buffer) && (a.source is Channel <==> b.source is Channel)
        }
    &&& post.consumers@ == pre.consumers@
    &&& post.producers@ == pre.producers@
    &&& post.runs@.len() == pre.runs@.len()
    &&& post.enq@.len() == pre.enq@.len()
}

/// Whether every wired edge of `g` runs forward, producer to a
/// consumer with a larger identifier — a graph with no feedback loops.
/// For such graphs one tick is a complete local fixpoint: it leaves the
/// ready queue empty.
pub open spec fn forward_edges_only(g: Hydroflow) -> bool {
    forall|h: int, r: int|
        0 <= h < g.handoffs@.len() && 0 <= r < g.consumers@[h]@.len() ==> producer_below(
            g.producers@[h],
            #[trigger] g.consumers@[h]@[r],
        )
}

/// One scheduling turn links state `a` to state `b`: some queue entry
/// is consumed and its subgraph's full effect (see [`step_effect`])
/// takes place, on the batch its source holds — or on some batch another
/// thread sent, for a channel source.
pub open spec fn step_linked(a: Hydroflow, b: Hydroflow) -> bool {
    exists|qi: int|
        0 <= qi < a.queue@.len() && (step_effect(a, b, qi, input_of(a, #[trigger] a.queue@[qi] as int))
            || (a.subgraphs@[a.queue@[qi] as int].source is Channel && exists|vs: Seq<i64>|
            step_effect(a, b, qi, vs)))
}

/// A chain of states, each reached from the last by one scheduling
/// turn.
pub open spec fn trace_ok(trace: Seq<Hydroflow>) -> bool {
    forall|i: int| 0 <= i < trace.len() - 1 ==> #[trigger] step_linked(trace[i], trace[i + 1])
}

/// How a tick admits externally triggered identifiers before running:
/// `s0` is `pre` with the batch `drained` of valid identifiers appended
/// to the ready queue and accounted as enqueues; nothing else moves.
pub open spec fn events_admitted(pre: Hydroflow, s0: Hydroflow, drained: Seq<usize>) -> bool {
    &&& s0.handoffs@ == pre.handoffs@
    &&& s0.subgraphs@ == pre.subgraphs@
    &&& s0.consumers@ == pre.consumers@
    &&& s0.producers@ == pre.producers@
    &&& s0.runs@ == pre.runs@
    &&& s0.queue@ == pre.queue@ + drained
    &&& forall|q: int| 0 <= q < drained.len() ==> #[trigger] drained[q] < pre.subgraphs@.len()
    &&& s0.enq@.len() == pre.enq@.len()
    &&& forall|j: int|
        0 <= j < pre.enq@.len() ==> #[trigger] s0.enq@[j] == pre.enq@[j] + count_in(drained, j)
}

pub proof fn lemma_trace_ok_push(t: Seq<Hydroflow>, s: Hydroflow)
    requires
        t.len() >= 1,
        trace_ok(t),
        step_linked(t.last(), s),
    ensures
        trace_ok(t.push(s)),
{
    let u = t.push(s);
    assert forall|i: int| 0 <= i < u.len() - 1 implies #[trigger] step_linked(u[i], u[i + 1]) by {
        if i < t.len() - 1 {
            assert(u[i] == t[i]);
            assert(u[i + 1] == t[i + 1]);
            assert(step_linked(t[i], t[i + 1]));
        } else {
            assert(u[i] == t[i]);
            assert(t[i] == t.last());
            assert(u[i + 1] == s);
        }
    }
}

/// The full effect of one scheduling turn on the subgraph at queue
/// position `qi`, fed batch `input`: its run count goes up by one; the
/// reader slots it drains are emptied; the stage pipeline's output is
/// merged into every handoff it feeds; a sink appends the output to its
/// collection; and when the run produced items, the consumers of the
/// fed handoffs are enqueued, in wiring order.
pub open spec fn step_effect(
    pre: Hydroflow,
    post: Hydroflow,
    qi: int,
    input: Seq<i64>,
) -> bool {
    let id = pre.queue@[qi] as int;
    let sg = pre.subgraphs@[id];
    let out = apply_stages(sg.stages@, input);
    &&& forall|h: int, r: int|
        0 <= h < pre.handoffs@.len() && 0 <= r < pre.handoffs@[h].reader_count()
            ==> #[trigger] post.handoffs@[h].contents(r) == {
            let mid = if reads_slot(sg.recvs@, h, r) {
                Seq::<i64>::empty()
            } else {
                pre.handoffs@[h].contents(r)
            };
            if sends_to(sg.sends@, h) {
                merged(mid, pre.handoffs@[h].overwrites(), out)
            } else {
                mid
            }
        }
    &&& post.queue@ == pre.queue@.remove(qi) + enqueue_list(pre, id, out.len())
    &&& forall|j: int|
        0 <= j < pre.subgraphs@.len() && j != id ==> #[trigger] post.subgraphs@[j]
            == pre.subgraphs@[j]
    &&& post.subgraphs@[id].collected@ == (if sg.sends@.len() == 0 {
        sg.collected@ + out
    } else {
        sg.collected@
    })
    &&& post.subgraphs@[id].source.buffer_view() == Seq::<i64>::empty()
    &&& (sg.source is Ports ==> post.subgraphs@[id].source == sg.source)
    &&& post.runs@ == pre.runs@.update(id, (pre.runs@[id] + 1) as nat)
    &&& forall|j: int|
        0 <= j < pre.enq@.len() ==> #[trigger] post.enq@[j] == pre.enq@[j] + count_in(
            enqueue_list(pre, id, out.len()),
            j,
        )
}

pub proof fn lemma_reads_slot_push(recvs: Seq<RecvPort>, p: RecvPort, h: int, r: int)
    ensures
        reads_slot(recvs.push(p), h, r) <==> (reads_slot(recvs, h, r) || (p.hof_id() == h
            && p.reader_id() == r)),
{
    if reads_slot(recvs, h, r) {
        let w = choose|w: int|
            0 <= w < recvs.len() && (#[trigger] recvs[w]).hof_id() == h && recvs[w].reader_id()
                == r;
        assert(recvs.push(p)[w] == recvs[w]);
    }
    if p.hof_id() == h && p.reader_id() == r {
        assert(recvs.push(p)[recvs.len() as int] == p);
    }
    if reads_slot(recvs.push(p), h, r) {
        let w = choose|w: int|
            0 <= w < recvs.push(p).len() && (#[trigger] recvs.push(p)[w]).hof_id() == h
                && recvs.push(p)[w].reader_id() == r;
        if w < recvs.len() {
            assert(recvs[w] == recvs.push(p)[w]);
        } else {
            assert(recvs.push(p)[w] == p);
        }
    }
}

pub proof fn lemma_sends_to_push(sends: Seq<SendPort>, p: SendPort, h: int)
    ensures
        sends_to(sends.push(p), h) <==> (sends_to(sends, h) || p.hof_id() == h),
{
    if sends_to(sends, h) {
        let w = choose|w: int| 0 <= w < sends.len() && (#[trigger] sends[w]).hof_id() == h;
        assert(sends.push(p)[w] == sends[w]);
    }
    if p.hof_id() == h {
        assert(sends.push(p)[sends.len() as int] == p);
    }
    if sends_to(sends.push(p), h) {
        let w = choose|w: int|
            0 <= w < sends.push(p).len() && (#[trigger] sends.push(p)[w]).hof_id() == h;
        if w < sends.len() {
            assert(sends[w] == sends.push(p)[w]);
        } else {
            assert(sends.push(p)[w] == p);
        }
    }
}

pub proof fn lemma_count_in_remove(s: Seq<usize>, i: int, j: int)
    requires
        0 <= i < s.len(),
    ensures
        count_in(s.remove(i), j) == count_in(s, j) - (if s[i] == j {
            1nat
        } else {
            0nat
        }),
    decreases s.len(),
{
    assert(count_in(s, j) == (if s[0] == j {
        1nat
    } else {
        0nat
    }) + count_in(s.drop_first(), j));
    if i == 0 {
        assert(s.remove(0) =~= s.drop_first());
    } else {
        assert(s.remove(i).drop_first() =~= s.drop_first().remove(i - 1));
        assert(s.remove(i)[0] == s[0]);
        assert(s.drop_first()[i - 1] == s[i]);
        lemma_count_in_remove(s.drop_first(), i - 1, j);
        assert(count_in(s.remove(i), j) == (if s[0] == j {
            1nat
        } else {
            0nat
        }) + count_in(s.remove(i).drop_first(), j));
    }
}

/// An input that drains to nothing has every drained slot already empty.
pub proof fn lemma_drains_empty_parts(g: Hydroflow, recvs: Seq<RecvPort>)
    requires
        drains(g, recvs).len() == 0,
    ensures
        forall|k: int|
            0 <= k < recvs.len() ==> (#[trigger] g.handoffs@[recvs[k].hof_id()].contents(
                recvs[k].reader_id(),
            )).len() == 0,
    decreases recvs.len(),
{
    if recvs.len() == 0 {
    } else {
        lemma_drains_empty_parts(g, recvs.drop_first());
        assert forall|k: int|
            0 <= k < recvs.len() implies (#[trigger] g.handoffs@[recvs[k].hof_id()].contents(
            recvs[k].reader_id(),
        )).len() == 0 by {
            if k > 0 {
                assert(recvs.drop_first()[k - 1] == recvs[k]);
            }
        }
    }
}

pub proof fn lemma_row_consumers_above(row: Seq<Option<usize>>, b: int)
    requires
        forall|r: int|
            0 <= r < row.len() ==> match #[trigger] row[r] {
                Some(c) => c > b,
                None => true,
            },
    ensures
        forall|q: int|
            0 <= q < row_consumers(row).len() ==> #[trigger] row_consumers(row)[q] > b,
    decreases row.len(),
{
    if row.len() == 0 {
    } else {
        assert forall|r: int|
            0 <= r < row.drop_first().len() implies match #[trigger] row.drop_first()[r] {
            Some(c) => c > b,
            None => true,
        } by {
            assert(row.drop_first()[r] == row[r + 1]);
        }
        lemma_row_consumers_above(row.drop_first(), b);
        let head = (match row[0] {
            Some(c) => seq![c],
            None => Seq::<usize>::empty(),
        });
        assert forall|q: int|
            0 <= q < row_consumers(row).len() implies #[trigger] row_consumers(row)[q] > b by {
            assert(row_consumers(row) == head + row_consumers(row.drop_first()));
            if q < head.len() {
                assert(row[0] is Some);
            } else {
                assert(row_consumers(row)[q] == row_consumers(row.drop_first())[q - head.len()]);
            }
        }
    }
}

pub proof fn lemma_sends_consumers_above(g: Hydroflow, sends: Seq<SendPort>, b: int)
    requires
        forall|k: int|
            0 <= k < sends.len() ==> 0 <= #[trigger] sends[k].hof_id() < g.consumers@.len(),
        forall|k: int, r: int|
            0 <= k < sends.len() && 0 <= r < g.consumers@[sends[k].hof_id()]@.len()
                ==> match #[trigger] g.consumers@[sends[k].hof_id()]@[r] {
                Some(c) => c > b,
                None => true,
            },
    ensures
        forall|q: int|
            0 <= q < sends_consumers(g, sends).len() ==> #[trigger] sends_consumers(g, sends)[q]
                > b,
    decreases sends.len(),
{
    if sends.len() == 0 {
    } else {
        assert forall|k: int|
            0 <= k < sends.drop_first().len() implies 0 <= (#[trigger] sends.drop_first()[k]).hof_id()
            < g.consumers@.len() by {
            assert(sends.drop_first()[k] == sends[k + 1]);
        }
        assert forall|k: int, r: int|
            0 <= k < sends.drop_first().len() && 0 <= r < g.consumers@[sends.drop_first()[k].hof_id()]@.len()
                implies match #[trigger] g.consumers@[sends.drop_first()[k].hof_id()]@[r] {
            Some(c) => c > b,
            None => true,
        } by {
            assert(sends.drop_first()[k] == sends[k + 1]);
        }
        lemma_sends_consumers_above(g, sends.drop_first(), b);
        let row = g.consumers@[sends[0].hof_id()]@;
        lemma_row_consumers_above(row, b);
        let head = row_consumers(row);
        assert forall|q: int|
            0 <= q < sends_consumers(g, sends).len() implies #[trigger] sends_consumers(g, sends)[q]
            > b by {
            assert(sends_consumers(g, sends) == head + sends_consumers(g, sends.drop_first()));
            if q >= head.len() {
                assert(sends_consumers(g, sends)[q] == sends_consumers(g, sends.drop_first())[q
                    - head.len()]);
            }
        }
    }
}

/// In a graph with only forward edges, everything a run enqueues lies
/// strictly downstream: consumers carry larger identifiers than the
/// producer that scheduled them.
pub proof fn lemma_enqueue_list_above(g: Hydroflow, id: usize, out_len: nat)
    requires
        g.wf(),
        forward_edges_only(g),
        id < g.subgraphs@.len(),
    ensures
        forall|q: int|
            0 <= q < enqueue_list(g, id as int, out_len).len() ==> #[trigger] enqueue_list(
                g,
                id as int,
                out_len,
            )[q] > id,
{
    let id = id as int;
    if out_len == 0 {
    } else {
        let sends = g.subgraphs@[id].sends@;
        assert(g.sg_wf(id));
        assert forall|k: int, r: int|
            0 <= k < sends.len() && 0 <= r < g.consumers@[sends[k].hof_id()]@.len()
                implies match #[trigger] g.consumers@[sends[k].hof_id()]@[r] {
            Some(c) => c > id,
            None => true,
        } by {
            let h = sends[k].hof_id();
            assert(g.sg_wf(id));
            assert(0 <= h < g.handoffs@.len());
            assert(g.producers@[g.subgraphs@[id].sends@[k].hof_id()] == Some(id as usize));
            assert(g.producers@[h] == Some(id as usize));
            assert((id as usize) as int == id);
            assert(producer_below(g.producers@[h], g.consumers@[h]@[r]));
            if g.consumers@[h]@[r] is Some {
                assert(match (g.producers@[h], g.consumers@[h]@[r]) {
                    (Some(p), Some(c)) => p < c,
                    _ => true,
                });
            }
        }
        assert forall|k: int|
            0 <= k < sends.len() implies 0 <= (#[trigger] sends[k]).hof_id()
            < g.consumers@.len() by {
            assert(g.sg_wf(id));
        }
        lemma_sends_consumers_above(g, sends, id);
    }
}

/// Law: scheduling conserves triggers — at any well-formed state, the
/// number of times a subgraph has been enqueued equals the number of
/// times it has run plus its pending occurrences in the ready queue, so
/// every enqueue leads to exactly one run once the queue drains.
pub proof fn lemma_enqueue_run_conservation(g: Hydroflow, id: int)
    requires
        g.wf(),
        0 <= id < g.subgraphs@.len(),
    ensures
        g.enq@[id] == g.runs@[id] + count_in(g.queue@, id),
{
}

/// Law: a run of a subgraph whose input is already drained moves no
/// data and enqueues nothing — its queue entry is simply consumed.  This
/// is why a tick terminates once handoffs are drained and no further
/// enqueue occurs: each remaining queue entry is popped exactly once.
pub proof fn lemma_quiescent_run(pre: Hydroflow, post: Hydroflow, qi: int)
    requires
        pre.wf(),
        0 <= qi < pre.queue@.len(),
        input_of(pre, pre.queue@[qi] as int) == Seq::<i64>::empty(),
        !(pre.subgraphs@[pre.queue@[qi] as int].source is Channel),
        step_effect(pre, post, qi, input_of(pre, pre.queue@[qi] as int)),
    ensures
        post.queue@ == pre.queue@.remove(qi),
        forall|h: int, r: int|
            0 <= h < pre.handoffs@.len() && 0 <= r < pre.handoffs@[h].reader_count()
                ==> #[trigger] post.handoffs@[h].contents(r) == pre.handoffs@[h].contents(r),
        post.subgraphs@[pre.queue@[qi] as int].collected@ == pre.subgraphs@[pre.queue@[qi] as int].collected@,
{
    let id = pre.queue@[qi] as int;
    let sg = pre.subgraphs@[id];
    lemma_apply_stages_empty(sg.stages@);
    let out = apply_stages(sg.stages@, Seq::<i64>::empty());
    assert(out.len() == 0);
    assert(post.queue@ =~= pre.queue@.remove(qi));
    assert(sg.collected@ + out =~= sg.collected@);
    if sg.source is Ports {
        lemma_drains_empty_parts(pre, sg.recvs@);
    }
    assert(pre.sg_wf(id));
    assert forall|h: int, r: int|
        0 <= h < pre.handoffs@.len() && 0 <= r < pre.handoffs@[h].reader_count()
            implies #[trigger] post.handoffs@[h].contents(r) == pre.handoffs@[h].contents(r) by {
        let mid = if reads_slot(sg.recvs@, h, r) {
            Seq::<i64>::empty()
        } else {
            pre.handoffs@[h].contents(r)
        };
        if reads_slot(sg.recvs@, h, r) {
            let w = choose|w: int|
                0 <= w < sg.recvs@.len() && (#[trigger] sg.recvs@[w]).hof_id() == h
                    && sg.recvs@[w].reader_id() == r;
            assert(pre.handoffs@[h].contents(r).len() == 0);
            assert(mid =~= pre.handoffs@[h].contents(r));
        }
        if sends_to(sg.sends@, h) {
            assert(merged(mid, pre.handoffs@[h].overwrites(), out) =~= mid);
        }
    }
}

impl Hydroflow {
    /// Run the subgraph at queue position `qi` once: drain its input,
    /// apply its stages, feed its send ports (or its collection, for a
    /// sink), and enqueue the consumers of every handoff that received
    /// items.  A channel source is drained up to its capacity in one
    /// run; anything sent concurrently waits for a later trigger.
    fn step_at(&mut self, qi: usize)
        requires
            old(self).wf(),
            qi < old(self).queue@.len(),
        ensures
            final(self).wf(),
            same_structure(*old(self), *final(self)),
            ({
                let id = old(self).queue@[qi as int] as int;
                ||| step_effect(*old(self), *final(self), qi as int, input_of(*old(self), id))
                ||| (old(self).subgraphs@[id].source is Channel && exists|vs: Seq<i64>|
                    step_effect(*old(self), *final(self), qi as int, vs))
            }),
    {
        let ghost pre = *old(self);
        let id = self.queue.remove(qi);
        proof {
            assert(pre.queue@[qi as int] == id);
            self.runs@ = self.runs@.update(id as int, (self.runs@[id as int] + 1) as nat);
            assert(pre.sg_wf(id as int));
        }
        let mut sg = self.subgraphs.remove(id);
        let ghost presg = pre.subgraphs@[id as int];
        assert(sg == presg);

        // Gather the input batch.
        let mut input: Vec<i64> = Vec::new();
        let mut src = SourceKind::Ports;
        core::mem::swap(&mut sg.source, &mut src);
        match src {
            SourceKind::Ports => {
                sg.source = SourceKind::Ports;
                proof {
                    assert(sg.recvs@.take(0) =~= Seq::<RecvPort>::empty());
                    assert(input@ =~= drains(pre, sg.recvs@.take(0)));
                }
                let mut k: usize = 0;
                while k < sg.recvs.len()
                    invariant
                        pre.wf(),
                        0 <= id < pre.subgraphs@.len(),
                        pre.sg_wf(id as int),
                        qi < pre.queue@.len(),
                        sg.recvs@ == presg.recvs@,
                        presg == pre.subgraphs@[id as int],
                        k <= sg.recvs@.len(),
                        self.handoffs@.len() == pre.handoffs@.len(),
                        forall|h: int|
                            0 <= h < pre.handoffs@.len()
                                ==> #[trigger] self.handoffs@[h].same_shape(&pre.handoffs@[h]),
                        forall|h: int, r: int|
                            0 <= h < pre.handoffs@.len() && 0 <= r
                                < pre.handoffs@[h].reader_count()
                                ==> #[trigger] self.handoffs@[h].contents(r) == (if reads_slot(
                                sg.recvs@.take(k as int),
                                h,
                                r,
                            ) {
                                Seq::<i64>::empty()
                            } else {
                                pre.handoffs@[h].contents(r)
                            }),
                        input@ == drains(pre, sg.recvs@.take(k as int)),
                        self.subgraphs@ == pre.subgraphs@.remove(id as int),
                        self.queue@ == pre.queue@.remove(qi as int),
                        self.consumers@ == pre.consumers@,
                        self.producers@ == pre.producers@,
                        self.runs@ == pre.runs@.update(
                            id as int,
                            (pre.runs@[id as int] + 1) as nat,
                        ),
                        self.enq@ == pre.enq@,
                    decreases sg.recvs@.len() - k,
                {
                    let h = sg.recvs[k].hof_index();
                    let r = sg.recvs[k].reader_index();
                    let ghost p = sg.recvs@[k as int];
                    proof {
                        assert(0 <= h < pre.handoffs@.len());
                        assert(0 <= r < pre.handoffs@[h as int].reader_count());
                        assert(self.handoffs@[h as int].same_shape(&pre.handoffs@[h as int]));
                        // This slot was not drained yet: receive slots are distinct.
                        if reads_slot(sg.recvs@.take(k as int), h as int, r as int) {
                            let w = choose|w: int|
                                0 <= w < k && (#[trigger] sg.recvs@.take(k as int)[w]).hof_id()
                                    == h && sg.recvs@.take(k as int)[w].reader_id() == r;
                            assert(sg.recvs@[w] == sg.recvs@.take(k as int)[w]);
                            assert(false);
                        }
                    }
                    let ghost hofs0 = self.handoffs@;
                    let mut hof = self.handoffs.remove(h);
                    let mut got = hof.drain(r);
                    let ghost hof_after = hof;
                    self.handoffs.insert(h, hof);
                    proof {
                        assert(self.handoffs@ =~= hofs0.update(h as int, hof_after));
                    }
                    input.append(&mut got);
                    proof {
                        assert(sg.recvs@.take(k + 1 as int) =~= sg.recvs@.take(k as int).push(p));
                        lemma_drains_snoc(pre, sg.recvs@.take(k as int), p);
                        assert forall|h2: int, r2: int|
                            0 <= h2 < pre.handoffs@.len() && 0 <= r2
                                < pre.handoffs@[h2].reader_count()
                                implies #[trigger] self.handoffs@[h2].contents(r2) == (
                        if reads_slot(sg.recvs@.take(k + 1 as int), h2, r2) {
                            Seq::<i64>::empty()
                        } else {
                            pre.handoffs@[h2].contents(r2)
                        }) by {
                            lemma_reads_slot_push(sg.recvs@.take(k as int), p, h2, r2);
                        }
                    }
                    k = k + 1;
                }
                proof {
                    assert(sg.recvs@.take(sg.recvs@.len() as int) =~= sg.recvs@);
                    assert(input@ == input_of(pre, id as int));
                }
            },
            SourceKind::Buffer(b) => {
                let mut buf = b;
                input.append(&mut buf);
                sg.source = SourceKind::Buffer(buf);
                proof {
                    assert(input@ == input_of(pre, id as int));
                }
            },
            SourceKind::Channel(rx) => {
                let mut budget: usize = CHANNEL_INPUT_CAP;
                while budget > 0
                    invariant
                        true,
                    decreases budget,
                {
                    match try_recv_one(&rx) {
                        Some(v) => {
                            input.push(v);
                        },
                        None => {
                            break;
                        },
                    }
                    budget = budget - 1;
                }
                sg.source = SourceKind::Channel(rx);
            },
        }
        let ghost input_snap = input@;
        proof {
            if !(presg.source is Channel) {
                assert(input_snap == input_of(pre, id as int));
            }
            if !(presg.source is Ports) {
                assert(sg.recvs@.len() == 0);
                assert forall|h: int, r: int|
                    0 <= h < pre.handoffs@.len() && 0 <= r < pre.handoffs@[h].reader_count()
                        implies #[trigger] self.handoffs@[h].contents(r) == (if reads_slot(
                    sg.recvs@,
                    h,
                    r,
                ) {
                    Seq::<i64>::empty()
                } else {
                    pre.handoffs@[h].contents(r)
                }) by {}
            }
        }

        // Transform.
        let out = run_stages(&sg.stages, input);

        // Feed the send ports.
        let ghost mid = *self;
        proof {
            assert(sg.sends@.take(0) =~= Seq::<SendPort>::empty());
        }
        let mut k: usize = 0;
        while k < sg.sends.len()
            invariant
                pre.wf(),
                0 <= id < pre.subgraphs@.len(),
                pre.sg_wf(id as int),
                sg.sends@ == presg.sends@,
                presg == pre.subgraphs@[id as int],
                k <= sg.sends@.len(),
                self.handoffs@.len() == pre.handoffs@.len(),
                mid.handoffs@.len() == pre.handoffs@.len(),
                forall|h: int|
                    0 <= h < pre.handoffs@.len() ==> #[trigger] mid.handoffs@[h].same_shape(
                        &pre.handoffs@[h],
                    ),
                forall|h: int|
                    0 <= h < pre.handoffs@.len() ==> #[trigger] self.handoffs@[h].same_shape(
                        &pre.handoffs@[h],
                    ),
                forall|h: int, r: int|
                    0 <= h < pre.handoffs@.len() && 0 <= r < pre.handoffs@[h].reader_count()
                        ==> #[trigger] self.handoffs@[h].contents(r) == (if sends_to(
                        sg.sends@.take(k as int),
                        h,
                    ) {
                        merged(mid.handoffs@[h].contents(r), pre.handoffs@[h].overwrites(), out@)
                    } else {
                        mid.handoffs@[h].contents(r)
                    }),
                self.subgraphs@ == mid.subgraphs@,
                self.queue@ == mid.queue@,
                self.consumers@ == mid.consumers@,
                self.producers@ == mid.producers@,
                self.runs@ == mid.runs@,
                self.enq@ == mid.enq@,
            decreases sg.sends@.len() - k,
        {
            let h = sg.sends[k].hof_index();
            let ghost p = sg.sends@[k as int];
            proof {
                assert(0 <= h < pre.handoffs@.len());
                if sends_to(sg.sends@.take(k as int), h as int) {
                    let w = choose|w: int|
                        0 <= w < k && (#[trigger] sg.sends@.take(k as int)[w]).hof_id() == h;
                    assert(sg.sends@[w] == sg.sends@.take(k as int)[w]);
                    assert(false);
                }
            }
            let ghost hofs0 = self.handoffs@;
            let mut hof = self.handoffs.remove(h);
            let ghost hof_before = hof;
            hof.give_all(&out);
            let ghost hof_after = hof;
            self.handoffs.insert(h, hof);
            proof {
                assert(self.handoffs@ =~= hofs0.update(h as int, hof_after));
                assert(sg.sends@.take(k + 1 as int) =~= sg.sends@.take(k as int).push(p));
                assert(hof_before == hofs0[h as int]);
                assert(hof_after.same_shape(&hof_before));
                assert(hofs0[h as int].same_shape(&pre.handoffs@[h as int]));
                assert forall|h2: int|
                    0 <= h2 < pre.handoffs@.len() implies #[trigger] self.handoffs@[h2].same_shape(
                    &pre.handoffs@[h2],
                ) by {
                    if h2 != h {
                        assert(self.handoffs@[h2] == hofs0[h2]);
                        assert(hofs0[h2].same_shape(&pre.handoffs@[h2]));
                    } else {
                        assert(self.handoffs@[h2] == hof_after);
                    }
                }
                assert forall|h2: int, r2: int|
                    0 <= h2 < pre.handoffs@.len() && 0 <= r2 < pre.handoffs@[h2].reader_count()
                        implies #[trigger] self.handoffs@[h2].contents(r2) == (if sends_to(
                    sg.sends@.take(k + 1 as int),
                    h2,
                ) {
                    merged(mid.handoffs@[h2].contents(r2), pre.handoffs@[h2].overwrites(), out@)
                } else {
                    mid.handoffs@[h2].contents(r2)
                }) by {
                    lemma_sends_to_push(sg.sends@.take(k as int), p, h2);
                    if h2 == h as int {
                        assert(self.handoffs@[h2] == hof_after);
                        assert(hofs0[h2].same_shape(&pre.handoffs@[h2]));
                        assert(r2 < hof_before.reader_count());
                        assert(hof_after.contents(r2) == merged(
                            hof_before.contents(r2),
                            hof_before.overwrites(),
                            out@,
                        ));
                        assert(hof_before.overwrites() == pre.handoffs@[h2].overwrites());
                        assert(!sends_to(sg.sends@.take(k as int), h2));
                        assert(hof_before.contents(r2) == mid.handoffs@[h2].contents(r2));
                    } else {
                        assert(self.handoffs@[h2] == hofs0[h2]);
                    }
                }
            }
            k = k + 1;
        }
        proof {
            assert(sg.sends@.take(sg.sends@.len() as int) =~= sg.sends@);
        }

        // Enqueue the consumers of the fed handoffs.
        let ghost mid2 = *self;
        if out.len() > 0 {
            proof {
                assert(sg.sends@.take(0) =~= Seq::<SendPort>::empty());
                assert(self.queue@ + sends_consumers(pre, sg.sends@.take(0)) =~= self.queue@);
            }
            let mut k: usize = 0;
            while k < sg.sends.len()
                invariant
                    pre.wf(),
                    0 <= id < pre.subgraphs@.len(),
                    pre.sg_wf(id as int),
                    sg.sends@ == presg.sends@,
                    presg == pre.subgraphs@[id as int],
                    k <= sg.sends@.len(),
                    self.consumers@ == pre.consumers@,
                    self.producers@ == mid2.producers@,
                    self.handoffs@ == mid2.handoffs@,
                    self.subgraphs@ == mid2.subgraphs@,
                    self.runs@ == mid2.runs@,
                    mid2.queue@ == pre.queue@.remove(qi as int),
                    mid2.enq@ == pre.enq@,
                    pre.enq@.len() == pre.subgraphs@.len(),
                    self.queue@ == mid2.queue@ + sends_consumers(pre, sg.sends@.take(k as int)),
                    self.enq@.len() == pre.enq@.len(),
                    forall|j: int|
                        0 <= j < pre.enq@.len() ==> #[trigger] self.enq@[j] == pre.enq@[j]
                            + count_in(sends_consumers(pre, sg.sends@.take(k as int)), j),
                    forall|q: int|
                        0 <= q < self.queue@.len() ==> #[trigger] self.queue@[q]
                            < pre.subgraphs@.len(),
                decreases sg.sends@.len() - k,
            {
                let h = sg.sends[k].hof_index();
                let ghost p = sg.sends@[k as int];
                proof {
                    assert(0 <= h < pre.handoffs@.len());
                    assert(pre.consumers@[h as int]@.len()
                        == pre.handoffs@[h as int].reader_count());
                }
                let ghost row = pre.consumers@[h as int]@;
                let row_len = self.consumers[h].len();
                proof {
                    assert(row.take(0) =~= Seq::<Option<usize>>::empty());
                    assert(self.queue@ + row_consumers(row.take(0)) =~= self.queue@);
                }
                let mut r: usize = 0;
                while r < row_len
                    invariant
                        pre.wf(),
                        0 <= h < pre.consumers@.len(),
                        row == pre.consumers@[h as int]@,
                        row_len == row.len(),
                        r <= row.len(),
                        self.consumers@ == pre.consumers@,
                        self.producers@ == mid2.producers@,
                        self.handoffs@ == mid2.handoffs@,
                        self.subgraphs@ == mid2.subgraphs@,
                        self.runs@ == mid2.runs@,
                        pre.enq@.len() == pre.subgraphs@.len(),
                        self.enq@.len() == pre.enq@.len(),
                        self.queue@ == mid2.queue@ + sends_consumers(
                            pre,
                            sg.sends@.take(k as int),
                        ) + row_consumers(row.take(r as int)),
                        forall|j: int|
                            0 <= j < pre.enq@.len() ==> #[trigger] self.enq@[j] == pre.enq@[j]
                                + count_in(
                                sends_consumers(pre, sg.sends@.take(k as int)) + row_consumers(
                                    row.take(r as int),
                                ),
                                j,
                            ),
                        forall|q: int|
                            0 <= q < self.queue@.len() ==> #[trigger] self.queue@[q]
                                < pre.subgraphs@.len(),
                    decreases row.len() - r,
                {
                    let row_ref = &self.consumers[h];
                    let c = row_ref[r];
                    proof {
                        assert(c == row[r as int]);
                        assert(row.take(r + 1 as int) =~= row.take(r as int).push(row[r as int]));
                        lemma_row_consumers_snoc(row.take(r as int), row[r as int]);
                    }
                    match c {
                        Some(cid) => {
                            self.queue.push(cid);
                            proof {
                                self.enq@ = self.enq@.update(
                                    cid as int,
                                    (self.enq@[cid as int] + 1) as nat,
                                );
                                assert(cid < pre.subgraphs@.len());
                                let partial = sends_consumers(pre, sg.sends@.take(k as int))
                                    + row_consumers(row.take(r as int));
                                assert forall|j: int|
                                    0 <= j < pre.enq@.len() implies #[trigger] self.enq@[j]
                                    == pre.enq@[j] + count_in(partial.push(cid), j) by {
                                    lemma_count_in_push(partial, cid, j);
                                }
                                assert(sends_consumers(pre, sg.sends@.take(k as int))
                                    + row_consumers(row.take(r + 1 as int)) =~= partial.push(
                                    cid,
                                ));
                            }
                        },
                        None => {
                            proof {
                                assert(sends_consumers(pre, sg.sends@.take(k as int))
                                    + row_consumers(row.take(r + 1 as int)) =~= sends_consumers(
                                    pre,
                                    sg.sends@.take(k as int),
                                ) + row_consumers(row.take(r as int)));
                            }
                        },
                    }
                    r = r + 1;
                }
                proof {
                    assert(row.take(row.len() as int) =~= row);
                    assert(sg.sends@.take(k + 1 as int) =~= sg.sends@.take(k as int).push(p));
                    lemma_sends_consumers_snoc(pre, sg.sends@.take(k as int), p);
                }
                k = k + 1;
            }
            proof {
                assert(sg.sends@.take(sg.sends@.len() as int) =~= sg.sends@);
            }
        }

        // A sink collects its output.
        if sg.sends.len() == 0 {
            let mut produced = out;
            sg.collected.append(&mut produced);
        }
        let ghost sg_fin = sg;
        self.subgraphs.insert(id, sg);

        // Re-establish well-formedness and the step's effect.
        proof {
            let ghost el = enqueue_list(pre, id as int, apply_stages(presg.stages@, input_snap).len());
            assert(self.handoffs@ == mid2.handoffs@);
            assert(self.handoffs@.len() == pre.handoffs@.len());
            assert forall|h: int|
                0 <= h < pre.handoffs@.len() implies #[trigger] self.handoffs@[h].same_shape(
                &pre.handoffs@[h],
            ) by {
                assert(self.handoffs@[h] == mid2.handoffs@[h]);
                assert(mid2.handoffs@[h].same_shape(&pre.handoffs@[h]));
            }
            assert forall|h: int|
                0 <= h < pre.handoffs@.len() implies #[trigger] self.handoffs@[h].reader_count()
                == pre.handoffs@[h].reader_count() by {
                assert(self.handoffs@[h].same_shape(&pre.handoffs@[h]));
            }
            assert forall|h: int, r: int|
                0 <= h < pre.handoffs@.len() && 0 <= r < pre.handoffs@[h].reader_count()
                    implies #[trigger] self.handoffs@[h].contents(r) == (if sends_to(
                presg.sends@,
                h,
            ) {
                merged(mid.handoffs@[h].contents(r), pre.handoffs@[h].overwrites(), out@)
            } else {
                mid.handoffs@[h].contents(r)
            }) by {
                assert(self.handoffs@[h] == mid2.handoffs@[h]);
            }
            assert(self.subgraphs@ =~= pre.subgraphs@.update(id as int, sg_fin));
            if out@.len() == 0 {
                assert(el =~= Seq::<usize>::empty());
                assert(self.queue@ =~= pre.queue@.remove(qi as int) + el);
                assert forall|j: int| 0 <= j < pre.enq@.len() implies #[trigger] self.enq@[j]
                    == pre.enq@[j] + count_in(el, j) by {}
            } else {
                assert(el == sends_consumers(pre, presg.sends@));
            }
            if presg.sends@.len() == 0 {
                assert(sg_fin.collected@ == presg.collected@ + out@);
            } else {
                assert(sg_fin.collected@ == presg.collected@);
            }
            // Queue entries stay valid.
            assert forall|q: int| 0 <= q < self.queue@.len() implies #[trigger] self.queue@[q]
                < self.subgraphs@.len() by {
                if out@.len() == 0 {
                    assert(self.queue@[q] == pre.queue@.remove(qi as int)[q]);
                    if q < qi {
                        assert(pre.queue@.remove(qi as int)[q] == pre.queue@[q]);
                    } else {
                        assert(pre.queue@.remove(qi as int)[q] == pre.queue@[q + 1]);
                    }
                }
            }
            // Conservation.
            assert forall|i: int| 0 <= i < self.subgraphs@.len() implies #[trigger] self.enq@[i]
                == self.runs@[i] + count_in(self.queue@, i) by {
                lemma_count_in_concat(pre.queue@.remove(qi as int), el, i);
                lemma_count_in_remove(pre.queue@, qi as int, i);
                if out@.len() == 0 {
                    assert(self.queue@ =~= pre.queue@.remove(qi as int) + el);
                }
            }
            // The run changed only data, never structure.
            assert(sg_fin.recvs == presg.recvs);
            assert(sg_fin.sends == presg.sends);
            assert(sg_fin.stages == presg.stages);
            assert(sg_fin.name == presg.name);
            assert(presg.source is Ports <==> sg_fin.source is Ports);
            assert(presg.source is Buffer <==> sg_fin.source is Buffer);
            assert(presg.source is Channel <==> sg_fin.source is Channel);
            // Each subgraph still well-formed.
            assert forall|i: int| 0 <= i < self.subgraphs@.len() implies #[trigger] self.sg_wf(
                i,
            ) by {
                assert(pre.sg_wf(i));
                let sgv = if i == id {
                    presg
                } else {
                    pre.subgraphs@[i]
                };
                if i != id {
                    assert(self.subgraphs@[i] == pre.subgraphs@[i]);
                } else {
                    assert(self.subgraphs@[i] == sg_fin);
                    assert(sg_fin.recvs@ == presg.recvs@);
                    assert(sg_fin.sends@ == presg.sends@);
                }
                assert(self.subgraphs@[i].recvs@ == sgv.recvs@);
                assert(self.subgraphs@[i].sends@ == sgv.sends@);
                assert forall|k3: int|
                    0 <= k3 < self.subgraphs@[i].recvs@.len() implies 0 <= (
                #[trigger] self.subgraphs@[i].recvs@[k3]).hof_id() < self.handoffs@.len() && 0
                    <= self.subgraphs@[i].recvs@[k3].reader_id() < self.handoffs@[self.subgraphs@[i].recvs@[k3].hof_id()].reader_count() by {
                    let hh = self.subgraphs@[i].recvs@[k3].hof_id();
                    assert(self.subgraphs@[i].recvs@[k3] == sgv.recvs@[k3]);
                    assert(0 <= hh < pre.handoffs@.len());
                    assert(self.handoffs@[hh].reader_count() == pre.handoffs@[hh].reader_count());
                }
            }
            // Producer ownership is untouched.
            assert forall|i: int, k3: int|
                0 <= i < self.subgraphs@.len() && 0 <= k3
                    < self.subgraphs@[i].sends@.len() implies #[trigger] self.producers@[self.subgraphs@[i].sends@[k3].hof_id()]
                == Some(i as usize) by {
                assert(self.subgraphs@[i].sends@ == pre.subgraphs@[i].sends@);
            }
            assert(self.wf());
            assert(same_structure(pre, *self));
            if presg.source is Channel {
                assert(step_effect(pre, *self, qi as int, input_snap));
            } else {
                assert(input_snap == input_of(pre, id as int));
                assert(step_effect(pre, *self, qi as int, input_of(pre, id as int)));
            }
        }
    }
}

pub proof fn lemma_same_structure_trans(a: Hydroflow, b: Hydroflow, c: Hydroflow)
    requires
        same_structure(a, b),
        same_structure(b, c),
    ensures
        same_structure(a, c),
{
    assert forall|h: int|
        0 <= h < a.handoffs@.len() implies #[trigger] c.handoffs@[h].same_shape(
        &a.handoffs@[h],
    ) by {
        assert(b.handoffs@[h].same_shape(&a.handoffs@[h]));
        assert(c.handoffs@[h].same_shape(&b.handoffs@[h]));
    }
    assert forall|j: int|
        0 <= j < a.subgraphs@.len() implies {
        let x = #[trigger] c.subgraphs@[j];
        let y = a.subgraphs@[j];
        x.name == y.name && x.recvs == y.recvs && x.sends == y.sends && x.stages == y.stages && (
        x.source is Ports <==> y.source is Ports) && (x.source is Buffer <==> y.source is Buffer)
            && (x.source is Channel <==> y.source is Channel)
    } by {
        let m = b.subgraphs@[j];
        assert(m.name == a.subgraphs@[j].name && m.recvs == a.subgraphs@[j].recvs && m.sends
            == a.subgraphs@[j].sends && m.stages == a.subgraphs@[j].stages);
        assert(c.subgraphs@[j].name == m.name && c.subgraphs@[j].recvs == m.recvs
            && c.subgraphs@[j].sends == m.sends && c.subgraphs@[j].stages == m.stages);
    }
}

/// The position of one pending occurrence of `id` in the queue, if any.
fn find_ready(queue: &Vec<usize>, id: usize) -> (r: Option<usize>)
    ensures
        match r {
            Some(qi) => qi < queue@.len() && queue@[qi as int] == id,
            None => forall|q: int| 0 <= q < queue@.len() ==> #[trigger] queue@[q] != id,
        },
{
    let mut i: usize = 0;
    while i < queue.len()
        invariant
            i <= queue@.len(),
            forall|q: int| 0 <= q < i ==> #[trigger] queue@[q] != id,
        decreases queue@.len() - i,
    {
        if queue[i] == id {
            return Some(i);
        }
        i = i + 1;
    }
    None
}

/// How many occurrences of `id` the queue currently holds.
fn count_occurrences(queue: &Vec<usize>, id: usize) -> (c: usize)
    ensures
        c == count_in(queue@, id as int),
{
    let mut c: usize = 0;
    let mut i: usize = 0;
    while i < queue.len()
        invariant
            i <= queue@.len(),
            c <= i,
            c == count_in(queue@.take(i as int), id as int),
        decreases queue@.len() - i,
    {
        proof {
            assert(queue@.take(i + 1 as int) =~= queue@.take(i as int).push(queue@[i as int]));
            lemma_count_in_push(queue@.take(i as int), queue@[i as int], id as int);
        }
        if queue[i] == id {
            c = c + 1;
        }
        i = i + 1;
    }
    proof {
        assert(queue@.take(queue@.len() as int) =~= queue@);
    }
    c
}

impl Hydroflow {
    /// Move externally triggered identifiers from the shared event
    /// channel into the ready queue.  What arrives depends on other
    /// threads, so the contract promises only that some batch of valid
    /// identifiers was appended and accounted; identifiers out of range
    /// are dropped.  At most one channel capacity is drained per call.
    fn drain_events(&mut self)
        requires
            old(self).wf(),
        ensures
            final(self).wf(),
            same_structure(*old(self), *final(self)),
            exists|drained: Seq<usize>| events_admitted(*old(self), *final(self), drained),
    {
        let ghost mut got: Seq<usize> = Seq::empty();
        proof {
            assert(old(self).queue@ + got =~= old(self).queue@);
        }
        let mut budget: usize = EVENT_QUEUE_CAP;
        while budget > 0
            invariant
                old(self).wf(),
                self.wf(),
                self.handoffs@ == old(self).handoffs@,
                self.subgraphs@ == old(self).subgraphs@,
                self.consumers@ == old(self).consumers@,
                self.producers@ == old(self).producers@,
                self.runs@ == old(self).runs@,
                self.enq@.len() == old(self).enq@.len(),
                self.queue@ == old(self).queue@ + got,
                forall|q: int| 0 <= q < got.len() ==> #[trigger] got[q] < old(self).subgraphs@.len(),
                forall|j: int|
                    0 <= j < old(self).enq@.len() ==> #[trigger] self.enq@[j] == old(self).enq@[j]
                        + count_in(got, j),
            decreases budget,
        {
            match try_recv_one(&self.event_recv) {
                Some(id) => {
                    if id < self.subgraphs.len() {
                        self.queue.push(id);
                        proof {
                            self.enq@ = self.enq@.update(id as int, (self.enq@[id as int] + 1) as nat);
                            let got0 = got;
                            got = got.push(id);
                            assert(self.queue@ =~= old(self).queue@ + got);
                            assert forall|j: int|
                                0 <= j < old(self).enq@.len() implies #[trigger] self.enq@[j]
                                == old(self).enq@[j] + count_in(got, j) by {
                                lemma_count_in_push(got0, id, j);
                            }
                            assert forall|i: int|
                                0 <= i < self.subgraphs@.len() implies #[trigger] self.enq@[i]
                                == self.runs@[i] + count_in(self.queue@, i) by {
                                lemma_count_in_push(old(self).queue@ + got0, id, i);
                                assert((old(self).queue@ + got0).push(id) =~= old(self).queue@
                                    + got);
                            }
                            assert forall|q: int|
                                0 <= q < self.queue@.len() implies #[trigger] self.queue@[q]
                                < self.subgraphs@.len() by {
                                let prevq = old(self).queue@ + got0;
                                assert(self.queue@ =~= prevq.push(id));
                                if q < prevq.len() {
                                    assert(self.queue@[q] == prevq[q]);
                                } else {
                                    assert(self.queue@[q] == id);
                                }
                            }
                            assert forall|i: int|
                                0 <= i < self.subgraphs@.len() implies #[trigger] self.sg_wf(
                                i,
                            ) by {
                                assert(old(self).sg_wf(i));
                                assert(self.subgraphs@[i] == old(self).subgraphs@[i]);
                            }
                            assert forall|i2: int, k3: int|
                                0 <= i2 < self.subgraphs@.len() && 0 <= k3
                                    < self.subgraphs@[i2].sends@.len() implies #[trigger] self.producers@[self.subgraphs@[i2].sends@[k3].hof_id()]
                                == Some(i2 as usize) by {
                                assert(self.subgraphs@[i2].sends@ == old(self).subgraphs@[i2].sends@);
                            }
                        }
                    }
                },
                None => {
                    break;
                },
            }
            budget = budget - 1;
        }
        proof {
            assert(events_admitted(*old(self), *self, got));
        }
    }

    /// Run every enqueued subgraph: one pass over the identifiers in
    /// ascending order, running each subgraph once per queue entry
    /// pending when its turn starts.  Items flowing forward reach their
    /// consumers in the same pass; an identifier enqueued at or behind
    /// the running pass (a feedback edge) stays queued for the next
    /// tick, which is what bounds the pass.  When the graph has only
    /// forward edges the pass is a complete fixpoint: the queue ends
    /// empty.
    fn run_available(&mut self)
        requires
            old(self).wf(),
        ensures
            final(self).wf(),
            same_structure(*old(self), *final(self)),
            forall|j: int|
                0 <= j < old(self).runs@.len() ==> #[trigger] final(self).runs@[j] >= old(
                    self,
                ).runs@[j],
            forward_edges_only(*old(self)) ==> final(self).queue@.len() == 0,
            exists|trace: Seq<Hydroflow>|
                {
                    &&& trace.len() >= 1
                    &&& trace[0] == *old(self)
                    &&& trace_ok(trace)
                    &&& trace.last() == *final(self)
                },
    {
        let ghost mut trace: Seq<Hydroflow> = seq![*old(self)];
        let n = self.subgraphs.len();
        let mut id: usize = 0;
        while id < n
            invariant
                self.wf(),
                n == self.subgraphs@.len(),
                id <= n,
                same_structure(*old(self), *self),
                forall|j: int|
                    0 <= j < old(self).runs@.len() ==> #[trigger] self.runs@[j] >= old(
                        self,
                    ).runs@[j],
                trace.len() >= 1,
                trace[0] == *old(self),
                trace_ok(trace),
                trace.last() == *self,
                forward_edges_only(*old(self)) ==> forall|j: int|
                    0 <= j < id ==> count_in(self.queue@, j) == 0,
            decreases n - id,
        {
            let pending = count_occurrences(&self.queue, id);
            let mut done: usize = 0;
            while done < pending
                invariant
                    done <= pending,
                    self.wf(),
                    n == self.subgraphs@.len(),
                    id < n,
                    same_structure(*old(self), *self),
                    forall|j: int|
                        0 <= j < old(self).runs@.len() ==> #[trigger] self.runs@[j] >= old(
                            self,
                        ).runs@[j],
                    trace.len() >= 1,
                    trace[0] == *old(self),
                    trace_ok(trace),
                    trace.last() == *self,
                    count_in(self.queue@, id as int) + done >= pending,
                    forward_edges_only(*old(self)) ==> (count_in(self.queue@, id as int) + done
                        == pending && forall|j: int| 0 <= j < id ==> count_in(self.queue@, j)
                        == 0),
                decreases pending - done,
            {
                let found = find_ready(&self.queue, id);
                // At least `pending - done` occurrences remain, so the
                // scan cannot come back empty.
                let qi = match found {
                    Some(qi) => qi,
                    None => {
                        proof {
                            lemma_count_in_absent(self.queue@, id as int);
                            assert(false);
                        }
                        0
                    },
                };
                {
                    {
                        let ghost pre2 = *self;
                        let ghost before = *old(self);
                        self.step_at(qi);
                        proof {
                            let idi = id as int;
                            let ghost inp: Seq<i64> = if step_effect(
                                pre2,
                                *self,
                                qi as int,
                                input_of(pre2, idi),
                            ) {
                                input_of(pre2, idi)
                            } else {
                                choose|vs: Seq<i64>| step_effect(pre2, *self, qi as int, vs)
                            };
                            assert(step_effect(pre2, *self, qi as int, inp));
                            assert(step_linked(pre2, *self));
                            lemma_trace_ok_push(trace, *self);
                            trace = trace.push(*self);
                            let out_len = apply_stages(pre2.subgraphs@[idi].stages@, inp).len();
                            let el = enqueue_list(pre2, idi, out_len);
                            assert(self.queue@ == pre2.queue@.remove(qi as int) + el);
                            lemma_count_in_concat(pre2.queue@.remove(qi as int), el, idi);
                            lemma_count_in_remove(pre2.queue@, qi as int, idi);
                            assert(count_in(self.queue@, idi) + (done + 1) >= pending);
                            if forward_edges_only(before) {
                                assert(forward_edges_only(pre2));
                                lemma_enqueue_list_above(pre2, id, out_len);
                                assert forall|j: int| 0 <= j <= id implies count_in(
                                    self.queue@,
                                    j,
                                ) == count_in(pre2.queue@, j) - (if j == id {
                                    1nat
                                } else {
                                    0nat
                                }) by {
                                    lemma_count_in_concat(pre2.queue@.remove(qi as int), el, j);
                                    lemma_count_in_remove(pre2.queue@, qi as int, j);
                                    assert forall|q: int|
                                        0 <= q < el.len() implies #[trigger] el[q] != j by {
                                        assert(el[q] > id);
                                    }
                                    lemma_count_in_absent(el, j);
                                }
                            }
                            lemma_same_structure_trans(before, pre2, *self);
                            assert forall|j: int|
                                0 <= j < old(self).runs@.len() implies #[trigger] self.runs@[j]
                                >= old(self).runs@[j] by {
                                assert(self.runs@ == pre2.runs@.update(
                                    idi,
                                    (pre2.runs@[idi] + 1) as nat,
                                ));
                            }
                        }
                    }
                }
                done = done + 1;
            }
            proof {
                if forward_edges_only(*old(self)) {
                    assert(count_in(self.queue@, id as int) == 0);
                    assert forall|j: int| 0 <= j < id + 1 implies count_in(self.queue@, j)
                        == 0 by {
                        if j < id {
                            assert(count_in(self.queue@, j) == 0);
                        }
                    }
                }
            }
            id = id + 1;
        }
        proof {
            if forward_edges_only(*old(self)) {
                if self.queue@.len() > 0 {
                    assert(self.queue@[0] < n);
                    assert(count_in(self.queue@, self.queue@[0] as int) >= 1);
                    assert(false);
                }
            }
        }
    }

    /// One external trigger of the scheduler: admit pending external
    /// events into the ready queue, then make one bounded scheduling
    /// pass.  The whole data effect is carried by the trace clause:
    /// some batch of valid externally triggered identifiers is
    /// appended, and the final state is reached from there by a chain
    /// of scheduling turns, each the full [`step_effect`] of one queue
    /// entry.  On a graph with only forward edges the pass is a
    /// complete local fixpoint: the queue ends empty, and every
    /// enqueue — registration, trigger, or downstream scheduling — has
    /// been answered by exactly one run.
    pub fn tick(&mut self)
        requires
            old(self).wf(),
        ensures
            final(self).wf(),
            same_structure(*old(self), *final(self)),
            forall|j: int|
                0 <= j < old(self).runs@.len() ==> #[trigger] final(self).runs@[j] >= old(
                    self,
                ).runs@[j],
            forward_edges_only(*old(self)) ==> final(self).queue@.len() == 0 && (forall|j: int|
                0 <= j < final(self).subgraphs@.len() ==> #[trigger] final(self).enq@[j]
                    == final(self).runs@[j]),
            exists|drained: Seq<usize>, trace: Seq<Hydroflow>|
                {
                    &&& trace.len() >= 1
                    &&& events_admitted(*old(self), trace[0], drained)
                    &&& trace_ok(trace)
                    &&& trace.last() == *final(self)
                },
    {
        let ghost before = *old(self);
        self.drain_events();
        let ghost mid = *self;
        self.run_available();
        proof {
            lemma_same_structure_trans(before, mid, *self);
            let d = choose|d: Seq<usize>| events_admitted(before, mid, d);
            let t = choose|t: Seq<Hydroflow>|
                {
                    &&& t.len() >= 1
                    &&& t[0] == mid
                    &&& trace_ok(t)
                    &&& t.last() == *self
                };
            assert(events_admitted(before, t[0], d));
            if forward_edges_only(before) {
                assert(forward_edges_only(mid));
                assert forall|j: int|
                    0 <= j < self.subgraphs@.len() implies #[trigger] self.enq@[j]
                    == self.runs@[j] by {
                    assert(count_in(self.queue@, j) == 0);
                }
            }
        }
    }

    /// Inject one item into the buffer of a buffer-backed source
    /// subgraph; it is consumed on the subgraph's next run.  Returns
    /// whether the subgraph accepts injected input.
    pub fn give_input(&mut self, id: usize, x: i64) -> (accepted: bool)
        requires
            old(self).wf(),
            id < old(self).subgraphs@.len(),
        ensures
            final(self).wf(),
            accepted == old(self).subgraphs@[id as int].source is Buffer,
            same_structure(*old(self), *final(self)),
            final(self).handoffs@ == old(self).handoffs@,
            final(self).queue@ == old(self).queue@,
            final(self).runs@ == old(self).runs@,
            final(self).enq@ == old(self).enq@,
            forall|j: int|
                0 <= j < old(self).subgraphs@.len() && j != id ==> #[trigger] final(self).subgraphs@[j] == old(self).subgraphs@[j],
            final(self).subgraphs@[id as int].collected@ == old(self).subgraphs@[id as int].collected@,
            accepted ==> final(self).subgraphs@[id as int].source.buffer_view() == old(
                self,
            ).subgraphs@[id as int].source.buffer_view().push(x),
            !accepted ==> final(self).subgraphs@[id as int] == old(self).subgraphs@[id as int],
    {
        proof {
            assert(old(self).sg_wf(id as int));
        }
        let mut sg = self.subgraphs.remove(id);
        let ghost presg = old(self).subgraphs@[id as int];
        let accepted = match &mut sg.source {
            SourceKind::Buffer(b) => {
                b.push(x);
                true
            },
            _ => false,
        };
        let ghost sg_fin = sg;
        self.subgraphs.insert(id, sg);
        proof {
            assert(self.subgraphs@ =~= old(self).subgraphs@.update(id as int, sg_fin));
            assert(sg_fin.recvs@ == presg.recvs@);
            assert(sg_fin.sends@ == presg.sends@);
            assert forall|i: int| 0 <= i < self.subgraphs@.len() implies #[trigger] self.sg_wf(
                i,
            ) by {
                assert(old(self).sg_wf(i));
                if i != id {
                    assert(self.subgraphs@[i] == old(self).subgraphs@[i]);
                } else {
                    assert(self.subgraphs@[i] == sg_fin);
                }
            }
            assert forall|i2: int, k3: int|
                0 <= i2 < self.subgraphs@.len() && 0 <= k3
                    < self.subgraphs@[i2].sends@.len() implies #[trigger] self.producers@[self.subgraphs@[i2].sends@[k3].hof_id()]
                == Some(i2 as usize) by {
                assert(self.subgraphs@[i2].sends@ == old(self).subgraphs@[i2].sends@);
            }
        }
        accepted
    }

    /// Take everything a sink subgraph has collected so far, in the
    /// order it was observed, leaving the sink empty.
    pub fn take_collected(&mut self, id: usize) -> (out: Vec<i64>)
        requires
            old(self).wf(),
            id < old(self).subgraphs@.len(),
        ensures
            final(self).wf(),
            same_structure(*old(self), *final(self)),
            out@ == old(self).subgraphs@[id as int].collected@,
            final(self).subgraphs@[id as int].collected@ == Seq::<i64>::empty(),
            final(self).handoffs@ == old(self).handoffs@,
            final(self).queue@ == old(self).queue@,
            final(self).runs@ == old(self).runs@,
            final(self).enq@ == old(self).enq@,
            forall|j: int|
                0 <= j < old(self).subgraphs@.len() && j != id ==> #[trigger] final(self).subgraphs@[j] == old(self).subgraphs@[j],
            final(self).subgraphs@[id as int].source == old(self).subgraphs@[id as int].source,
    {
        proof {
            assert(old(self).sg_wf(id as int));
        }
        let mut sg = self.subgraphs.remove(id);
        let ghost presg = old(self).subgraphs@[id as int];
        let mut out: Vec<i64> = Vec::new();
        out.append(&mut sg.collected);
        let ghost sg_fin = sg;
        self.subgraphs.insert(id, sg);
        proof {
            assert(self.subgraphs@ =~= old(self).subgraphs@.update(id as int, sg_fin));
            assert(sg_fin.recvs@ == presg.recvs@);
            assert(sg_fin.sends@ == presg.sends@);
            assert forall|i: int| 0 <= i < self.subgraphs@.len() implies #[trigger] self.sg_wf(
                i,
            ) by {
                assert(old(self).sg_wf(i));
                if i != id {
                    assert(self.subgraphs@[i] == old(self).subgraphs@[i]);
                } else {
                    assert(self.subgraphs@[i] == sg_fin);
                }
            }
            assert forall|i2: int, k3: int|
                0 <= i2 < self.subgraphs@.len() && 0 <= k3
                    < self.subgraphs@[i2].sends@.len() implies #[trigger] self.producers@[self.subgraphs@[i2].sends@[k3].hof_id()]
                == Some(i2 as usize) by {
                assert(self.subgraphs@[i2].sends@ == old(self).subgraphs@[i2].sends@);
            }
        }
        out
    }
}

impl Hydroflow {
    /// A sink: drains one receive port through `stages` into its
    /// collection.
    pub fn add_subgraph_sink(&mut self, name: String, recv_port: RecvPort, stages: Vec<Stage>) -> (id: usize)
        requires
            old(self).wf(),
            0 <= recv_port.hof_id() < old(self).handoffs@.len(),
            0 <= recv_port.reader_id() < old(self).handoffs@[recv_port.hof_id()].reader_count(),
            old(self).consumers@[recv_port.hof_id()]@[recv_port.reader_id()] is None,
        ensures
            final(self).wf(),
            final(self).registered(
                old(self),
                id as int,
                seq![recv_port],
                Seq::<SendPort>::empty(),
                stages@,
            ),
            final(self).subgraphs@[id as int].name == name,
            final(self).subgraphs@[id as int].source is Ports,
    {
        let mut recvs: Vec<RecvPort> = Vec::new();
        recvs.push(recv_port);
        let sends: Vec<SendPort> = Vec::new();
        proof {
            assert(recvs@ =~= seq![recv_port]);
            assert(sends@ =~= Seq::<SendPort>::empty());
        }
        self.add_subgraph(name, recvs, sends, stages)
    }

    /// A sink over two receive ports: both are drained, first port
    /// first, through one stage pipeline into the collection.
    pub fn add_subgraph_2sink(
        &mut self,
        name: String,
        recv_port_1: RecvPort,
        recv_port_2: RecvPort,
        stages: Vec<Stage>,
    ) -> (id: usize)
        requires
            old(self).wf(),
            0 <= recv_port_1.hof_id() < old(self).handoffs@.len(),
            0 <= recv_port_1.reader_id() < old(self).handoffs@[recv_port_1.hof_id()].reader_count(),
            old(self).consumers@[recv_port_1.hof_id()]@[recv_port_1.reader_id()] is None,
            0 <= recv_port_2.hof_id() < old(self).handoffs@.len(),
            0 <= recv_port_2.reader_id() < old(self).handoffs@[recv_port_2.hof_id()].reader_count(),
            old(self).consumers@[recv_port_2.hof_id()]@[recv_port_2.reader_id()] is None,
            !(recv_port_1.hof_id() == recv_port_2.hof_id() && recv_port_1.reader_id()
                == recv_port_2.reader_id()),
        ensures
            final(self).wf(),
            final(self).registered(
                old(self),
                id as int,
                seq![recv_port_1, recv_port_2],
                Seq::<SendPort>::empty(),
                stages@,
            ),
            final(self).subgraphs@[id as int].name == name,
            final(self).subgraphs@[id as int].source is Ports,
    {
        let mut recvs: Vec<RecvPort> = Vec::new();
        recvs.push(recv_port_1);
        recvs.push(recv_port_2);
        let sends: Vec<SendPort> = Vec::new();
        proof {
            assert(recvs@ =~= seq![recv_port_1, recv_port_2]);
            assert(sends@ =~= Seq::<SendPort>::empty());
        }
        self.add_subgraph(name, recvs, sends, stages)
    }

    /// A source: a buffer fed by `give_input`, drained through `stages`
    /// into one send port on each run.
    pub fn add_subgraph_source(&mut self, name: String, send_port: SendPort, stages: Vec<Stage>) -> (id: usize)
        requires
            old(self).wf(),
            0 <= send_port.hof_id() < old(self).handoffs@.len(),
            old(self).producers@[send_port.hof_id()] is None,
        ensures
            final(self).wf(),
            final(self).registered(
                old(self),
                id as int,
                Seq::<RecvPort>::empty(),
                seq![send_port],
                stages@,
            ),
            final(self).subgraphs@[id as int].name == name,
            final(self).subgraphs@[id as int].source is Buffer,
            final(self).subgraphs@[id as int].source.buffer_view() == Seq::<i64>::empty(),
    {
        let recvs: Vec<RecvPort> = Vec::new();
        let mut sends: Vec<SendPort> = Vec::new();
        sends.push(send_port);
        proof {
            assert(recvs@ =~= Seq::<RecvPort>::empty());
            assert(sends@ =~= seq![send_port]);
        }
        self.register(name, recvs, sends, stages, SourceKind::Buffer(Vec::new()))
    }

    /// An interior subgraph: drains one receive port through `stages`
    /// into one send port.
    pub fn add_subgraph_in_out(
        &mut self,
        name: String,
        recv_port: RecvPort,
        send_port: SendPort,
        stages: Vec<Stage>,
    ) -> (id: usize)
        requires
            old(self).wf(),
            0 <= recv_port.hof_id() < old(self).handoffs@.len(),
            0 <= recv_port.reader_id() < old(self).handoffs@[recv_port.hof_id()].reader_count(),
            old(self).consumers@[recv_port.hof_id()]@[recv_port.reader_id()] is None,
            0 <= send_port.hof_id() < old(self).handoffs@.len(),
            old(self).producers@[send_port.hof_id()] is None,
        ensures
            final(self).wf(),
            final(self).registered(
                old(self),
                id as int,
                seq![recv_port],
                seq![send_port],
                stages@,
            ),
            final(self).subgraphs@[id as int].name == name,
            final(self).subgraphs@[id as int].source is Ports,
    {
        let mut recvs: Vec<RecvPort> = Vec::new();
        recvs.push(recv_port);
        let mut sends: Vec<SendPort> = Vec::new();
        sends.push(send_port);
        proof {
            assert(recvs@ =~= seq![recv_port]);
            assert(sends@ =~= seq![send_port]);
        }
        self.add_subgraph(name, recvs, sends, stages)
    }

    /// An interior subgraph feeding two send ports with the same
    /// output.
    pub fn add_subgraph_in_2out(
        &mut self,
        name: String,
        recv_port: RecvPort,
        send_port_1: SendPort,
        send_port_2: SendPort,
        stages: Vec<Stage>,
    ) -> (id: usize)
        requires
            old(self).wf(),
            0 <= recv_port.hof_id() < old(self).handoffs@.len(),
            0 <= recv_port.reader_id() < old(self).handoffs@[recv_port.hof_id()].reader_count(),
            old(self).consumers@[recv_port.hof_id()]@[recv_port.reader_id()] is None,
            0 <= send_port_1.hof_id() < old(self).handoffs@.len(),
            old(self).producers@[send_port_1.hof_id()] is None,
            0 <= send_port_2.hof_id() < old(self).handoffs@.len(),
            old(self).producers@[send_port_2.hof_id()] is None,
            send_port_1.hof_id() != send_port_2.hof_id(),
        ensures
            final(self).wf(),
            final(self).registered(
                old(self),
                id as int,
                seq![recv_port],
                seq![send_port_1, send_port_2],
                stages@,
            ),
            final(self).subgraphs@[id as int].name == name,
            final(self).subgraphs@[id as int].source is Ports,
    {
        let mut recvs: Vec<RecvPort> = Vec::new();
        recvs.push(recv_port);
        let mut sends: Vec<SendPort> = Vec::new();
        sends.push(send_port_1);
        sends.push(send_port_2);
        proof {
            assert(recvs@ =~= seq![recv_port]);
            assert(sends@ =~= seq![send_port_1, send_port_2]);
        }
        self.add_subgraph(name, recvs, sends, stages)
    }

    /// An interior subgraph draining two receive ports, first port
    /// first, into one send port.
    pub fn add_subgraph_2in_out(
        &mut self,
        name: String,
        recv_port_1: RecvPort,
        recv_port_2: RecvPort,
        send_port: SendPort,
        stages: Vec<Stage>,
    ) -> (id: usize)
        requires
            old(self).wf(),
            0 <= recv_port_1.hof_id() < old(self).handoffs@.len(),
            0 <= recv_port_1.reader_id() < old(self).handoffs@[recv_port_1.hof_id()].reader_count(),
            old(self).consumers@[recv_port_1.hof_id()]@[recv_port_1.reader_id()] is None,
            0 <= recv_port_2.hof_id() < old(self).handoffs@.len(),
            0 <= recv_port_2.reader_id() < old(self).handoffs@[recv_port_2.hof_id()].reader_count(),
            old(self).consumers@[recv_port_2.hof_id()]@[recv_port_2.reader_id()] is None,
            !(recv_port_1.hof_id() == recv_port_2.hof_id() && recv_port_1.reader_id()
                == recv_port_2.reader_id()),
            0 <= send_port.hof_id() < old(self).handoffs@.len(),
            old(self).producers@[send_port.hof_id()] is None,
        ensures
            final(self).wf(),
            final(self).registered(
                old(self),
                id as int,
                seq![recv_port_1, recv_port_2],
                seq![send_port],
                stages@,
            ),
            final(self).subgraphs@[id as int].name == name,
            final(self).subgraphs@[id as int].source is Ports,
    {
        let mut recvs: Vec<RecvPort> = Vec::new();
        recvs.push(recv_port_1);
        recvs.push(recv_port_2);
        let mut sends: Vec<SendPort> = Vec::new();
        sends.push(send_port);
        proof {
            assert(recvs@ =~= seq![recv_port_1, recv_port_2]);
            assert(sends@ =~= seq![send_port]);
        }
        self.add_subgraph(name, recvs, sends, stages)
    }

    /// An interior subgraph draining two receive ports into two send
    /// ports.
    pub fn add_subgraph_2in_2out(
        &mut self,
        name: String,
        recv_port_1: RecvPort,
        recv_port_2: RecvPort,
        send_port_1: SendPort,
        send_port_2: SendPort,
        stages: Vec<Stage>,
    ) -> (id: usize)
        requires
            old(self).wf(),
            0 <= recv_port_1.hof_id() < old(self).handoffs@.len(),
            0 <= recv_port_1.reader_id() < old(self).handoffs@[recv_port_1.hof_id()].reader_count(),
            old(self).consumers@[recv_port_1.hof_id()]@[recv_port_1.reader_id()] is None,
            0 <= recv_port_2.hof_id() < old(self).handoffs@.len(),
            0 <= recv_port_2.reader_id() < old(self).handoffs@[recv_port_2.hof_id()].reader_count(),
            old(self).consumers@[recv_port_2.hof_id()]@[recv_port_2.reader_id()] is None,
            !(recv_port_1.hof_id() == recv_port_2.hof_id() && recv_port_1.reader_id()
                == recv_port_2.reader_id()),
            0 <= send_port_1.hof_id() < old(self).handoffs@.len(),
            old(self).producers@[send_port_1.hof_id()] is None,
            0 <= send_port_2.hof_id() < old(self).handoffs@.len(),
            old(self).producers@[send_port_2.hof_id()] is None,
            send_port_1.hof_id() != send_port_2.hof_id(),
        ensures
            final(self).wf(),
            final(self).registered(
                old(self),
                id as int,
                seq![recv_port_1, recv_port_2],
                seq![send_port_1, send_port_2],
                stages@,
            ),
            final(self).subgraphs@[id as int].name == name,
            final(self).subgraphs@[id as int].source is Ports,
    {
        let mut recvs: Vec<RecvPort> = Vec::new();
        recvs.push(recv_port_1);
        recvs.push(recv_port_2);
        let mut sends: Vec<SendPort> = Vec::new();
        sends.push(send_port_1);
        sends.push(send_port_2);
        proof {
            assert(recvs@ =~= seq![recv_port_1, recv_port_2]);
            assert(sends@ =~= seq![send_port_1, send_port_2]);
        }
        self.add_subgraph(name, recvs, sends, stages)
    }

    /// An input operator: a buffer-backed source whose handle is its
    /// identifier; data is inserted with `give_input` and flows,
    /// unchanged, into the send port on the source's next run.
    pub fn add_input(&mut self, name: String, send_port: SendPort) -> (id: usize)
        requires
            old(self).wf(),
            0 <= send_port.hof_id() < old(self).handoffs@.len(),
            old(self).producers@[send_port.hof_id()] is None,
        ensures
            final(self).wf(),
            final(self).registered(
                old(self),
                id as int,
                Seq::<RecvPort>::empty(),
                seq![send_port],
                Seq::<Stage>::empty(),
            ),
            final(self).subgraphs@[id as int].name == name,
            final(self).subgraphs@[id as int].source is Buffer,
            final(self).subgraphs@[id as int].source.buffer_view() == Seq::<i64>::empty(),
    {
        let stages: Vec<Stage> = Vec::new();
        proof {
            assert(stages@ =~= Seq::<Stage>::empty());
        }
        self.add_subgraph_source(name, send_port, stages)
    }

    /// A channel-backed input: a bounded concurrent queue feeds the
    /// source, which drains it on each run.  Other threads insert
    /// through the returned handle and re-trigger through its `flush`.
    pub fn add_channel_input(&mut self, name: String, send_port: SendPort) -> (r: (
        usize,
        ChannelInput,
    ))
        requires
            old(self).wf(),
            0 <= send_port.hof_id() < old(self).handoffs@.len(),
            old(self).producers@[send_port.hof_id()] is None,
        ensures
            final(self).wf(),
            final(self).registered(
                old(self),
                r.0 as int,
                Seq::<RecvPort>::empty(),
                seq![send_port],
                Seq::<Stage>::empty(),
            ),
            final(self).subgraphs@[r.0 as int].name == name,
            final(self).subgraphs@[r.0 as int].source is Channel,
            r.1.source_id() == r.0,
    {
        let (tx, rx) = sync_channel_pair::<i64>(CHANNEL_INPUT_CAP);
        let recvs: Vec<RecvPort> = Vec::new();
        let mut sends: Vec<SendPort> = Vec::new();
        sends.push(send_port);
        let stages: Vec<Stage> = Vec::new();
        proof {
            assert(recvs@ =~= Seq::<RecvPort>::empty());
            assert(sends@ =~= seq![send_port]);
            assert(stages@ =~= Seq::<Stage>::empty());
        }
        let id = self.register(name, recvs, sends, stages, SourceKind::Channel(rx));
        let handle = ChannelInput { sender: tx, reactor: self.reactor(), sg_id: id };
        (id, handle)
    }
}

/// The insertion side of a channel-backed source: usable from any
/// thread.  `give` applies backpressure when the queue is full; `flush`
/// arranges for the source to run on a later tick.
pub struct ChannelInput {
    pub(crate) sender: std::sync::mpsc::SyncSender<i64>,
    pub(crate) reactor: Reactor,
    pub sg_id: usize,
}

impl ChannelInput {
    /// The identifier of the backing source subgraph.
    pub closed spec fn source_id(&self) -> int {
        self.sg_id as int
    }

    /// Insert one item, blocking while the queue is full; fails, with
    /// the item, only when the graph is gone.
    pub fn give(&self, x: i64) -> (r: Result<(), ChannelSendError>)
        ensures
            match r {
                Ok(()) => true,
                Err(ChannelSendError::Disconnected(y)) => y == x,
            },
    {
        send_item(&self.sender, x)
    }

    /// Ask the scheduler to run the backing source on a later tick.
    pub fn flush(&self) -> (r: Result<(), TriggerError>)
        ensures
            match r {
                Ok(()) => true,
                Err(TriggerError::Full(y)) => y == self.source_id(),
                Err(TriggerError::Disconnected(y)) => y == self.source_id(),
            },
    {
        self.reactor.trigger(self.sg_id)
    }
}

} // verus!
