//! Handoffs — the data-transfer edges between subgraphs — and the port
//! capabilities that wire them.
//!
//! A handoff owns a mutable buffer per registered reader.  `give_all`
//! merges newly produced items into every reader's buffer according to
//! the handoff's merge capability, and `drain` atomically removes and
//! returns one reader's current contents.  Data left undrained stays in
//! the handoff until a later drain: nothing is discarded between ticks.

use vstd::prelude::*;

verus! {

/// The send-side capability for one handoff.
///
/// Ports are produced only by edge-creation calls on the graph and are
/// consumed (moved) by registration calls, so each edge keeps a single
/// producer and a fixed reader set by construction.
#[derive(Debug)]
pub struct SendPort {
    pub(crate) hof: usize,
}

/// The receive-side capability for one reader slot of one handoff.
#[derive(Debug)]
pub struct RecvPort {
    pub(crate) hof: usize,
    pub(crate) reader: usize,
}

impl SendPort {
    /// The index of the handoff this port writes.
    pub closed spec fn hof_id(&self) -> int {
        self.hof as int
    }

    pub(crate) fn new_at(h: usize) -> (p: SendPort)
        ensures
            p.hof_id() == h,
    {
        SendPort { hof: h }
    }

    /// The index of the handoff this port writes.
    pub fn hof_index(&self) -> (h: usize)
        ensures
            h == self.hof_id(),
    {
        self.hof
    }
}

impl RecvPort {
    /// The index of the handoff this port reads.
    pub closed spec fn hof_id(&self) -> int {
        self.hof as int
    }

    /// The reader slot this port drains.
    pub closed spec fn reader_id(&self) -> int {
        self.reader as int
    }

    pub(crate) fn new_at(h: usize, r: usize) -> (p: RecvPort)
        ensures
            p.hof_id() == h,
            p.reader_id() == r,
    {
        RecvPort { hof: h, reader: r }
    }

    /// The index of the handoff this port reads.
    pub fn hof_index(&self) -> (h: usize)
        ensures
            h == self.hof_id(),
    {
        self.hof
    }

    /// The reader slot this port drains.
    pub fn reader_index(&self) -> (r: usize)
        ensures
            r == self.reader_id(),
    {
        self.reader
    }
}

/// One data-transfer edge.  The variant fixes the merge capability chosen
/// when the edge was created.
pub enum Handoff {
    /// A single slot: a newly given item overwrites the last.
    Slot { item: Option<i64> },
    /// An append buffer: given items accumulate in order.
    Buf { items: Vec<i64> },
    /// A fan-out edge: every given item is duplicated eagerly, at write
    /// time, into an independent buffer per registered reader.
    Tee { bufs: Vec<Vec<i64>> },
}

impl Handoff {
    /// How many independent reader slots this handoff has.
    pub open spec fn reader_count(&self) -> nat {
        match self {
            Handoff::Slot { .. } => 1,
            Handoff::Buf { .. } => 1,
            Handoff::Tee { bufs } => bufs@.len(),
        }
    }

    /// Whether a newly given item overwrites instead of appending.
    pub open spec fn overwrites(&self) -> bool {
        match self {
            Handoff::Slot { .. } => true,
            _ => false,
        }
    }

    /// The undrained items currently visible to reader `r`, in the order
    /// they were given.
    pub open spec fn contents(&self, r: int) -> Seq<i64> {
        match self {
            Handoff::Slot { item } => match item {
                Some(x) => seq![*x],
                None => Seq::empty(),
            },
            Handoff::Buf { items } => items@,
            Handoff::Tee { bufs } => bufs@[r]@,
        }
    }

    /// Whether two handoff values are the same edge shape (same variant,
    /// same reader count).
    pub open spec fn same_shape(&self, other: &Handoff) -> bool {
        self.reader_count() == other.reader_count() && self.overwrites() == other.overwrites()
            && (self is Slot <==> other is Slot) && (self is Buf <==> other is Buf) && (self is Tee
            <==> other is Tee)
    }

    /// A new single-slot edge.
    pub fn new_slot() -> (h: Handoff)
        ensures
            h is Slot,
            h.reader_count() == 1,
            h.contents(0) == Seq::<i64>::empty(),
    {
        Handoff::Slot { item: None }
    }

    /// A new append-buffer edge.
    pub fn new_buf() -> (h: Handoff)
        ensures
            h is Buf,
            h.reader_count() == 1,
            h.contents(0) == Seq::<i64>::empty(),
    {
        Handoff::Buf { items: Vec::new() }
    }

    /// A new fan-out edge with `readers` independent reader slots.
    pub fn new_tee(readers: usize) -> (h: Handoff)
        ensures
            h is Tee,
            h.reader_count() == readers,
            forall|r: int| 0 <= r < readers ==> h.contents(r) == Seq::<i64>::empty(),
    {
        let mut bufs: Vec<Vec<i64>> = Vec::new();
        let mut i: usize = 0;
        while i < readers
            invariant
                i <= readers,
                bufs@.len() == i,
                forall|r: int| 0 <= r < i ==> bufs@[r]@ == Seq::<i64>::empty(),
            decreases readers - i,
        {
            bufs.push(Vec::new());
            i = i + 1;
        }
        Handoff::Tee { bufs }
    }

    /// Merge a batch of newly given items into every reader's buffer:
    /// append for buffer and fan-out edges, overwrite-latest for slots.
    /// A fan-out edge hands every reader the full batch independently.
    pub fn give_all(&mut self, items: &Vec<i64>)
        ensures
            final(self).same_shape(old(self)),
            forall|r: int|
                0 <= r < old(self).reader_count() ==> final(self).contents(r) == merged(
                    old(self).contents(r),
                    old(self).overwrites(),
                    items@,
                ),
    {
        match self {
            Handoff::Slot { item } => {
                if items.len() > 0 {
                    *item = Some(items[items.len() - 1]);
                }
            },
            Handoff::Buf { items: dst } => {
                let mut i: usize = 0;
                while i < items.len()
                    invariant
                        i <= items.len(),
                        dst@ =~= old(self).contents(0) + items@.take(i as int),
                    decreases items.len() - i,
                {
                    dst.push(items[i]);
                    assert(items@.take(i + 1 as int) =~= items@.take(i as int).push(
                        items@[i as int],
                    ));
                    i = i + 1;
                }
                assert(items@.take(items@.len() as int) =~= items@);
            },
            Handoff::Tee { bufs } => {
                let mut r: usize = 0;
                while r < bufs.len()
                    invariant
                        r <= bufs@.len(),
                        bufs@.len() == old(self).reader_count(),
                        forall|q: int|
                            0 <= q < r ==> bufs@[q]@ == old(self).contents(q) + items@,
                        forall|q: int| r <= q < bufs@.len() ==> bufs@[q]@ == old(self).contents(q),
                    decreases bufs@.len() - r,
                {
                    let mut buf = bufs.remove(r);
                    let mut i: usize = 0;
                    while i < items.len()
                        invariant
                            i <= items.len(),
                            buf@ =~= old(self).contents(r as int) + items@.take(i as int),
                        decreases items.len() - i,
                    {
                        buf.push(items[i]);
                        assert(items@.take(i + 1 as int) =~= items@.take(i as int).push(
                            items@[i as int],
                        ));
                        i = i + 1;
                    }
                    assert(items@.take(items@.len() as int) =~= items@);
                    bufs.insert(r, buf);
                    r = r + 1;
                }
            },
        }
        proof {
            if old(self).overwrites() && items@.len() > 0 {
                assert(final(self).contents(0) =~= merged(
                    old(self).contents(0),
                    true,
                    items@,
                ));
            }
        }
    }

    /// Give a single item.
    pub fn give(&mut self, x: i64)
        ensures
            final(self).same_shape(old(self)),
            forall|r: int|
                0 <= r < old(self).reader_count() ==> final(self).contents(r) == merged(
                    old(self).contents(r),
                    old(self).overwrites(),
                    seq![x],
                ),
    {
        let mut one: Vec<i64> = Vec::new();
        one.push(x);
        assert(one@ =~= seq![x]);
        self.give_all(&one);
    }

    /// Atomically remove and return everything reader `r` can currently
    /// see; the other readers' buffers are untouched.  Always safe to
    /// call: an empty reader yields an empty result.
    pub fn drain(&mut self, r: usize) -> (out: Vec<i64>)
        requires
            r < old(self).reader_count(),
        ensures
            final(self).same_shape(old(self)),
            out@ == old(self).contents(r as int),
            final(self).contents(r as int) == Seq::<i64>::empty(),
            forall|q: int|
                0 <= q < old(self).reader_count() && q != r ==> final(self).contents(q) == old(
                    self,
                ).contents(q),
    {
        match self {
            Handoff::Slot { item } => {
                let taken = item.take();
                match taken {
                    Some(x) => {
                        let mut out: Vec<i64> = Vec::new();
                        out.push(x);
                        assert(out@ =~= seq![x]);
                        out
                    },
                    None => Vec::new(),
                }
            },
            Handoff::Buf { items } => {
                let mut out: Vec<i64> = Vec::new();
                out.append(items);
                out
            },
            Handoff::Tee { bufs } => {
                let out = bufs.remove(r);
                bufs.insert(r, Vec::new());
                out
            },
        }
    }
}

/// What one reader of a handoff sees after a batch of items is merged
/// into what it saw before.
pub open spec fn merged(pre: Seq<i64>, overwrite: bool, items: Seq<i64>) -> Seq<i64> {
    if overwrite {
        if items.len() == 0 {
            pre
        } else {
            seq![items.last()]
        }
    } else {
        pre + items
    }
}

/// A fan-out edge delivers every given item to every reader: after one
/// batch is given to a fresh fan-out edge, each of its readers sees
/// exactly that batch, independently of the other readers.
pub proof fn lemma_tee_fan_out(pre: Handoff, post: Handoff, items: Seq<i64>)
    requires
        pre is Tee,
        post.same_shape(&pre),
        forall|r: int| 0 <= r < pre.reader_count() ==> pre.contents(r) == Seq::<i64>::empty(),
        forall|r: int|
            0 <= r < pre.reader_count() ==> post.contents(r) == merged(
                pre.contents(r),
                pre.overwrites(),
                items,
            ),
    ensures
        forall|r: int| 0 <= r < post.reader_count() ==> post.contents(r) == items,
{
    assert forall|r: int| 0 <= r < post.reader_count() implies post.contents(r) == items by {
        assert(pre.contents(r) + items =~= items);
    }
}

} // verus!
