//! Broadcast bus: a single multi-producer/multi-consumer message stream with
//! bounded capacity. Every published message is appended to one shared log;
//! the bus retains only the most recent `capacity` entries. Each subscriber
//! owns a private cursor into that log: it receives every retained message
//! exactly once, in publication order, and a subscriber that falls behind the
//! retained window skips the dropped messages and resumes at the oldest one
//! still held. Delivery is best effort; nothing is ever re-sent.

use vstd::prelude::*;

verus! {

/// The views of a sequence of messages: each `String` as its `Seq<char>`.
pub open spec fn seq_views(msgs: Seq<String>) -> Seq<Seq<char>> {
    msgs.map_values(|m: String| m@)
}

/// The shared message bus. Its mathematical model is the full sequence of
/// messages ever published (`log`), of which only the suffix starting at
/// `oldest` is still retained.
pub struct Bus {
    /// How many messages are retained at most; the tunable bound.
    cap: usize,
    /// Sequence number of the oldest retained message.
    first: u64,
    /// The retained messages; `buf[i]` carries sequence number `first + i`.
    buf: Vec<String>,
    /// Every message ever published, in publication order.
    hist: Ghost<Seq<Seq<char>>>,
}

/// One subscriber's private receive end: a position in the bus log, together
/// with the history of what this subscriber has observed so far.
#[derive(Clone, Copy)]
pub struct Cursor {
    /// Sequence number of the next message this subscriber will consider.
    at: u64,
    /// The log position the subscription was created at.
    born: Ghost<int>,
    /// The messages this subscriber has received, in the order received.
    rcvd: Ghost<Seq<Seq<char>>>,
    /// For each received message, its position in the bus log.
    srcs: Ghost<Seq<int>>,
}

/// The outcome of one receive attempt.
#[derive(Debug)]
pub enum Recv {
    /// The next pending message.
    Message(String),
    /// The subscriber fell behind and this many messages were dropped for
    /// it; it resumes at the oldest retained message.
    Lagged(u64),
    /// Nothing is pending; the subscriber has seen everything published.
    Empty,
}

impl Bus {
    /// Every message ever published, in publication order.
    pub closed spec fn log(&self) -> Seq<Seq<char>> {
        self.hist@
    }

    /// The sequence number the next published message will get.
    pub open spec fn next_seq(&self) -> int {
        self.log().len() as int
    }

    /// The sequence number of the oldest message still retained.
    pub closed spec fn oldest(&self) -> int {
        self.first as int
    }

    /// The retention bound.
    pub closed spec fn capacity(&self) -> int {
        self.cap as int
    }

    pub closed spec fn wf(&self) -> bool {
        &&& self.cap >= 1
        &&& self.buf@.len() <= self.cap
        &&& self.first + self.buf@.len() == self.log().len()
        &&& self.log().len() <= u64::MAX
        &&& forall|i: int|
            0 <= i < self.buf@.len() ==> self.buf@[i]@ == self.log()[self.first + i]
    }

    /// What a subscriber standing at log position `pos` still has coming:
    /// every retained message it has not passed, in publication order. A
    /// position behind the retained window resumes at the oldest retained
    /// message.
    pub open spec fn pending(&self, pos: int) -> Seq<Seq<char>> {
        if pos < self.oldest() {
            self.log().subrange(self.oldest(), self.next_seq())
        } else {
            self.log().subrange(pos, self.next_seq())
        }
    }

    /// A fresh bus retaining at most `capacity` messages.
    pub fn new(capacity: usize) -> (bus: Bus)
        requires
            capacity >= 1,
        ensures
            bus.wf(),
            bus.log() == Seq::<Seq<char>>::empty(),
            bus.oldest() == 0,
            bus.capacity() == capacity,
    {
        Bus { cap: capacity, first: 0, buf: Vec::new(), hist: Ghost(Seq::empty()) }
    }

    /// Appends `msg` to the log. If the bus already retains `capacity`
    /// messages, the oldest retained one is dropped: subscribers that had not
    /// read it yet will lag instead of receiving it.
    pub fn publish(&mut self, msg: String)
        requires
            old(self).wf(),
            old(self).next_seq() < u64::MAX,
        ensures
            final(self).wf(),
            final(self).log() == old(self).log().push(msg@),
            final(self).capacity() == old(self).capacity(),
            final(self).oldest() == if old(self).next_seq() - old(self).oldest()
                < old(self).capacity() { old(self).oldest() } else { old(self).oldest() + 1 },
    {
        let ghost pre = *self;
        if self.buf.len() == self.cap {
            self.buf.remove(0);
            self.first = self.first + 1;
        }
        self.buf.push(msg);
        self.hist = Ghost(self.hist@.push(msg@));
        proof {
            assert forall|i: int| 0 <= i < self.buf@.len() implies
                self.buf@[i]@ == self.log()[self.first + i] by {
                if pre.buf@.len() == pre.cap {
                    if i < self.buf@.len() - 1 {
                        assert(self.buf@[i] == pre.buf@[i + 1]);
                    }
                } else {
                    if i < self.buf@.len() - 1 {
                        assert(self.buf@[i] == pre.buf@[i]);
                    }
                }
            }
        }
    }

    /// How many messages have been published so far; the next message gets
    /// this sequence number.
    pub fn published(&self) -> (n: u64)
        requires
            self.wf(),
        ensures
            n as int == self.next_seq(),
    {
        self.first + self.buf.len() as u64
    }

    /// A new subscription: it starts at the current end of the log, so it
    /// never observes a message published before it was created.
    pub fn subscribe(&self) -> (c: Cursor)
        requires
            self.wf(),
        ensures
            c.wf_for(*self),
            c.pos() == self.next_seq(),
            c.born() == self.next_seq(),
            c.received() == Seq::<Seq<char>>::empty(),
            c.sources() == Seq::<int>::empty(),
    {
        let next = self.first + self.buf.len() as u64;
        Cursor {
            at: next,
            born: Ghost(next as int),
            rcvd: Ghost(Seq::empty()),
            srcs: Ghost(Seq::empty()),
        }
    }

    /// One receive attempt for the subscriber owning `cur`. Exactly one of
    /// three things happens: the cursor stands at the end of the log and
    /// nothing is pending; the cursor fell behind the retained window, the
    /// dropped messages are counted and skipped, and the cursor resumes at
    /// the oldest retained message; or the message at the cursor is returned
    /// and the cursor advances past it.
    pub fn recv(&self, cur: &mut Cursor) -> (r: Recv)
        requires
            self.wf(),
            old(cur).wf_for(*self),
        ensures
            final(cur).wf_for(*self),
            final(cur).born() == old(cur).born(),
            old(cur).pos() == self.next_seq() ==> {
                &&& r is Empty
                &&& *final(cur) == *old(cur)
            },
            old(cur).pos() < self.oldest() ==> {
                &&& (r matches Recv::Lagged(n) && n == self.oldest() - old(cur).pos())
                &&& final(cur).pos() == self.oldest()
                &&& final(cur).received() == old(cur).received()
                &&& final(cur).sources() == old(cur).sources()
            },
            self.oldest() <= old(cur).pos() < self.next_seq() ==> {
                &&& (r matches Recv::Message(m) && m@ == self.log()[old(cur).pos()])
                &&& final(cur).pos() == old(cur).pos() + 1
                &&& final(cur).received() == old(cur).received().push(
                    self.log()[old(cur).pos()])
                &&& final(cur).sources() == old(cur).sources().push(old(cur).pos())
            },
    {
        if cur.at < self.first {
            let dropped = self.first - cur.at;
            cur.at = self.first;
            Recv::Lagged(dropped)
        } else {
            let next = self.first + self.buf.len() as u64;
            if cur.at == next {
                Recv::Empty
            } else {
                let idx = (cur.at - self.first) as usize;
                let msg = self.buf[idx].clone();
                cur.rcvd = Ghost(cur.rcvd@.push(msg@));
                cur.srcs = Ghost(cur.srcs@.push(cur.at as int));
                cur.at = cur.at + 1;
                Recv::Message(msg)
            }
        }
    }

    /// Receives until nothing is pending. The returned messages are exactly
    /// this subscriber's pending suffix of the log, in publication order:
    /// every retained message the cursor had not passed is delivered once,
    /// and a lagging cursor resumes at the oldest retained message.
    pub fn drain(&self, cur: &mut Cursor) -> (msgs: Vec<String>)
        requires
            self.wf(),
            old(cur).wf_for(*self),
        ensures
            final(cur).wf_for(*self),
            final(cur).born() == old(cur).born(),
            final(cur).pos() == self.next_seq(),
            seq_views(msgs@) == self.pending(old(cur).pos()),
            final(cur).received() == old(cur).received() + self.pending(old(cur).pos()),
    {
        let mut msgs: Vec<String> = Vec::new();
        let ghost start = self.pending_pos(old(cur).pos());
        loop
            invariant
                self.wf(),
                cur.wf_for(*self),
                cur.born() == old(cur).born(),
                start == self.pending_pos(old(cur).pos()),
                start <= self.pending_pos(cur.pos()) <= self.next_seq(),
                seq_views(msgs@) == self.log().subrange(start, self.pending_pos(cur.pos())),
                cur.received() == old(cur).received() + seq_views(msgs@),
            ensures
                cur.wf_for(*self),
                cur.born() == old(cur).born(),
                cur.pos() == self.next_seq(),
                seq_views(msgs@) == self.log().subrange(start, self.next_seq()),
                cur.received() == old(cur).received() + seq_views(msgs@),
            decreases self.next_seq() - cur.pos(),
        {
            let r = self.recv(cur);
            match r {
                Recv::Message(m) => {
                    msgs.push(m);
                    proof {
                        assert(seq_views(msgs@) =~= self.log().subrange(
                            start, self.pending_pos(cur.pos())));
                        assert(cur.received() =~= old(cur).received() + seq_views(msgs@));
                    }
                },
                Recv::Lagged(_) => {
                    proof {
                        assert(seq_views(msgs@) =~= self.log().subrange(
                            start, self.pending_pos(cur.pos())));
                    }
                },
                Recv::Empty => {
                    break;
                },
            }
        }
        proof {
            assert(self.pending(old(cur).pos()) =~= self.log().subrange(
                start, self.next_seq()));
        }
        msgs
    }

    /// A cursor position clamped into the retained window, as `pending`
    /// measures it.
    pub open spec fn pending_pos(&self, pos: int) -> int {
        if pos < self.oldest() {
            self.oldest()
        } else {
            pos
        }
    }
}

impl Cursor {
    /// The log position of the next message this subscriber will consider.
    pub closed spec fn pos(&self) -> int {
        self.at as int
    }

    /// The log position the subscription was created at.
    pub closed spec fn born(&self) -> int {
        self.born@
    }

    /// Everything this subscriber has received so far, in order.
    pub closed spec fn received(&self) -> Seq<Seq<char>> {
        self.rcvd@
    }

    /// The log position each received message came from.
    pub closed spec fn sources(&self) -> Seq<int> {
        self.srcs@
    }

    /// A cursor is tied to the bus it subscribed to: it never stands past the
    /// end of the log, it was created no earlier than its own position, each
    /// received message is the log entry it came from, and the source
    /// positions are strictly increasing — messages are observed in
    /// publication order, each at most once.
    pub closed spec fn wf_for(&self, bus: Bus) -> bool {
        &&& 0 <= self.born@ <= self.at <= bus.log().len()
        &&& self.srcs@.len() == self.rcvd@.len()
        &&& forall|k: int| 0 <= k < self.srcs@.len() ==>
            self.born@ <= #[trigger] self.srcs@[k] < self.at
        &&& forall|k1: int, k2: int|
            0 <= k1 < k2 < self.srcs@.len() ==> self.srcs@[k1] < self.srcs@[k2]
        &&& forall|k: int| 0 <= k < self.srcs@.len() ==>
            #[trigger] self.rcvd@[k] == bus.log()[self.srcs@[k]]
    }
}

/// A subscriber's history survives a publish: the log only grows at the end,
/// so a cursor well formed for the bus before a message was appended is well
/// formed for the bus afterwards.
pub proof fn lemma_cursor_wf_after_publish(c: Cursor, pre: Bus, post: Bus)
    requires
        c.wf_for(pre),
        post.log().len() <= u64::MAX,
        pre.log().is_prefix_of(post.log()),
    ensures
        c.wf_for(post),
{
    let n = pre.log().len() as int;
    assert(pre.log() =~= post.log().subrange(0, n));
    assert forall|k: int| 0 <= k < c.sources().len() implies
        #[trigger] c.received()[k] == post.log()[c.sources()[k]] by {
        let i = c.sources()[k];
        assert(0 <= i < n);
        assert(pre.log()[i] == post.log().subrange(0, n)[i]);
    }
}

/// Fan-out: a message the bus still retains is pending for every subscriber
/// whose cursor has not yet passed it — the publisher's own subscription
/// included. Draining such a cursor therefore delivers the message.
pub proof fn lemma_fanout(bus: Bus, c: Cursor, a: int)
    requires
        bus.wf(),
        c.wf_for(bus),
        bus.oldest() <= a < bus.next_seq(),
        c.pos() <= a,
    ensures
        bus.pending(c.pos())[a - bus.pending_pos(c.pos())] == bus.log()[a],
        bus.pending(c.pos()).contains(bus.log()[a]),
{
    let start = bus.pending_pos(c.pos());
    assert(bus.pending(c.pos())[a - start] == bus.log()[a]);
}

/// Order preservation per sender: publication order is observation order.
/// If one message was published before another (it stands earlier in the
/// log) and a subscriber received both, it received them in that order.
pub proof fn lemma_order_preserved(bus: Bus, c: Cursor, ka: int, kb: int)
    requires
        bus.wf(),
        c.wf_for(bus),
        0 <= ka < c.sources().len(),
        0 <= kb < c.sources().len(),
        c.sources()[ka] < c.sources()[kb],
    ensures
        ka < kb,
        c.received()[ka] == bus.log()[c.sources()[ka]],
        c.received()[kb] == bus.log()[c.sources()[kb]],
{
    if kb < ka {
        assert(c.sources()[kb] < c.sources()[ka]);
    }
}

/// Overflow tolerance: a subscriber that stalled past the retained window
/// does not stop receiving; its pending suffix is exactly the whole retained
/// window, so it resumes at the oldest retained message and misses nothing
/// that the bus still holds. No other subscriber's pending suffix is
/// involved: `pending` depends only on the bus and that subscriber's own
/// position.
pub proof fn lemma_overflow_tolerance(bus: Bus, p: int)
    requires
        bus.wf(),
        p < bus.oldest(),
    ensures
        bus.pending(p) == bus.log().subrange(bus.oldest(), bus.next_seq()),
        bus.pending(p).len() == bus.next_seq() - bus.oldest(),
{
}

/// No replay: a subscription never observes a message published before it
/// was created.
pub proof fn lemma_no_replay(bus: Bus, c: Cursor, k: int)
    requires
        bus.wf(),
        c.wf_for(bus),
        0 <= k < c.sources().len(),
    ensures
        c.sources()[k] >= c.born(),
{
}

} // verus!
