//! The connection-lifecycle and fan-out engine. One `Server` value holds the
//! registry, the bus, and every accepted connection; the I/O layer owns the
//! sockets and calls in with what happened (a read, an end-of-stream, a write
//! failure), and each call performs the corresponding step: register on
//! accept, publish on inbound bytes, deliver pending messages outbound, and
//! unregister on closure. Closure is strictly local: it never touches the bus
//! or any other connection.
//!
//! Each connection walks `Active` to `Closed` and never back; `Closed` is
//! terminal and triggers registry cleanup.

use vstd::prelude::*;
use vstd::pervasive::VecAdditionalExecFns;
use crate::bus::{Bus, Cursor, Recv, seq_views, lemma_cursor_wf_after_publish, lemma_fanout,
    lemma_order_preserved};
use crate::registry::Registry;

verus! {

/// What `String::from_utf8_lossy` returns for the given bytes: UTF-8
/// decoding with each invalid sequence replaced rather than failing. The
/// result depends on the bytes alone.
pub uninterp spec fn lossy_utf8(bytes: Seq<u8>) -> Seq<char>;

/// Relies on std's `String::from_utf8_lossy`: decodes bytes as UTF-8,
/// substituting the replacement character for invalid sequences.
#[verifier::external_body]
fn decode_lossy(data: &[u8]) -> (s: String)
    ensures
        s@ == lossy_utf8(data@),
{
    String::from_utf8_lossy(data).to_string()
}

/// Where a connection stands in its lifecycle. `Connecting` is instantaneous
/// (an accepted socket is active at once), so only the steady state and the
/// terminal state remain.
#[derive(Clone, Copy, PartialEq, Eq, Structural, Debug)]
pub enum Phase {
    Active,
    Closed,
}

/// One accepted connection: its peer address key, its lifecycle phase, and
/// its private subscription into the bus.
#[derive(Clone, Copy)]
pub struct Conn {
    addr: u64,
    phase: Phase,
    cursor: Cursor,
}

impl Conn {
    /// The peer address key of this connection.
    pub closed spec fn addr(&self) -> u64 {
        self.addr
    }

    /// Whether the connection's handler is still running.
    pub closed spec fn phase(&self) -> Phase {
        self.phase
    }

    /// This connection's private bus subscription.
    pub closed spec fn cursor(&self) -> Cursor {
        self.cursor
    }
}

/// The server core: the live-connection registry, the shared bus, and the
/// record of every connection accepted so far.
pub struct Server {
    registry: Registry,
    bus: Bus,
    conns: Vec<Conn>,
}

impl Server {
    /// The bus, as a mathematical value.
    pub closed spec fn bus(&self) -> Bus {
        self.bus
    }

    /// Every message published so far, in publication order.
    pub open spec fn log(&self) -> Seq<Seq<char>> {
        self.bus().log()
    }

    /// The sequence number the next published message will get.
    pub open spec fn next_seq(&self) -> int {
        self.bus().next_seq()
    }

    /// The sequence number of the oldest message the bus still retains.
    pub open spec fn oldest(&self) -> int {
        self.bus().oldest()
    }

    /// The bus retention bound.
    pub open spec fn capacity(&self) -> int {
        self.bus().capacity()
    }

    /// The addresses currently in the registry.
    pub closed spec fn addrs(&self) -> Set<u64> {
        self.registry@
    }

    /// Every connection accepted so far.
    pub closed spec fn conns(&self) -> Seq<Conn> {
        self.conns@
    }

    /// Connection number `i`, in acceptance order.
    pub open spec fn conn(&self, i: int) -> Conn {
        self.conns()[i]
    }

    /// How many connections have been accepted so far.
    pub open spec fn n_conns(&self) -> int {
        self.conns().len() as int
    }

    /// Whether `a` is the address of a connection whose handler is still
    /// running.
    pub open spec fn live(&self, a: u64) -> bool {
        exists|k: int|
            0 <= k < self.n_conns() && (#[trigger] self.conn(k)).addr() == a
                && self.conn(k).phase() is Active
    }

    /// The set of addresses of connections whose handler is still running.
    pub open spec fn live_set(&self) -> Set<u64> {
        Set::new(|a: u64| self.live(a))
    }

    /// What connection `j` still has coming from the bus.
    pub open spec fn pending_for(&self, j: int) -> Seq<Seq<char>> {
        self.bus().pending(self.conn(j).cursor().pos())
    }

    /// The server invariant: registry and bus are well formed, the registry
    /// holds exactly the live addresses, every cursor is tied to the bus,
    /// and no two live connections share an address.
    pub closed spec fn wf(&self) -> bool {
        &&& self.registry.wf()
        &&& self.bus.wf()
        &&& self.registry@ == self.live_set()
        &&& forall|k: int|
            0 <= k < self.conns@.len() ==> (#[trigger] self.conns@[k]).cursor.wf_for(self.bus)
        &&& forall|k1: int, k2: int|
            0 <= k1 < k2 < self.conns@.len() && self.conns@[k1].phase is Active
                && self.conns@[k2].phase is Active ==> self.conns@[k1].addr
                != self.conns@[k2].addr
    }

    /// A fresh server: empty registry, empty log, no connections. The bus
    /// retains at most `capacity` messages.
    pub fn new(capacity: usize) -> (s: Server)
        requires
            capacity >= 1,
        ensures
            s.wf(),
            s.n_conns() == 0,
            s.log() == Seq::<Seq<char>>::empty(),
            s.oldest() == 0,
            s.addrs() == Set::<u64>::empty(),
            s.capacity() == capacity,
    {
        let s = Server { registry: Registry::new(), bus: Bus::new(capacity), conns: Vec::new() };
        proof {
            assert(s.live_set() =~= Set::<u64>::empty());
        }
        s
    }

    /// Accepts a connection from address `addr`: registers the address and
    /// creates the connection's private bus subscription, which starts at the
    /// end of the log and so never observes a message published before the
    /// connection arrived. Returns the connection's number.
    pub fn accept(&mut self, addr: u64) -> (i: usize)
        requires
            old(self).wf(),
            !old(self).live(addr),
        ensures
            final(self).wf(),
            i == old(self).n_conns(),
            final(self).n_conns() == old(self).n_conns() + 1,
            final(self).conn(i as int).addr() == addr,
            final(self).conn(i as int).phase() is Active,
            final(self).conn(i as int).cursor().pos() == final(self).next_seq(),
            final(self).conn(i as int).cursor().born() == final(self).next_seq(),
            final(self).conn(i as int).cursor().received() == Seq::<Seq<char>>::empty(),
            forall|j: int|
                0 <= j < old(self).n_conns() ==> final(self).conn(j) == old(self).conn(j),
            final(self).bus() == old(self).bus(),
            final(self).addrs() == old(self).addrs().insert(addr),
    {
        let i = self.conns.len();
        self.registry.register(addr);
        let cursor = self.bus.subscribe();
        self.conns.push(Conn { addr, phase: Phase::Active, cursor });
        proof {
            let pre = *old(self);
            let post = *self;
            assert forall|a: u64| post.live(a) implies (pre.live(a) || a == addr) by {
                let k = choose|k: int|
                    0 <= k < post.n_conns() && (#[trigger] post.conn(k)).addr() == a
                        && post.conn(k).phase() is Active;
                if k < pre.n_conns() {
                    assert(pre.conn(k) == post.conn(k));
                }
            }
            assert forall|a: u64| pre.live(a) || a == addr implies post.live(a) by {
                if pre.live(a) {
                    let k = choose|k: int|
                        0 <= k < pre.n_conns() && (#[trigger] pre.conn(k)).addr() == a
                            && pre.conn(k).phase() is Active;
                    assert(post.conn(k) == pre.conn(k));
                    assert(post.conn(k).addr() == a && post.conn(k).phase() is Active);
                } else {
                    assert(post.conn(i as int).addr() == a
                        && post.conn(i as int).phase() is Active);
                }
            }
            assert(post.live_set() =~= pre.live_set().insert(addr));
            assert forall|k: int| 0 <= k < post.conns@.len() implies
                (#[trigger] post.conns@[k]).cursor.wf_for(post.bus) by {
                if k < i as int {
                    assert(post.conns@[k] == pre.conns@[k]);
                }
            }
            assert forall|k1: int, k2: int|
                0 <= k1 < k2 < post.conns@.len() && post.conns@[k1].phase is Active
                    && post.conns@[k2].phase is Active implies post.conns@[k1].addr
                != post.conns@[k2].addr by {
                if k2 == i as int {
                    assert(pre.conn(k1) == post.conn(k1));
                    assert(pre.live(pre.conn(k1).addr()));
                } else {
                    assert(pre.conn(k1) == post.conn(k1));
                    assert(pre.conn(k2) == post.conn(k2));
                }
            }
        }
        i
    }

    /// The inbound activity's step, for connection `i`. A read of zero bytes
    /// is end-of-stream: the connection closes and its address leaves the
    /// registry. Any other read is decoded as text — invalid sequences are
    /// replaced, never fatal — and published to the bus for every subscriber,
    /// the sender itself included. Returns whether the connection closed.
    pub fn on_read(&mut self, i: usize, data: &[u8]) -> (closed: bool)
        requires
            old(self).wf(),
            i < old(self).n_conns(),
            old(self).conn(i as int).phase() is Active,
            old(self).next_seq() < u64::MAX,
        ensures
            final(self).wf(),
            closed == (data@.len() == 0),
            data@.len() == 0 ==> closes(*old(self), *final(self), i as int),
            data@.len() > 0 ==> publishes(*old(self), *final(self), lossy_utf8(data@)),
    {
        if data.len() == 0 {
            self.disconnect(i);
            true
        } else {
            let msg = decode_lossy(data);
            self.bus.publish(msg);
            proof {
                let pre = *old(self);
                let post = *self;
                assert(pre.bus.log().is_prefix_of(post.bus.log())) by {
                    assert(pre.bus.log() =~= post.bus.log().subrange(
                        0, pre.bus.log().len() as int));
                }
                assert forall|k: int| 0 <= k < post.conns@.len() implies
                    (#[trigger] post.conns@[k]).cursor.wf_for(post.bus) by {
                    lemma_cursor_wf_after_publish(post.conns@[k].cursor, pre.bus, post.bus);
                }
                lemma_same_shape_same_live(pre, post);
            }
            false
        }
    }

    /// Closes connection `i`: its phase becomes `Closed` — terminal, there is
    /// no way back — and its address leaves the registry. The bus and every
    /// other connection are untouched: failure is strictly local. The I/O
    /// layer calls this on a read error or a write failure; `on_read` calls
    /// it on end-of-stream.
    pub fn disconnect(&mut self, i: usize)
        requires
            old(self).wf(),
            i < old(self).n_conns(),
            old(self).conn(i as int).phase() is Active,
        ensures
            final(self).wf(),
            closes(*old(self), *final(self), i as int),
    {
        let c = self.conns[i];
        self.registry.unregister(c.addr);
        self.conns.set(i, Conn { addr: c.addr, phase: Phase::Closed, cursor: c.cursor });
        proof {
            let pre = *old(self);
            let post = *self;
            let ad = pre.conn(i as int).addr();
            assert forall|a: u64| post.live(a) implies (pre.live(a) && a != ad) by {
                let k = choose|k: int|
                    0 <= k < post.n_conns() && (#[trigger] post.conn(k)).addr() == a
                        && post.conn(k).phase() is Active;
                assert(k != i as int);
                assert(pre.conn(k) == post.conn(k));
                if a == ad {
                    if k < i as int {
                        assert(pre.conns@[k].addr != pre.conns@[i as int].addr);
                    } else {
                        assert(pre.conns@[i as int].addr != pre.conns@[k].addr);
                    }
                }
            }
            assert forall|a: u64| pre.live(a) && a != ad implies post.live(a) by {
                let k = choose|k: int|
                    0 <= k < pre.n_conns() && (#[trigger] pre.conn(k)).addr() == a
                        && pre.conn(k).phase() is Active;
                assert(k != i as int);
                assert(post.conn(k) == pre.conn(k));
            }
            assert(post.live_set() =~= pre.live_set().remove(ad));
            assert forall|k: int| 0 <= k < post.conns@.len() implies
                (#[trigger] post.conns@[k]).cursor.wf_for(post.bus) by {
                if k != i as int {
                    assert(post.conns@[k] == pre.conns@[k]);
                } else {
                    assert(post.conns@[k].cursor == pre.conns@[k].cursor);
                }
            }
            assert forall|k1: int, k2: int|
                0 <= k1 < k2 < post.conns@.len() && post.conns@[k1].phase is Active
                    && post.conns@[k2].phase is Active implies post.conns@[k1].addr
                != post.conns@[k2].addr by {
                assert(k1 != i as int && k2 != i as int);
                assert(post.conns@[k1] == pre.conns@[k1]);
                assert(post.conns@[k2] == pre.conns@[k2]);
            }
        }
    }

    /// The outbound activity's step, for connection `i`: one receive attempt
    /// on its private subscription. Exactly one of three things happens —
    /// nothing is pending; the connection lagged past the retained window,
    /// the dropped messages are counted and it resumes at the oldest retained
    /// one; or the next pending message is handed out, to be written to the
    /// socket verbatim. Only connection `i`'s cursor moves.
    pub fn poll(&mut self, i: usize) -> (r: Recv)
        requires
            old(self).wf(),
            i < old(self).n_conns(),
            old(self).conn(i as int).phase() is Active,
        ensures
            final(self).wf(),
            only_cursor_moved(*old(self), *final(self), i as int),
            ({
                let c0 = old(self).conn(i as int).cursor();
                let c1 = final(self).conn(i as int).cursor();
                let bus = old(self).bus();
                &&& c1.born() == c0.born()
                &&& (c0.pos() == bus.next_seq() ==> r is Empty && c1 == c0)
                &&& (c0.pos() < bus.oldest() ==> {
                    &&& (r matches Recv::Lagged(n) && n == bus.oldest() - c0.pos())
                    &&& c1.pos() == bus.oldest()
                    &&& c1.received() == c0.received()
                    &&& c1.sources() == c0.sources()
                })
                &&& (bus.oldest() <= c0.pos() < bus.next_seq() ==> {
                    &&& (r matches Recv::Message(m) && m@ == bus.log()[c0.pos()])
                    &&& c1.pos() == c0.pos() + 1
                    &&& c1.received() == c0.received().push(bus.log()[c0.pos()])
                    &&& c1.sources() == c0.sources().push(c0.pos())
                })
            }),
    {
        let mut c = self.conns[i];
        let r = self.bus.recv(&mut c.cursor);
        self.conns.set(i, c);
        proof {
            self.lemma_wf_after_cursor_update(*old(self), i as int);
        }
        r
    }

    /// Receives for connection `i` until nothing is pending: the returned
    /// messages are exactly what the connection had pending, in publication
    /// order. A connection that lagged resumes at the oldest retained
    /// message. Only connection `i`'s cursor moves.
    pub fn drain_conn(&mut self, i: usize) -> (msgs: Vec<String>)
        requires
            old(self).wf(),
            i < old(self).n_conns(),
            old(self).conn(i as int).phase() is Active,
        ensures
            final(self).wf(),
            only_cursor_moved(*old(self), *final(self), i as int),
            seq_views(msgs@) == old(self).pending_for(i as int),
            final(self).conn(i as int).cursor().pos() == old(self).next_seq(),
            final(self).conn(i as int).cursor().received() == old(self).conn(
                i as int).cursor().received() + old(self).pending_for(i as int),
            final(self).conn(i as int).cursor().born() == old(self).conn(
                i as int).cursor().born(),
    {
        let mut c = self.conns[i];
        let msgs = self.bus.drain(&mut c.cursor);
        self.conns.set(i, c);
        proof {
            self.lemma_wf_after_cursor_update(*old(self), i as int);
        }
        msgs
    }

    /// Re-establishes the invariant when only one connection's cursor was
    /// replaced by another cursor well formed for the unchanged bus.
    proof fn lemma_wf_after_cursor_update(&self, pre: Server, i: int)
        requires
            pre.wf(),
            0 <= i < pre.n_conns(),
            self.registry == pre.registry,
            self.bus == pre.bus,
            self.conns@.len() == pre.conns@.len(),
            forall|j: int|
                0 <= j < pre.conns@.len() && j != i ==> self.conns@[j] == pre.conns@[j],
            self.conns@[i].addr == pre.conns@[i].addr,
            self.conns@[i].phase == pre.conns@[i].phase,
            self.conns@[i].cursor.wf_for(pre.bus),
        ensures
            self.wf(),
    {
        let post = *self;
        lemma_same_shape_same_live(pre, post);
        assert forall|k: int| 0 <= k < post.conns@.len() implies
            (#[trigger] post.conns@[k]).cursor.wf_for(post.bus) by {
            if k != i {
                assert(post.conns@[k] == pre.conns@[k]);
            }
        }
        assert forall|k1: int, k2: int|
            0 <= k1 < k2 < post.conns@.len() && post.conns@[k1].phase is Active
                && post.conns@[k2].phase is Active implies post.conns@[k1].addr
            != post.conns@[k2].addr by {
            assert(post.conns@[k1].addr == pre.conns@[k1].addr);
            assert(post.conns@[k1].phase == pre.conns@[k1].phase);
            assert(post.conns@[k2].addr == pre.conns@[k2].addr);
            assert(post.conns@[k2].phase == pre.conns@[k2].phase);
        }
    }

    /// How many connections have been accepted so far (closed ones included).
    pub fn conn_count(&self) -> (n: usize)
        ensures
            n == self.n_conns(),
    {
        self.conns.len()
    }

    /// Whether `addr` belongs to a live connection.
    pub fn is_live_addr(&self, addr: u64) -> (r: bool)
        requires
            self.wf(),
        ensures
            r == self.live(addr),
    {
        self.registry.is_registered(addr)
    }

    /// Whether connection `i`'s handler is still running.
    pub fn conn_is_active(&self, i: usize) -> (r: bool)
        requires
            i < self.n_conns(),
        ensures
            r == (self.conn(i as int).phase() is Active),
    {
        let c = self.conns[i];
        match c.phase {
            Phase::Active => true,
            Phase::Closed => false,
        }
    }

    /// How many messages have been published so far.
    pub fn published(&self) -> (n: u64)
        requires
            self.wf(),
        ensures
            n as int == self.next_seq(),
    {
        self.bus.published()
    }

    /// How many connections are live right now.
    pub fn live_count(&self) -> (n: usize)
        requires
            self.wf(),
        ensures
            n == self.addrs().len(),
    {
        self.registry.count()
    }
}

/// How one connection's closure changes the server: that connection is now
/// `Closed`, its address has left the registry, and nothing else moved — the
/// bus and every other connection are exactly what they were.
pub open spec fn closes(pre: Server, post: Server, i: int) -> bool {
    &&& post.n_conns() == pre.n_conns()
    &&& post.conn(i).addr() == pre.conn(i).addr()
    &&& post.conn(i).phase() is Closed
    &&& post.conn(i).cursor() == pre.conn(i).cursor()
    &&& forall|j: int| 0 <= j < pre.n_conns() && j != i ==> post.conn(j) == pre.conn(j)
    &&& post.addrs() == pre.addrs().remove(pre.conn(i).addr())
    &&& post.bus() == pre.bus()
}

/// How a publish changes the server: the message joins the end of the log —
/// dropping the oldest retained message if the bus was full — and every
/// connection is exactly what it was.
pub open spec fn publishes(pre: Server, post: Server, m: Seq<char>) -> bool {
    &&& post.n_conns() == pre.n_conns()
    &&& forall|j: int| 0 <= j < pre.n_conns() ==> post.conn(j) == pre.conn(j)
    &&& post.addrs() == pre.addrs()
    &&& post.log() == pre.log().push(m)
    &&& post.capacity() == pre.capacity()
    &&& post.oldest() == if pre.next_seq() - pre.oldest() < pre.capacity() {
        pre.oldest()
    } else {
        pre.oldest() + 1
    }
}

/// A frame for the receive steps: everything but connection `i`'s cursor —
/// the bus, the registry, every other connection, and `i`'s own address and
/// phase — is exactly what it was.
pub open spec fn only_cursor_moved(pre: Server, post: Server, i: int) -> bool {
    &&& post.n_conns() == pre.n_conns()
    &&& post.bus() == pre.bus()
    &&& post.addrs() == pre.addrs()
    &&& forall|j: int| 0 <= j < pre.n_conns() && j != i ==> post.conn(j) == pre.conn(j)
    &&& post.conn(i).addr() == pre.conn(i).addr()
    &&& post.conn(i).phase() == pre.conn(i).phase()
}

/// Connections with the same addresses and phases have the same live set.
proof fn lemma_same_shape_same_live(pre: Server, post: Server)
    requires
        post.conns().len() == pre.conns().len(),
        forall|k: int|
            0 <= k < pre.conns().len() ==> (#[trigger] post.conn(k)).addr() == pre.conn(k).addr()
                && post.conn(k).phase() == pre.conn(k).phase(),
    ensures
        post.live_set() == pre.live_set(),
{
    assert forall|a: u64| post.live(a) <==> pre.live(a) by {
        if post.live(a) {
            let k = choose|k: int|
                0 <= k < post.n_conns() && (#[trigger] post.conn(k)).addr() == a
                    && post.conn(k).phase() is Active;
            assert(pre.conn(k).addr() == a && pre.conn(k).phase() is Active);
        }
        if pre.live(a) {
            let k = choose|k: int|
                0 <= k < pre.n_conns() && (#[trigger] pre.conn(k)).addr() == a
                    && pre.conn(k).phase() is Active;
            assert(post.conn(k).addr() == a && post.conn(k).phase() is Active);
        }
    }
    assert(post.live_set() =~= pre.live_set());
}

/// Registry consistency: at any point at which the invariant holds, the set
/// of addresses in the registry equals the set of addresses of the
/// connections whose handler has not yet exited.
pub proof fn lemma_registry_consistency(s: Server)
    requires
        s.wf(),
    ensures
        s.addrs() == s.live_set(),
{
}

/// Isolation: closing connection `k` touches neither the bus nor any other
/// connection, so what any other connection has pending — and therefore
/// everything it goes on to receive — is exactly what it was.
pub proof fn lemma_isolation(pre: Server, post: Server, k: int, j: int)
    requires
        closes(pre, post, k),
        0 <= j < pre.n_conns(),
        j != k,
    ensures
        post.conn(j) == pre.conn(j),
        post.log() == pre.log(),
        post.pending_for(j) == pre.pending_for(j),
{
}

/// Order preservation per sender: a connection that publishes twice without
/// disconnecting puts its two messages into the log in that order, and any
/// connection that received both — their log positions stand in its receive
/// history — received the earlier one first.
pub proof fn lemma_order_preserved_for_conn(s: Server, j: int, ka: int, kb: int)
    requires
        s.wf(),
        0 <= j < s.n_conns(),
        0 <= ka < s.conn(j).cursor().sources().len(),
        0 <= kb < s.conn(j).cursor().sources().len(),
        s.conn(j).cursor().sources()[ka] < s.conn(j).cursor().sources()[kb],
    ensures
        ka < kb,
        s.conn(j).cursor().received()[ka] == s.log()[s.conn(j).cursor().sources()[ka]],
        s.conn(j).cursor().received()[kb] == s.log()[s.conn(j).cursor().sources()[kb]],
{
    lemma_order_preserved(s.bus(), s.conn(j).cursor(), ka, kb);
}

/// Fan-out: a message the bus still retains is pending for every connection
/// whose cursor has not yet passed it — the connection that published it
/// included, since a publisher is subscribed like everyone else. Draining
/// any such connection therefore delivers the message.
pub proof fn lemma_fanout_all(s: Server, a: int)
    requires
        s.wf(),
        s.oldest() <= a < s.next_seq(),
    ensures
        forall|j: int|
            0 <= j < s.n_conns() && (#[trigger] s.conn(j)).cursor().pos() <= a
                ==> s.pending_for(j).contains(s.log()[a]),
{
    assert forall|j: int|
        0 <= j < s.n_conns() && (#[trigger] s.conn(j)).cursor().pos() <= a
            implies s.pending_for(j).contains(s.log()[a]) by {
        lemma_fanout(s.bus(), s.conn(j).cursor(), a);
    }
}

} // verus!
