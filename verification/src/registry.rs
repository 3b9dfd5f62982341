//! Live-connection registry: the set of peer addresses whose connection
//! handler is still running. Routing never consults it; it exists for
//! lifecycle accounting only.
//!
//! A peer address is carried as a plain `u64` key; the I/O layer derives one
//! from the socket address it accepted and hands the same key to `register`
//! and `unregister`.

use vstd::prelude::*;
use vstd::seq_lib::*;

verus! {

/// The registry of live peer addresses. Its view is the set of registered
/// keys; the representation keeps each key at most once.
pub struct Registry {
    addrs: Vec<u64>,
}

impl View for Registry {
    type V = Set<u64>;

    closed spec fn view(&self) -> Set<u64> {
        self.addrs@.to_set()
    }
}

impl Registry {
    /// Each address is held at most once.
    pub closed spec fn wf(&self) -> bool {
        self.addrs@.no_duplicates()
    }

    /// An empty registry.
    pub fn new() -> (r: Registry)
        ensures
            r.wf(),
            r@ == Set::<u64>::empty(),
    {
        let r = Registry { addrs: Vec::new() };
        proof {
            assert(r.addrs@.to_set() =~= Set::<u64>::empty());
        }
        r
    }

    /// Whether `addr` is currently registered.
    pub fn is_registered(&self, addr: u64) -> (r: bool)
        ensures
            r == self@.contains(addr),
    {
        let mut i: usize = 0;
        while i < self.addrs.len()
            invariant
                i <= self.addrs@.len(),
                forall|k: int| 0 <= k < i ==> self.addrs@[k] != addr,
            decreases self.addrs@.len() - i,
        {
            if self.addrs[i] == addr {
                proof {
                    assert(self.addrs@.contains(addr));
                }
                return true;
            }
            i += 1;
        }
        proof {
            assert(!self.addrs@.contains(addr));
        }
        false
    }

    /// Inserts a liveness marker for `addr`. Registering an address that is
    /// already present leaves the registry as it was (idempotent overwrite).
    pub fn register(&mut self, addr: u64)
        requires
            old(self).wf(),
        ensures
            final(self).wf(),
            final(self)@ == old(self)@.insert(addr),
    {
        if !self.is_registered(addr) {
            let ghost pre = self.addrs@;
            self.addrs.push(addr);
            proof {
                assert forall|a: u64| self.addrs@.contains(a) implies
                    (pre.contains(a) || a == addr) by {
                    let k = choose|k: int|
                        0 <= k < self.addrs@.len() && self.addrs@[k] == a;
                    if k < pre.len() {
                        assert(pre[k] == a);
                    }
                }
                assert forall|a: u64| pre.contains(a) || a == addr implies
                    self.addrs@.contains(a) by {
                    if pre.contains(a) {
                        let k = choose|k: int| 0 <= k < pre.len() && pre[k] == a;
                        assert(self.addrs@[k] == a);
                    } else {
                        assert(self.addrs@[pre.len() as int] == a);
                    }
                }
                assert(self.addrs@.to_set() =~= pre.to_set().insert(addr));
            }
        } else {
            proof {
                assert(self.addrs@.to_set() =~= self.addrs@.to_set().insert(addr));
            }
        }
    }

    /// Removes the marker for `addr`. Removing an absent address is a no-op,
    /// not an error, so redundant or racing removals are harmless.
    pub fn unregister(&mut self, addr: u64)
        requires
            old(self).wf(),
        ensures
            final(self).wf(),
            final(self)@ == old(self)@.remove(addr),
    {
        let ghost pre = self.addrs@;
        let mut i: usize = 0;
        while i < self.addrs.len()
            invariant
                self.addrs@ == pre,
                pre == old(self).addrs@,
                pre.no_duplicates(),
                i <= pre.len(),
                forall|k: int| 0 <= k < i ==> pre[k] != addr,
            decreases pre.len() - i,
        {
            if self.addrs[i] == addr {
                self.addrs.remove(i);
                proof {
                    assert forall|x: int, y: int|
                        0 <= x < y < self.addrs@.len() implies
                        self.addrs@[x] != self.addrs@[y] by {
                        if y < i {
                            assert(pre[x] != pre[y]);
                        } else if x < i {
                            assert(pre[x] != pre[y + 1]);
                        } else {
                            assert(pre[x + 1] != pre[y + 1]);
                        }
                    }
                    assert forall|a: u64| self.addrs@.contains(a) implies
                        (pre.contains(a) && a != addr) by {
                        let k = choose|k: int|
                            0 <= k < self.addrs@.len() && self.addrs@[k] == a;
                        if k < i {
                            assert(pre[k] == a);
                        } else {
                            assert(pre[k + 1] == a);
                        }
                    }
                    assert forall|a: u64| pre.contains(a) && a != addr implies
                        self.addrs@.contains(a) by {
                        let k = choose|k: int| 0 <= k < pre.len() && pre[k] == a;
                        if k < i {
                            assert(self.addrs@[k] == a);
                        } else {
                            assert(self.addrs@[k - 1] == a);
                        }
                    }
                    assert(self.addrs@.to_set() =~= pre.to_set().remove(addr));
                }
                return;
            }
            i += 1;
        }
        proof {
            assert(!pre.contains(addr));
            assert(self.addrs@.to_set() =~= pre.to_set().remove(addr));
        }
    }

    /// How many connections are registered.
    pub fn count(&self) -> (n: usize)
        requires
            self.wf(),
        ensures
            n == self@.len(),
    {
        proof {
            self.addrs@.unique_seq_to_set();
        }
        self.addrs.len()
    }
}

} // verus!
