//! The table of live, authenticated connections, keyed by connection
//! identity, through which a message is fanned out to everyone but its
//! sender.

use vstd::prelude::*;
use vstd::std_specs::hash::{spec_keys_iter, group_hash_axioms};
use vstd::std_specs::iter::IteratorSpec;
use std::collections::HashMap;

verus! {

broadcast use group_hash_axioms;

/// Identities of live connections mapped to their outbound handles.
pub struct ConnectionRegistry<H> {
    handles: HashMap<u64, H>,
}

/// The connections other than `sender` in a registry whose identities are
/// `ids`: the recipients of a broadcast from `sender`.
pub open spec fn recipients(ids: Set<u64>, sender: u64) -> Set<u64> {
    ids.remove(sender)
}

impl<H> View for ConnectionRegistry<H> {
    type V = Map<u64, H>;

    closed spec fn view(&self) -> Map<u64, H> {
        self.handles@
    }
}

impl<H> ConnectionRegistry<H> {
    /// An empty registry.
    pub fn new() -> (r: Self)
        ensures
            r@ == Map::<u64, H>::empty(),
    {
        ConnectionRegistry { handles: HashMap::new() }
    }

    /// Makes `id` reachable through `handle`, replacing what it had.
    pub fn register(&mut self, id: u64, handle: H)
        ensures
            final(self)@ == old(self)@.insert(id, handle),
    {
        self.handles.insert(id, handle);
    }

    /// Removes `id`; says whether it was there. Removing an absent identity
    /// changes nothing and is no error.
    pub fn deregister(&mut self, id: u64) -> (removed: bool)
        ensures
            final(self)@ == old(self)@.remove(id),
            removed == old(self)@.dom().contains(id),
    {
        self.handles.remove(&id).is_some()
    }

    /// Whether `id` is registered.
    pub fn contains(&self, id: u64) -> (r: bool)
        ensures
            r == self@.dom().contains(id),
    {
        self.handles.contains_key(&id)
    }

    /// The handle of `id`, if it is registered.
    pub fn get(&self, id: u64) -> (r: Option<&H>)
        ensures
            match r {
                Some(h) => self@.dom().contains(id) && *h == self@[id],
                None => !self@.dom().contains(id),
            },
    {
        self.handles.get(&id)
    }

    /// The number of registered connections.
    pub fn len(&self) -> (r: usize)
        ensures
            r == self@.len(),
    {
        self.handles.len()
    }

    /// Every registered identity but `sender`, each once.
    pub fn recipients_except(&self, sender: u64) -> (r: Vec<u64>)
        ensures
            r@.no_duplicates(),
            r@.to_set() == recipients(self@.dom(), sender),
    {
        let ghost ks = spec_keys_iter(&self.handles).remaining();
        let mut out: Vec<u64> = Vec::new();
        let ghost mut seen: int = 0;
        for k in it: self.handles.keys()
            invariant
                it.seq() == ks,
                seen == it.index(),
                0 <= seen <= ks.len(),
                ks.no_duplicates(),
                out@.no_duplicates(),
                forall|x: u64|
                    out@.contains(x) <==> (x != sender && exists|j: int|
                        0 <= j < it.index() && *ks[j] == x),
        {
            assert(*k == *ks[seen]);
            let ghost before = out@;
            if *k != sender {
                assert forall|x: u64| before.contains(x) implies x != *k by {
                    let j = choose|j: int| 0 <= j < seen && *ks[j] == x;
                    assert(ks[j] != ks[seen]);
                }
                out.push(*k);
                assert(out@ == before.push(*k));
                assert forall|a: int, b: int| 0 <= a < b < out@.len() implies out@[a] != out@[b] by {
                    if b == before.len() {
                        assert(before.contains(out@[a]));
                    }
                }
                assert forall|x: u64|
                    out@.contains(x) implies (x != sender && exists|j: int|
                        0 <= j < seen + 1 && *ks[j] == x) by {
                    let i = choose|i: int| 0 <= i < out@.len() && out@[i] == x;
                    if i < before.len() {
                        assert(before.contains(x));
                        let j = choose|j: int| 0 <= j < seen && *ks[j] == x;
                        assert(0 <= j < seen + 1 && *ks[j] == x);
                    } else {
                        assert(0 <= seen < seen + 1 && *ks[seen] == x);
                    }
                }
                assert forall|x: u64|
                    (x != sender && exists|j: int| 0 <= j < seen + 1 && *ks[j] == x) implies out@.contains(x) by {
                    let j = choose|j: int| 0 <= j < seen + 1 && *ks[j] == x;
                    if j < seen {
                        assert(before.contains(x));
                        let i = choose|i: int| 0 <= i < before.len() && before[i] == x;
                        assert(out@[i] == x);
                    } else {
                        assert(out@[before.len() as int] == x);
                    }
                }
            } else {
                assert forall|x: u64|
                    out@.contains(x) <==> (x != sender && exists|j: int|
                        0 <= j < seen + 1 && *ks[j] == x) by {
                    if x != sender && exists|j: int| 0 <= j < seen + 1 && *ks[j] == x {
                        let j = choose|j: int| 0 <= j < seen + 1 && *ks[j] == x;
                        assert(j != seen);
                    }
                }
            }
            proof {
                seen = seen + 1;
            }
        }
        assert(seen == ks.len());
        assert(out@.to_set() =~= recipients(self@.dom(), sender)) by {
            assert forall|x: u64| out@.to_set().contains(x) implies recipients(self@.dom(), sender).contains(x) by {
                let j = choose|j: int| 0 <= j < seen && *ks[j] == x;
                assert(ks.unref()[j] == x);
                assert(ks.unref().contains(x));
            }
            assert forall|x: u64| recipients(self@.dom(), sender).contains(x) implies out@.contains(x) by {
                assert(ks.unref().to_set().contains(x));
                let j = choose|j: int| 0 <= j < ks.len() && ks.unref()[j] == x;
                assert(*ks[j] == x);
            }
        }
        out
    }
}

/// A broadcast never returns to its sender and reaches every other
/// registered connection.
pub proof fn lemma_broadcast_exclusion(ids: Set<u64>, sender: u64, other: u64)
    ensures
        !recipients(ids, sender).contains(sender),
        ids.contains(other) && other != sender ==> recipients(ids, sender).contains(other),
{
}

/// A broken recipient costs only itself: whether or not it has been removed
/// yet, every other registered connection but the sender is still a
/// recipient of the next broadcast.
pub proof fn lemma_failure_isolated(ids: Set<u64>, sender: u64, broken: u64, other: u64)
    requires
        ids.contains(other),
        other != sender,
        other != broken,
    ensures
        recipients(ids, sender).contains(other),
        recipients(ids.remove(broken), sender).contains(other),
        recipients(ids.remove(broken), sender) == recipients(ids, sender).remove(broken),
{
    assert(recipients(ids.remove(broken), sender) =~= recipients(ids, sender).remove(broken));
}

/// Deregistering an identity a second time changes nothing, and the
/// identity is gone after either call.
pub proof fn lemma_deregister_idempotent<H>(m: Map<u64, H>, id: u64)
    ensures
        m.remove(id).remove(id) == m.remove(id),
        !m.remove(id).dom().contains(id),
{
    assert(m.remove(id).remove(id) =~= m.remove(id));
}

} // verus!
