//! The peer registry: a map from connection identity to outbound sink.

use std::collections::HashMap;
use vstd::prelude::*;
use vstd::std_specs::iter::IteratorSpec;

verus! {

broadcast use vstd::std_specs::hash::group_hash_axioms;

/// Maps each registered connection identity to the sink on which outbound
/// payloads for that connection are enqueued. The registry owns the sinks;
/// it knows nothing of what is sent through them.
pub struct PeerRegistry<S> {
    peers: HashMap<u128, S>,
}

impl<S> View for PeerRegistry<S> {
    type V = Map<u128, S>;

    closed spec fn view(&self) -> Map<u128, S> {
        self.peers@
    }
}

/// `HashMap::get_mut` on an integer key: a mutable borrow of the value stored
/// under `id`, or `None` when nothing is stored there. The claim is that the
/// map changes only in that one value, and only through the borrow.
#[verifier::external_body]
fn entry_mut<S>(peers: &mut HashMap<u128, S>, id: u128) -> (slot: Option<&mut S>)
    ensures
        slot is Some <==> old(peers)@.contains_key(id),
        slot is None ==> final(peers)@ == old(peers)@,
        slot is Some ==> *slot->Some_0 == old(peers)@[id],
        slot is Some ==> final(peers)@ == old(peers)@.insert(id, *final(slot->Some_0)),
{
    peers.get_mut(&id)
}

impl<S> PeerRegistry<S> {
    /// An empty registry.
    pub fn new() -> (registry: Self)
        ensures
            registry@ == Map::<u128, S>::empty(),
    {
        PeerRegistry { peers: HashMap::new() }
    }

    /// Number of registered connections.
    pub fn len(&self) -> (n: usize)
        ensures
            n == self@.len(),
    {
        self.peers.len()
    }

    /// Whether `id` is registered.
    pub fn contains(&self, id: u128) -> (found: bool)
        ensures
            found == self@.contains_key(id),
    {
        self.peers.contains_key(&id)
    }

    /// Binds `id` to `sink`. Every other entry stays as it was. When `id`
    /// was bound before, the sink it was bound to is handed back.
    pub fn insert(&mut self, id: u128, sink: S) -> (replaced: Option<S>)
        ensures
            final(self)@ == old(self)@.insert(id, sink),
            replaced == (if old(self)@.contains_key(id) {
                Some(old(self)@[id])
            } else {
                None
            }),
    {
        self.peers.insert(id, sink)
    }

    /// Removes the entry of `id` and hands its sink back. Removing an
    /// identity that is not registered changes nothing and is no error.
    pub fn remove(&mut self, id: u128) -> (removed: Option<S>)
        ensures
            final(self)@ == old(self)@.remove(id),
            !old(self)@.contains_key(id) ==> final(self)@ == old(self)@,
            removed == (if old(self)@.contains_key(id) {
                Some(old(self)@[id])
            } else {
                None
            }),
    {
        let removed = self.peers.remove(&id);
        proof {
            if !old(self)@.contains_key(id) {
                assert(old(self)@.remove(id) =~= old(self)@);
            }
        }
        removed
    }

    /// The sink of `id`, when it is registered.
    pub fn sink(&self, id: u128) -> (found: Option<&S>)
        ensures
            found == (if self@.contains_key(id) {
                Some(&self@[id])
            } else {
                None
            }),
    {
        self.peers.get(&id)
    }

    /// The sink of `id` for sending, when it is registered. Nothing but that
    /// sink can change through the borrow: the set of identities stays.
    pub fn sink_mut(&mut self, id: u128) -> (found: Option<&mut S>)
        ensures
            found is Some <==> old(self)@.contains_key(id),
            found is None ==> final(self)@ == old(self)@,
            found is Some ==> *found->Some_0 == old(self)@[id],
            found is Some ==> final(self)@ == old(self)@.insert(id, *final(found->Some_0)),
    {
        entry_mut(&mut self.peers, id)
    }

    /// The identities registered at the moment of the call, each once, in no
    /// particular order.
    pub fn snapshot(&self) -> (ids: Vec<u128>)
        ensures
            ids@.no_duplicates(),
            ids@.to_set() == self@.dom(),
            ids@.len() == self@.len(),
    {
        let mut ids: Vec<u128> = Vec::new();
        let ghost keys = self.peers.keys().remaining();
        for id in it: self.peers.keys()
            invariant
                it.seq() == keys,
                ids@.len() == it.index(),
                forall|j: int| 0 <= j < ids@.len() ==> ids@[j] == *it.seq()[j],
        {
            ids.push(*id);
        }
        proof {
            assert(ids@ =~= keys.unref());
            assert(self@.dom().finite());
            ids@.unique_seq_to_set();
        }
        ids
    }
}

/// Deregistration is idempotent: removing an identity that is not
/// registered changes nothing, so a second removal has no effect.
pub proof fn lemma_deregistration_idempotent<S>(peers: Map<u128, S>, id: u128)
    ensures
        !peers.contains_key(id) ==> peers.remove(id) == peers,
        !peers.remove(id).contains_key(id),
        peers.remove(id).remove(id) == peers.remove(id),
{
    if !peers.contains_key(id) {
        assert(peers.remove(id) =~= peers);
    }
    assert(peers.remove(id).remove(id) =~= peers.remove(id));
}

/// Registering a newcomer takes nothing from the peers that are registered
/// already: each of them stays registered, bound to the sink it had.
pub proof fn lemma_registration_keeps_peers<S>(
    peers: Map<u128, S>,
    newcomer: u128,
    sink: S,
    id: u128,
)
    requires
        peers.contains_key(id),
        id != newcomer,
    ensures
        peers.insert(newcomer, sink).contains_key(id),
        peers.insert(newcomer, sink)[id] == peers[id],
        peers.insert(newcomer, sink).contains_key(newcomer),
{
}

/// Deregistering one peer takes nothing from the others.
pub proof fn lemma_deregistration_keeps_peers<S>(peers: Map<u128, S>, leaver: u128, id: u128)
    requires
        peers.contains_key(id),
        id != leaver,
    ensures
        peers.remove(leaver).contains_key(id),
        peers.remove(leaver)[id] == peers[id],
{
}

} // verus!
