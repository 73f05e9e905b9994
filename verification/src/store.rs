//! The nodes that outlive a frame, by identity.

use crate::error::UiError;
use crate::id::Id;
use crate::node::Node;
use crate::fxmap::{fx_get, fx_insert, fx_len, fx_remove};
use rustc_hash::FxHashMap;
use vstd::prelude::*;

verus! {

/// `HashMap::retain` with the test whether a node was begun in `frame`:
/// the entries that pass stay as they are, the others leave the table.
#[verifier::external_body]
fn retain_touched(map: &mut FxHashMap<u64, Node>, frame: u64)
    ensures
        final(map)@ == old(map)@.restrict(
            Set::new(|k: u64| old(map)@.contains_key(k) && old(map)@[k].spec_touched_in(frame)),
        ),
{
    map.retain(|_, n| n.touched_in(frame));
}

/// The retained nodes: for each identity the node that stood for it when it
/// was laid out last.
pub struct NodeStore {
    pub map: FxHashMap<u64, Node>,
}

impl View for NodeStore {
    type V = Map<u64, Node>;

    open spec fn view(&self) -> Map<u64, Node> {
        self.map@
    }
}

impl NodeStore {
    /// Whether the store is sound: every node is kept under its own
    /// identity, the reserved identity is not among them, and no size is
    /// negative.
    pub open spec fn wf(&self) -> bool {
        forall|k: u64|
            self@.contains_key(k) ==> {
                &&& (#[trigger] self@[k]).id == Id(k)
                &&& k != 0
                &&& self@[k].size.w >= 0
                &&& self@[k].size.h >= 0
            }
    }

    /// Whether `node` can be kept.
    pub open spec fn keeps(node: Node) -> bool {
        !node.id.spec_is_null() && node.size.w >= 0 && node.size.h >= 0
    }

    /// An empty store.
    pub fn new() -> (s: NodeStore)
        ensures
            s.wf(),
            s@ == Map::<u64, Node>::empty(),
    {
        NodeStore { map: FxHashMap::default() }
    }

    /// The number of nodes kept.
    pub fn len(&self) -> (n: usize)
        ensures
            n == self@.len(),
    {
        fx_len(&self.map)
    }

    /// Whether a node is kept for `id`.
    pub fn contains(&self, id: Id) -> (r: bool)
        ensures
            r == self@.contains_key(id.0),
    {
        fx_get(&self.map, id.0).is_some()
    }

    /// The node kept for `id`, if there is one.
    pub fn get(&self, id: Id) -> (r: Option<Node>)
        ensures
            r == (if self@.contains_key(id.0) {
                Some(self@[id.0])
            } else {
                None
            }),
    {
        match fx_get(&self.map, id.0) {
            Some(n) => Some(*n),
            None => None,
        }
    }

    /// The node kept for `id`. To ask for the reserved identity, or for one
    /// that the store does not hold, is an error.
    pub fn lookup(&self, id: Id) -> (r: Result<Node, UiError>)
        ensures
            r == (if id.spec_is_null() {
                Err(UiError::NullId)
            } else if self@.contains_key(id.0) {
                Ok(self@[id.0])
            } else {
                Err(UiError::UnknownId)
            }),
    {
        if id.is_null() {
            Err(UiError::NullId)
        } else {
            match self.get(id) {
                Some(n) => Ok(n),
                None => Err(UiError::UnknownId),
            }
        }
    }

    /// Takes the node kept for `id` out of the store, to rebuild it.
    pub fn take(&mut self, id: Id) -> (r: Option<Node>)
        requires
            old(self).wf(),
        ensures
            final(self).wf(),
            final(self)@ == old(self)@.remove(id.0),
            r == (if old(self)@.contains_key(id.0) {
                Some(old(self)@[id.0])
            } else {
                None
            }),
    {
        fx_remove(&mut self.map, id.0)
    }

    /// Keeps `node` under its identity, in place of the node kept there
    /// before. A node with the reserved identity or a negative size is not
    /// kept, and the result says so.
    pub fn insert(&mut self, node: Node) -> (kept: bool)
        requires
            old(self).wf(),
        ensures
            final(self).wf(),
            kept == NodeStore::keeps(node),
            final(self)@ == (if kept {
                old(self)@.insert(node.id.0, node)
            } else {
                old(self)@
            }),
    {
        if node.id.is_null() || node.size.w < 0 || node.size.h < 0 {
            false
        } else {
            fx_insert(&mut self.map, node.id.0, node);
            true
        }
    }

    /// The store after pruning for `frame`: the nodes begun in that frame.
    pub open spec fn pruned(m: Map<u64, Node>, frame: u64) -> Map<u64, Node> {
        m.restrict(Set::new(|k: u64| m.contains_key(k) && m[k].spec_touched_in(frame)))
    }

    /// Drops every node that was not begun in `frame`.
    pub fn prune(&mut self, frame: u64)
        requires
            old(self).wf(),
        ensures
            final(self).wf(),
            final(self)@ == NodeStore::pruned(old(self)@, frame),
            forall|k: u64|
                final(self)@.contains_key(k) <==> old(self)@.contains_key(k)
                    && old(self)@[k].last_touched == frame,
            forall|k: u64| final(self)@.contains_key(k) ==> final(self)@[k] == old(self)@[k],
    {
        retain_touched(&mut self.map, frame);
    }

    /// Drops every node.
    pub fn clear(&mut self)
        requires
            old(self).wf(),
        ensures
            final(self).wf(),
            final(self)@ == Map::<u64, Node>::empty(),
    {
        self.map.clear();
    }
}

} // verus!
