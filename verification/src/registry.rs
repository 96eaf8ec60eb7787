//! The kind registry: the process-wide record of which wire kinds this
//! process can decode.
//!
//! Every module that introduces a kind contributes an [`Item`] during
//! startup.  Deserialization consults the registry; a payload whose kind has
//! no entry is a fatal decode error.

use vstd::prelude::*;

use crate::wire::WireKind;

verus! {

/// One registry entry: the wire kind it enables this process to decode.
#[derive(Clone, Copy, Debug, PartialEq, Eq, Structural)]
pub struct Item {
    pub ty: WireKind,
}

impl Item {
    /// Builds an entry for the given kind.
    pub fn new(ty: WireKind) -> (r: Item)
        ensures
            r.ty == ty,
    {
        Item { ty }
    }
}

/// The set of kinds registered in this process.
pub struct Registry {
    entries: Vec<Item>,
}

impl Registry {
    /// Whether the kind `k` has an entry.
    pub closed spec fn registered(&self, k: WireKind) -> bool {
        exists|i: int| 0 <= i < self.entries@.len() && self.entries@[i].ty == k
    }

    /// An empty registry: nothing can be decoded yet.
    pub fn new() -> (r: Registry)
        ensures
            forall|k: WireKind| !r.registered(k),
    {
        Registry { entries: Vec::new() }
    }

    /// Adds an entry; everything registered before stays registered.
    pub fn register(&mut self, item: Item)
        ensures
            forall|k: WireKind|
                final(self).registered(k) == (old(self).registered(k) || k == item.ty),
    {
        self.entries.push(item);
        proof {
            assert forall|k: WireKind|
                self.registered(k) == (old(self).registered(k) || k == item.ty) by {
                if old(self).registered(k) {
                    let i = choose|i: int|
                        0 <= i < old(self).entries@.len() && old(self).entries@[i].ty == k;
                    assert(self.entries@[i].ty == k);
                }
                if k == item.ty {
                    assert(self.entries@[old(self).entries@.len() as int].ty == k);
                }
                if self.registered(k) {
                    let i = choose|i: int|
                        0 <= i < self.entries@.len() && self.entries@[i].ty == k;
                    if i < old(self).entries@.len() {
                        assert(old(self).entries@[i].ty == k);
                    }
                }
            }
        }
    }

    /// Whether the kind `k` has an entry.
    pub fn is_registered(&self, k: WireKind) -> (r: bool)
        ensures
            r == self.registered(k),
    {
        let mut i: usize = 0;
        while i < self.entries.len()
            invariant
                i <= self.entries@.len(),
                forall|j: int| 0 <= j < i ==> self.entries@[j].ty != k,
            decreases self.entries@.len() - i,
        {
            if self.entries[i].ty == k {
                assert(self.registered(k));
                return true;
            }
            i = i + 1;
        }
        false
    }

    /// The registry a fully initialized process holds: every wire kind of
    /// this crate has an entry.
    pub fn standard() -> (r: Registry)
        ensures
            forall|k: WireKind| r.registered(k),
    {
        let mut r = Registry::new();
        r.register(Item::new(WireKind::Unit));
        r.register(Item::new(WireKind::Bool));
        r.register(Item::new(WireKind::U64));
        r.register(Item::new(WireKind::I64));
        r.register(Item::new(WireKind::Text));
        r.register(Item::new(WireKind::Fork));
        r.register(Item::new(WireKind::Res));
        r.register(Item::new(WireKind::Item));
        r.register(Item::new(WireKind::Agg));
        r.register(Item::new(WireKind::Call));
        r.register(Item::new(WireKind::Resp));
        proof {
            assert forall|k: WireKind| r.registered(k) by {
                match k {
                    WireKind::Unit => assert(r.registered(WireKind::Unit)),
                    WireKind::Bool => assert(r.registered(WireKind::Bool)),
                    WireKind::U64 => assert(r.registered(WireKind::U64)),
                    WireKind::I64 => assert(r.registered(WireKind::I64)),
                    WireKind::Text => assert(r.registered(WireKind::Text)),
                    WireKind::Fork => assert(r.registered(WireKind::Fork)),
                    WireKind::Res => assert(r.registered(WireKind::Res)),
                    WireKind::Item => assert(r.registered(WireKind::Item)),
                    WireKind::Agg => assert(r.registered(WireKind::Agg)),
                    WireKind::Call => assert(r.registered(WireKind::Call)),
                    WireKind::Resp => assert(r.registered(WireKind::Resp)),
                }
            }
        }
        r
    }
}

} // verus!
