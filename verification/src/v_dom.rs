//! Shared pieces of the virtual-node model: the single-slot patch
//! instruction the diff computation emits.

use vstd::prelude::*;

verus! {

/// An instruction for one attribute-like slot: set a value that was absent,
/// replace a value that differs, or remove one that is no longer wanted.
/// A slot whose value is unchanged gets no patch at all.
#[derive(Clone, PartialEq, Eq, Debug)]
pub enum Patch<K, V> {
    /// The slot was absent and gets this value.
    Add(K, V),
    /// The slot was present with a different value and gets this one.
    Replace(K, V),
    /// The slot was present and is dropped.
    Remove(K),
}

impl<K, V> Patch<K, V> {
    /// The key the patch speaks about.
    pub open spec fn key(self) -> K {
        match self {
            Patch::Add(k, _) => k,
            Patch::Replace(k, _) => k,
            Patch::Remove(k) => k,
        }
    }
}

} // verus!
