//! A value for each kind of piece.

use vstd::prelude::*;
use crate::piece::PieceKind;

verus! {

/// One value for each of the seven piece kinds.
#[derive(Debug, PartialEq, Eq, Clone, Copy)]
pub struct PieceKindSet<V> {
    data: [V; 7],
}

impl<V: Copy> PieceKindSet<V> {
    /// The value kept for `kind`.
    pub closed spec fn spec_get(self, kind: PieceKind) -> V {
        self.data@[kind.spec_index()]
    }

    /// The value kept for `kind`.
    pub fn get(&self, kind: &PieceKind) -> (value: V)
        ensures
            value == self.spec_get(*kind),
    {
        self.data[kind.index()]
    }

    /// The set that keeps `value` for every kind.
    pub fn new_with_value(value: V) -> (set: PieceKindSet<V>)
        ensures
            forall|kind: PieceKind| set.spec_get(kind) == value,
    {
        PieceKindSet { data: [value, value, value, value, value, value, value] }
    }
}

} // verus!
