use vstd::prelude::*;

verus! {

/// The key under which the widget of one row is kept.
///
/// A key is made from the row's position alone, so a row keeps its widget for
/// as long as its position stays filled, whatever text stands there.
#[derive(Clone, Copy, Debug, PartialEq, Eq, Hash, Structural)]
pub struct CheckBoxId(pub u64);

impl Default for CheckBoxId {
    fn default() -> (id: CheckBoxId)
        ensures
            id == CheckBoxId(0),
    {
        CheckBoxId(0)
    }
}

impl CheckBoxId {
    /// The key of the row at `position`.
    pub open spec fn at(position: int) -> CheckBoxId {
        CheckBoxId(position as u64)
    }

    /// The position of the row that this key belongs to.
    pub open spec fn position(self) -> int {
        self.0 as int
    }

    /// Makes the key of the row at `position`.
    pub fn of_position(position: usize) -> (id: CheckBoxId)
        ensures
            id == CheckBoxId::at(position as int),
            id.position() == position,
    {
        CheckBoxId(position as u64)
    }
}

/// Rows at different positions have different keys, and a key gives its
/// position back.
pub proof fn lemma_keys_are_unique(i: int, j: int)
    requires
        0 <= i <= u64::MAX,
        0 <= j <= u64::MAX,
    ensures
        CheckBoxId::at(i).position() == i,
        CheckBoxId::at(i) == CheckBoxId::at(j) <==> i == j,
{
}

} // verus!
