//! The three forms of a row: owned, borrowed, and its primary key alone.
use crate::values::{borrow_all, own_all, refs_view, row_view, Value, ValueRef, ValueView};
use vstd::prelude::*;

verus! {

/// A row with owned values: one value for each column, in schema order.
#[derive(Debug, Clone, PartialEq, Eq)]
pub struct Entity {
    pub values: Vec<Value>,
}

/// A row whose values borrow from the caller. It is made for one write and not kept.
#[derive(Debug, Clone, PartialEq, Eq)]
pub struct EntityRef<'a> {
    pub values: Vec<ValueRef<'a>>,
}

/// The values of the key columns of a row, in schema order.
#[derive(Debug, Clone, PartialEq, Eq)]
pub struct PrimaryKey<'a> {
    pub values: Vec<ValueRef<'a>>,
}

impl View for Entity {
    type V = Seq<ValueView>;

    open spec fn view(&self) -> Seq<ValueView> {
        row_view(self.values@)
    }
}

impl<'a> View for EntityRef<'a> {
    type V = Seq<ValueView>;

    open spec fn view(&self) -> Seq<ValueView> {
        refs_view(self.values@)
    }
}

impl<'a> View for PrimaryKey<'a> {
    type V = Seq<ValueView>;

    open spec fn view(&self) -> Seq<ValueView> {
        refs_view(self.values@)
    }
}

impl Entity {
    /// The same row, borrowing from this one.
    pub fn to_ref(&self) -> (borrowed: EntityRef<'_>)
        ensures
            borrowed@ == self@,
    {
        EntityRef { values: borrow_all(&self.values) }
    }

    /// Whether two rows hold the same values.
    pub fn same(&self, other: &Entity) -> (same: bool)
        ensures
            same == (self@ == other@),
    {
        if self.values.len() != other.values.len() {
            assert(self@.len() != other@.len());
            return false;
        }
        let mut i: usize = 0;
        while i < self.values.len()
            invariant
                i <= self.values.len(),
                self.values.len() == other.values.len(),
                forall|j: int| 0 <= j < i ==> self@[j] == other@[j],
            decreases self.values.len() - i,
        {
            if !self.values[i].to_ref().same(&other.values[i].to_ref()) {
                assert(self@[i as int] != other@[i as int]);
                return false;
            }
            i += 1;
        }
        assert(self@ =~= other@);
        true
    }
}

impl<'a> EntityRef<'a> {
    /// An owned copy of the row.
    pub fn to_owned(&self) -> (owned: Entity)
        ensures
            owned@ == self@,
    {
        Entity { values: own_all(&self.values) }
    }
}

} // verus!
