//! Selection sets.

use crate::position::FieldDefinitionPosition;
use crate::position::FieldKey;
use vstd::prelude::*;

verus! {

/// A field that is selected, and what is selected of its value.
#[derive(Debug, PartialEq, Eq)]
pub struct FieldSelection {
    pub field_position: FieldDefinitionPosition,
    pub selection_set: Option<SelectionSet>,
}

/// A group of selections.
#[derive(Debug, PartialEq, Eq)]
pub struct InlineFragmentSelection {
    pub selection_set: SelectionSet,
}

/// A member of a selection set.
#[derive(Debug, PartialEq, Eq)]
pub enum Selection {
    Field(FieldSelection),
    InlineFragment(InlineFragmentSelection),
}

/// A selection set.
#[derive(Debug, PartialEq, Eq)]
pub struct SelectionSet {
    pub selections: Vec<Selection>,
}

impl Selection {
    /// Whether the field of the given key is selected here or further in.
    pub open spec fn selects(self, key: FieldKey) -> bool
        decreases self,
    {
        match self {
            Selection::Field(selection) => {
                ||| selection.field_position@ == key
                ||| match selection.selection_set {
                    Some(inner) => inner.selects(key),
                    None => false,
                }
            },
            Selection::InlineFragment(selection) => selection.selection_set.selects(key),
        }
    }

    /// The selection set of the selection, if it has one.
    pub open spec fn inner(self) -> Option<SelectionSet> {
        match self {
            Selection::Field(selection) => selection.selection_set,
            Selection::InlineFragment(selection) => Some(selection.selection_set),
        }
    }

    /// The selection set of the selection, if it has one.
    pub fn selection_set(&self) -> (inner: Option<&SelectionSet>)
        ensures
            inner is Some <==> self.inner() is Some,
            inner matches Some(found) ==> self.inner() == Some(*found),
            match *self {
                Selection::Field(selection) => match selection.selection_set {
                    Some(nested) => inner == Some(&nested),
                    None => inner is None,
                },
                Selection::InlineFragment(selection) => inner == Some(&selection.selection_set),
            },
    {
        match self {
            Selection::Field(selection) => selection.selection_set.as_ref(),
            Selection::InlineFragment(selection) => Some(&selection.selection_set),
        }
    }
}

impl SelectionSet {
    /// Whether the field of the given key is selected somewhere in the set.
    pub open spec fn selects(self, key: FieldKey) -> bool
        decreases self,
    {
        exists|i: int| 0 <= i < self.selections@.len() && (#[trigger] self.selections@[i]).selects(key)
    }
}

} // verus!
