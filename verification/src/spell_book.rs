//! A book of spell cards: the whole collection a user keeps, rendered as
//! one list and persisted as one value.

use vstd::prelude::*;

use crate::spell_card::SpellCard;

verus! {

/// The cards a spell book holds, in order.
#[derive(PartialEq, Eq, Clone, Debug)]
pub struct SpellBookProps {
    pub spells: Vec<SpellCard>,
}

impl SpellBookProps {
    /// Whether every card in the book is well formed.
    pub open spec fn wf(self) -> bool {
        forall|i: int| 0 <= i < self.spells@.len() ==> (#[trigger] self.spells@[i]).wf()
    }

    /// An empty book.
    pub fn new() -> (r: SpellBookProps)
        ensures
            r.wf(),
            r.spells@.len() == 0,
    {
        SpellBookProps { spells: Vec::new() }
    }
}

} // verus!
