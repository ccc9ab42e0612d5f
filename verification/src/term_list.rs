//! The list of the knowledge base's terms, searched by a filter text, from
//! which a term is opened or a new one is added.
use vstd::prelude::*;

verus! {

/// What the user chose in the list.
pub enum TermListOutput {
    /// A new term of this name is to be added.
    AddTerm(String),
    /// The term of this name is to be opened.
    SelectedTerm(String),
}

/// The list of terms, with the text that filters it.
pub struct TermList {
    pub filter: String,
}

impl TermList {
    /// A list with an empty filter.
    pub fn new() -> (res: Self)
        ensures
            res.filter@ == Seq::<char>::empty(),
    {
        Self { filter: String::new() }
    }

    /// Adds a term named by the filter text, which no term matched: the text
    /// is handed out as the new term's name and the filter is cleared.
    pub fn add_term(&mut self) -> (res: TermListOutput)
        ensures
            res matches TermListOutput::AddTerm(name) && name@ == old(self).filter@,
            final(self).filter@ == Seq::<char>::empty(),
    {
        let mut name = String::new();
        std::mem::swap(&mut name, &mut self.filter);
        TermListOutput::AddTerm(name)
    }
}

} // verus!
