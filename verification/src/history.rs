//! The in-memory history: an ordered list of the recorded clipboard values.

use vstd::prelude::*;

verus! {

/// The values recorded since the process started, oldest first.
pub struct ClipboardHistory {
    entries: Vec<String>,
}

impl View for ClipboardHistory {
    type V = Seq<Seq<char>>;

    /// The recorded values as sequences of characters, oldest first.
    closed spec fn view(&self) -> Seq<Seq<char>> {
        self.entries.deep_view()
    }
}

impl ClipboardHistory {
    /// An empty history.
    pub fn new() -> (history: Self)
        ensures
            history@ == Seq::<Seq<char>>::empty(),
    {
        ClipboardHistory { entries: Vec::new() }
    }

    /// Appends `new_value` behind everything recorded so far.
    pub fn add_entry(&mut self, new_value: String)
        ensures
            final(self)@ == old(self)@.push(new_value@),
    {
        self.entries.push(new_value);
    }

    /// A copy of the recorded values, oldest first. The copy shares nothing
    /// with the history: later entries do not show in it.
    pub fn retrieve(&self) -> (snapshot: Vec<String>)
        ensures
            snapshot.deep_view() == self@,
    {
        self.entries.clone()
    }
}

/// What the presentation layer asks for: everything recorded so far.
pub fn retrieve_history(history: &ClipboardHistory) -> (entries: Vec<String>)
    ensures
        entries.deep_view() == history@,
{
    history.retrieve()
}

} // verus!
