//! The agenda record and the ordered list of records.
use vstd::prelude::*;
use crate::text::trimmed;

verus! {

/// One line of an agenda: when, what, and who presents it.
#[derive(Debug)]
pub struct AgendaItem {
    pub time: String,
    pub subject: String,
    pub presenter: String,
}

/// What an [`AgendaItem`] holds, as three texts.
pub struct Entry {
    pub time: Seq<char>,
    pub subject: Seq<char>,
    pub presenter: Seq<char>,
}

impl View for AgendaItem {
    type V = Entry;

    open spec fn view(&self) -> Entry {
        Entry { time: self.time@, subject: self.subject@, presenter: self.presenter@ }
    }
}

/// The entries of an agenda, in display order.
pub open spec fn entries(list: Seq<AgendaItem>) -> Seq<Entry> {
    list.map_values(|item: AgendaItem| item@)
}

/// Whether no field of the record starts or ends with whitespace.
pub open spec fn is_trimmed(e: Entry) -> bool {
    trimmed(e.time) == e.time && trimmed(e.subject) == e.subject && trimmed(e.presenter)
        == e.presenter
}

} // verus!
