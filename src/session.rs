//! The decisions of the two operations that walk the store folder by
//! folder. The connection allows one selected folder at a time, so each
//! machine names the next request, and the caller performs it and reports
//! what came back.
use crate::folder::{encode_folder_name, utf7_encoded_of};
use crate::index::{indexed, opt_text, Location, MessageIndex};
use crate::message::{mail_parses, message_view_of, parse_email, record_of, EmailRecord, RecordView};
use crate::text::same_text;
use vstd::prelude::*;

verus! {

/// The next request of an enumeration.
pub enum EnumerationStep {
    /// Select the folder with this wire name.
    Select(String),
    /// Fetch unique id and envelope of every message of the selected folder.
    FetchEnvelopes,
    /// Every folder is done: close the selected folder.
    Close,
}

/// Builds the index over the listed folders, in listing order. A folder that
/// cannot be selected is passed over.
pub struct Enumeration {
    /// Display names of the folders, in listing order.
    pub folders: Vec<String>,
    /// The folder being worked on.
    pub position: usize,
    /// Whether that folder has been selected.
    pub selected: bool,
    pub index: MessageIndex,
}

impl Enumeration {
    /// The index is well formed and the position within the folder list.
    pub open spec fn wf(&self) -> bool {
        &&& self.index.wf()
        &&& self.position <= self.folders@.len()
        &&& self.selected ==> self.position < self.folders@.len()
    }

    pub fn new(folders: Vec<String>) -> (r: Enumeration)
        ensures
            r.wf(),
            r.folders@ == folders@,
            r.position == 0,
            !r.selected,
            r.index@ == Map::<Seq<char>, (Seq<char>, u32)>::empty(),
    {
        Enumeration { folders, position: 0, selected: false, index: MessageIndex::new() }
    }

    /// The request that comes next.
    pub fn next_step(&self) -> (r: EnumerationStep)
        requires
            self.wf(),
        ensures
            self.position == self.folders@.len() ==> r is Close,
            self.position < self.folders@.len() && !self.selected ==> (r matches EnumerationStep::Select(w)
                && w@ == utf7_encoded_of(self.folders@[self.position as int]@)),
            self.selected ==> r is FetchEnvelopes,
    {
        if self.position >= self.folders.len() {
            EnumerationStep::Close
        } else if self.selected {
            EnumerationStep::FetchEnvelopes
        } else {
            EnumerationStep::Select(encode_folder_name(self.folders[self.position].as_str()))
        }
    }

    /// The outcome of selecting the current folder: on failure the folder
    /// is passed over.
    pub fn folder_selected(&mut self, ok: bool)
        requires
            old(self).wf(),
            old(self).position < old(self).folders@.len(),
            !old(self).selected,
        ensures
            final(self).wf(),
            final(self).folders@ == old(self).folders@,
            final(self).index@ == old(self).index@,
            ok ==> final(self).selected && final(self).position == old(self).position,
            !ok ==> !final(self).selected && final(self).position == old(self).position + 1,
    {
        // the position stays below the length of a vector, so it can grow by one
        let _n = self.folders.len();
        if ok {
            self.selected = true;
        } else {
            self.position = self.position + 1;
        }
    }

    /// The (unique id, message identifier) pairs fetched from the selected
    /// folder: each is recorded, and the next folder comes.
    pub fn envelopes_fetched(&mut self, fetched: &Vec<(u32, Option<String>)>)
        requires
            old(self).wf(),
            old(self).selected,
        ensures
            final(self).wf(),
            final(self).folders@ == old(self).folders@,
            final(self).index@ == indexed(
                old(self).index@,
                old(self).folders@[old(self).position as int]@,
                fetched@.map_values(|f: (u32, Option<String>)| (f.0, opt_text(f.1))),
            ),
            !final(self).selected,
            final(self).position == old(self).position + 1,
    {
        // the position stays below the length of a vector, so it can grow by one
        let _n = self.folders.len();
        self.index.index_folder(self.folders[self.position].as_str(), fetched);
        self.selected = false;
        self.position = self.position + 1;
    }
}

/// The next request of a subject search.
pub enum SearchStep {
    /// Select the folder with this wire name.
    Select(String),
    /// Fetch the whole message with this unique id from the selected folder.
    Fetch(u32),
    /// No indexed message has the subject.
    NotFound,
}

/// Looks through the indexed messages, in the index's order, for the first
/// whose subject equals the query exactly.
pub struct SubjectSearch {
    pub subject: String,
    /// The index entry being looked at.
    pub position: usize,
    /// Display name of the folder that is selected, if any.
    pub active: Option<String>,
}

/// The record of `raw` when it parses and its subject is `subject`.
pub open spec fn matching_record(raw: Seq<u8>, index: MessageIndex, subject: Seq<char>) -> Option<RecordView> {
    if mail_parses(raw) {
        match record_of(message_view_of(raw), index@) {
            Ok(rec) => if rec.subject == subject {
                Some(rec)
            } else {
                None
            },
            Err(_) => None,
        }
    } else {
        None
    }
}

impl SubjectSearch {
    pub fn new(subject: String) -> (r: SubjectSearch)
        ensures
            r.subject@ == subject@,
            r.position == 0,
            r.active is None,
    {
        SubjectSearch { subject, position: 0, active: None }
    }

    /// The request that comes next: the folder of the current entry is
    /// selected first unless it already is.
    pub fn next_step(&self, index: &MessageIndex) -> (r: SearchStep)
        ensures
            self.position >= index.entries_view().len() ==> r is NotFound,
            self.position < index.entries_view().len() ==> {
                let loc = index.entries_view()[self.position as int].1;
                if self.active matches Some(a) && a@ == loc.0 {
                    r == SearchStep::Fetch(loc.1)
                } else {
                    r matches SearchStep::Select(w) && w@ == utf7_encoded_of(loc.0)
                }
            },
    {
        if self.position >= index.entry_count() {
            return SearchStep::NotFound;
        }
        let (_id, loc) = index.entry_at(self.position);
        let same = match &self.active {
            Some(a) => same_text(a.as_str(), loc.folder.as_str()),
            None => false,
        };
        if same {
            SearchStep::Fetch(loc.uid)
        } else {
            SearchStep::Select(encode_folder_name(loc.folder.as_str()))
        }
    }

    /// The outcome of selecting the current entry's folder; when it fails
    /// no folder is selected and the entry is passed over.
    pub fn folder_selected(&mut self, index: &MessageIndex, ok: bool)
        requires
            old(self).position < index.entries_view().len(),
        ensures
            final(self).subject@ == old(self).subject@,
            ok ==> final(self).position == old(self).position,
            ok ==> (final(self).active matches Some(a) && a@ == index.entries_view()[old(self).position as int].1.0),
            !ok ==> final(self).position == old(self).position + 1 && final(self).active is None,
    {
        // the position stays below the number of entries, so it can grow by one
        let _n = index.entry_count();
        if ok {
            let (_id, loc) = index.entry_at(self.position);
            self.active = Some(loc.folder);
        } else {
            self.active = None;
            self.position = self.position + 1;
        }
    }

    /// The raw bytes fetched for the current entry. When they parse to a
    /// record with the subject searched for, that record and its location
    /// are the answer; otherwise the search moves to the next entry.
    pub fn message_fetched(&mut self, index: &MessageIndex, raw: &[u8]) -> (r: Option<(Location, EmailRecord)>)
        requires
            old(self).position < index.entries_view().len(),
        ensures
            final(self).subject@ == old(self).subject@,
            final(self).active == old(self).active,
            r is Some <==> matching_record(raw@, *index, old(self).subject@) is Some,
            r matches Some(found) ==> found.0@ == index.entries_view()[old(self).position as int].1
                && found.1@ == matching_record(raw@, *index, old(self).subject@)->Some_0
                && final(self).position == old(self).position,
            r is None ==> final(self).position == old(self).position + 1,
    {
        // the position stays below the number of entries, so it can grow by one
        let _n = index.entry_count();
        let (_id, loc) = index.entry_at(self.position);
        match parse_email(raw, index) {
            Ok(rec) => {
                if same_text(rec.subject.as_str(), self.subject.as_str()) {
                    return Some((loc, rec));
                }
            },
            Err(_) => {},
        }
        self.position = self.position + 1;
        None
    }
}

} // verus!
