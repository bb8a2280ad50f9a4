//! The directory of players: which stable identifier stands behind a display name.
//!
//! Looking a name up is somebody else's work (a web service answers it). The engine
//! only reads a table of the answers that were already obtained.

use vstd::prelude::*;
use crate::text::same_text;

verus! {

/// Why a display name could not be turned into an identifier.
#[derive(Debug, Clone, Copy, PartialEq, Eq, Structural)]
pub enum DirectoryError {
    /// The directory knows no player of that name.
    NotFound,
    /// The directory could not be asked, or its answer could not be read.
    LookupFailed,
}

/// What the directory answered for one display name.
#[derive(Debug, PartialEq, Eq)]
pub struct DirectoryEntry {
    pub username: String,
    pub outcome: Result<String, DirectoryError>,
}

/// The mathematical value of a [`DirectoryEntry`].
pub struct DirectoryEntryView {
    pub username: Seq<char>,
    pub outcome: Result<Seq<char>, DirectoryError>,
}

/// The answer `outcome` as plain characters.
pub open spec fn outcome_view(outcome: Result<String, DirectoryError>) -> Result<
    Seq<char>,
    DirectoryError,
> {
    match outcome {
        Ok(id) => Ok(id@),
        Err(e) => Err(e),
    }
}

impl View for DirectoryEntry {
    type V = DirectoryEntryView;

    open spec fn view(&self) -> DirectoryEntryView {
        DirectoryEntryView { username: self.username@, outcome: outcome_view(self.outcome) }
    }
}

/// The answer that a table holds for `username`: that of the latest entry under the name,
/// and `LookupFailed` where the table has none.
pub open spec fn lookup(entries: Seq<DirectoryEntryView>, username: Seq<char>) -> Result<
    Seq<char>,
    DirectoryError,
>
    decreases entries.len(),
{
    if entries.len() == 0 {
        Err(DirectoryError::LookupFailed)
    } else if entries.last().username == username {
        entries.last().outcome
    } else {
        lookup(entries.drop_last(), username)
    }
}

/// The answers obtained so far, in the order in which they came.
#[derive(Debug, PartialEq, Eq)]
pub struct Directory {
    pub entries: Vec<DirectoryEntry>,
}

impl View for Directory {
    type V = Seq<DirectoryEntryView>;

    open spec fn view(&self) -> Seq<DirectoryEntryView> {
        self.entries@.map_values(|e: DirectoryEntry| e@)
    }
}

impl Directory {
    /// What this directory answers for `username`.
    pub open spec fn spec_resolve(&self, username: Seq<char>) -> Result<Seq<char>, DirectoryError> {
        lookup(self@, username)
    }

    /// A directory without answers.
    pub fn new() -> (d: Directory)
        ensures
            d@ == Seq::<DirectoryEntryView>::empty(),
    {
        let d = Directory { entries: Vec::new() };
        assert(d@ =~= Seq::<DirectoryEntryView>::empty());
        d
    }

    /// Notes the answer `outcome` for `username`. It replaces an earlier answer for the
    /// same name and leaves the answers for all other names as they were.
    pub fn record(&mut self, username: String, outcome: Result<String, DirectoryError>)
        ensures
            final(self)@ == old(self)@.push(
                DirectoryEntryView { username: username@, outcome: outcome_view(outcome) },
            ),
            final(self).spec_resolve(username@) == outcome_view(outcome),
            forall|other: Seq<char>|
                other != username@ ==> final(self).spec_resolve(other) == old(self).spec_resolve(
                    other,
                ),
    {
        let ghost entry = DirectoryEntryView { username: username@, outcome: outcome_view(outcome) };
        self.entries.push(DirectoryEntry { username, outcome });
        assert(self@ =~= old(self)@.push(entry));
        assert(self@.drop_last() =~= old(self)@);
    }

    /// The identifier behind `username`, or why there is none.
    pub fn resolve(&self, username: &str) -> (r: Result<String, DirectoryError>)
        ensures
            outcome_view(r) == self.spec_resolve(username@),
    {
        let mut i: usize = self.entries.len();
        assert(self@.take(i as int) =~= self@);
        while i > 0
            invariant
                i <= self.entries.len(),
                lookup(self@, username@) == lookup(self@.take(i as int), username@),
            decreases i,
        {
            i = i - 1;
            let ghost shorter = self@.take(i as int + 1);
            assert(shorter.drop_last() =~= self@.take(i as int));
            assert(shorter.last() == self.entries[i as int]@);
            if same_text(self.entries[i].username.as_str(), username) {
                return match &self.entries[i].outcome {
                    Ok(id) => Ok(id.clone()),
                    Err(e) => Err(*e),
                };
            }
        }
        assert(self@.take(0).len() == 0);
        Err(DirectoryError::LookupFailed)
    }
}

} // verus!
