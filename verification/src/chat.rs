//! Telling whispers from the rest of the chat.
//!
//! A chat line that holds `whispers:` or `tells you:` is a whisper to the agent. What
//! stands behind the marker, without the white space round it, is the command.

use vstd::prelude::*;
use crate::messages::BotMessage;

verus! {

/// Whether `marker` stands in `text` at position `i`.
pub open spec fn occurs_at(text: Seq<char>, marker: Seq<char>, i: int) -> bool {
    0 <= i && i + marker.len() <= text.len() && text.subrange(i, i + marker.len()) == marker
}

/// Whether `i` is the first position at which `marker` stands in `text`.
pub open spec fn first_at(text: Seq<char>, marker: Seq<char>, i: int) -> bool {
    occurs_at(text, marker, i) && forall|j: int| 0 <= j < i ==> !occurs_at(text, marker, j)
}

/// What stands in `text` behind the first `marker`, or `None` where there is no marker.
pub open spec fn after_first(text: Seq<char>, marker: Seq<char>) -> Option<Seq<char>> {
    if exists|i: int| first_at(text, marker, i) {
        Some(text.skip((choose|i: int| first_at(text, marker, i)) + marker.len()))
    } else {
        None
    }
}

/// `text` without the white space at its two ends, as `str::trim` gives it.
pub uninterp spec fn trimmed(text: Seq<char>) -> Seq<char>;

/// The command that the chat line `line` whispers, or `None` where it is no whisper.
/// `whispers:` is looked for first, `tells you:` only where there is no `whispers:`.
pub open spec fn whispered(line: Seq<char>) -> Option<Seq<char>> {
    match after_first(line, "whispers:"@) {
        Some(rest) => Some(trimmed(rest)),
        None => match after_first(line, "tells you:"@) {
            Some(rest) => Some(trimmed(rest)),
            None => None,
        },
    }
}

/// Takes the white space off the two ends of `text` with `str::trim`. The contract gives
/// the outcome the name [`trimmed`] and claims only that it depends on the characters of
/// `text` alone.
#[verifier::external_body]
fn trim(text: &str) -> (r: String)
    ensures
        r@ == trimmed(text@),
{
    text.trim().to_string()
}

/// Cuts `text` at the first `marker` with `str::split_once`: what stands before the
/// marker and what stands behind it, or `None` where the marker does not stand in the
/// text.
#[verifier::external_body]
fn split_once(text: &str, marker: &str) -> (r: Option<(String, String)>)
    requires
        marker@.len() > 0,
    ensures
        match r {
            Some((before, after)) => text@ == before@ + marker@ + after@ && first_at(
                text@,
                marker@,
                before@.len() as int,
            ),
            None => forall|i: int| !occurs_at(text@, marker@, i),
        },
{
    match text.split_once(marker) {
        Some((before, after)) => Some((before.to_string(), after.to_string())),
        None => None,
    }
}

/// The first position of a marker is one position only.
pub proof fn lemma_first_at_unique(text: Seq<char>, marker: Seq<char>, i: int, j: int)
    requires
        first_at(text, marker, i),
        first_at(text, marker, j),
    ensures
        i == j,
{
}

/// What stands in `text` behind the first `marker`.
pub fn rest_after(text: &str, marker: &str) -> (rest: Option<String>)
    requires
        marker@.len() > 0,
    ensures
        match rest {
            Some(r) => after_first(text@, marker@) == Some(r@),
            None => after_first(text@, marker@) is None,
        },
{
    match split_once(text, marker) {
        Some((before, after)) => {
            proof {
                let at = before@.len() as int;
                let found = choose|i: int| first_at(text@, marker@, i);
                lemma_first_at_unique(text@, marker@, at, found);
                assert(text@.skip(at + marker@.len()) =~= after@);
            }
            Some(after)
        },
        None => None,
    }
}

/// The command that the chat line `line` whispers.
pub fn whisper(line: &str) -> (command: Option<String>)
    ensures
        match command {
            Some(c) => whispered(line@) == Some(c@),
            None => whispered(line@) is None,
        },
{
    proof {
        reveal_strlit("whispers:");
        reveal_strlit("tells you:");
    }
    match rest_after(line, "whispers:") {
        Some(rest) => Some(trim(rest.as_str())),
        None => match rest_after(line, "tells you:") {
            Some(rest) => Some(trim(rest.as_str())),
            None => None,
        },
    }
}

impl BotMessage {
    /// What the store is told about the chat line `line` that `sender` wrote: the
    /// command of the player where the line is a whisper, and nothing where it is not.
    /// A whisper without sender is taken to come from `Unknown`.
    pub fn from_chat(sender: Option<String>, line: &str) -> (told: Option<BotMessage>)
        ensures
            match told {
                Some(BotMessage::PlayerCommand { player_name, command }) => whispered(line@)
                    == Some(command@) && player_name@ == (match sender {
                    Some(name) => name@,
                    None => "Unknown"@,
                }),
                None => whispered(line@) is None,
            },
    {
        match whisper(line) {
            Some(command) => {
                let player_name = match sender {
                    Some(name) => name,
                    None => "Unknown".to_owned(),
                };
                Some(BotMessage::PlayerCommand { player_name, command })
            },
            None => None,
        }
    }
}

} // verus!
