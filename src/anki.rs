//! Decisions around the flashcard store's replies, and the endpoints that
//! requests go to.
use vstd::prelude::*;

use crate::text::{chars_of, contains, contains_chars, extend_all, extend_range, string_from_chars};

verus! {

/// `s` without the `/` characters at its end.
pub open spec fn without_trailing_slashes(s: Seq<char>) -> Seq<char>
    decreases s.len(),
{
    if s.len() > 0 && s.last() == '/' {
        without_trailing_slashes(s.drop_last())
    } else {
        s
    }
}

/// The address of `path` under `base`: `base` without trailing `/`, then
/// `/`, then `path`.
pub fn endpoint_url(base: &str, path: &str) -> (r: String)
    ensures
        r@ == without_trailing_slashes(base@) + seq!['/'] + path@,
{
    let b = chars_of(base);
    let p = chars_of(path);
    let mut end: usize = b.len();
    assert(b@.take(end as int) =~= b@);
    while end > 0 && b[end - 1] == '/'
        invariant
            end <= b@.len(),
            without_trailing_slashes(b@) == without_trailing_slashes(b@.take(end as int)),
        decreases end,
    {
        assert(b@.take(end as int).drop_last() =~= b@.take(end - 1));
        end = end - 1;
    }
    let mut out: Vec<char> = Vec::new();
    extend_range(&mut out, b.as_slice(), 0, end);
    out.push('/');
    extend_all(&mut out, p.as_slice());
    assert(b@.subrange(0, end as int) =~= b@.take(end as int));
    string_from_chars(out.as_slice())
}

/// What a request to create a deck came to.
#[derive(Debug, Clone, PartialEq, Eq)]
pub enum DeckStatus {
    /// The store reported no error.
    Created,
    /// The store's error says the deck exists already, which is fine.
    AlreadyExists,
    /// Any other error of the store.
    Failed(String),
}

/// The outcome of creating a deck from the error the store returned, if
/// any: an error that mentions `exists` means the deck is there already.
pub fn deck_creation_status(error: Option<String>) -> (r: DeckStatus)
    ensures
        match error {
            None => r == DeckStatus::Created,
            Some(e) => if contains(e@, "exists"@) {
                r == DeckStatus::AlreadyExists
            } else {
                r matches DeckStatus::Failed(m) && m@ == e@
            },
        },
{
    match error {
        None => DeckStatus::Created,
        Some(e) => {
            let ec = chars_of(e.as_str());
            let needle = chars_of("exists");
            if contains_chars(ec.as_slice(), needle.as_slice()) {
                DeckStatus::AlreadyExists
            } else {
                DeckStatus::Failed(e)
            }
        },
    }
}

/// What a request to add notes came to.
#[derive(Debug, Clone, PartialEq, Eq)]
pub enum AddNotesReply {
    /// The id given to each note, none for a note refused as duplicate.
    Ids(Vec<Option<i64>>),
    /// The store returned an error.
    StoreError(String),
    /// The store returned neither an error nor a result.
    MissingResult,
}

/// The outcome of adding notes from the store's reply: its error if it has
/// one, else its result, else a missing result.
pub fn add_notes_reply(result: Option<Vec<Option<i64>>>, error: Option<String>) -> (r: AddNotesReply)
    ensures
        match error {
            Some(e) => r matches AddNotesReply::StoreError(m) && m@ == e@,
            None => match result {
                Some(ids) => r matches AddNotesReply::Ids(v) && v@ == ids@,
                None => r == AddNotesReply::MissingResult,
            },
        },
{
    match error {
        Some(e) => AddNotesReply::StoreError(e),
        None => match result {
            Some(ids) => AddNotesReply::Ids(ids),
            None => AddNotesReply::MissingResult,
        },
    }
}

} // verus!
