//! The decisions of a run: what to do with each generated card, and how to
//! read a line typed in an interactive session.
use vstd::prelude::*;

use crate::notes::strings_view;
use crate::text::{chars_of, trim_chars, trimmed};
use crate::words::{input_separators, normalized_words, split_at_any, split_input};

verus! {

/// What happens to a generated card.
#[derive(Debug, Clone, Copy, PartialEq, Eq)]
pub enum CardStep {
    /// Show it only: a dry run sends nothing.
    Preview,
    /// Show it and send it if the user approves.
    AskFirst,
    /// Send it without asking.
    Send,
}

/// The step for each card: a dry run previews; otherwise a run without
/// automatic approval asks first; else the card is sent.
pub fn card_step(dry_run: bool, auto_approve: bool) -> (r: CardStep)
    ensures
        dry_run ==> r == CardStep::Preview,
        !dry_run && !auto_approve ==> r == CardStep::AskFirst,
        !dry_run && auto_approve ==> r == CardStep::Send,
{
    if dry_run {
        CardStep::Preview
    } else if !auto_approve {
        CardStep::AskFirst
    } else {
        CardStep::Send
    }
}

/// Whether a run records the deck it used for later runs: not in a dry run.
pub fn saves_deck(dry_run: bool) -> (r: bool)
    ensures
        r == !dry_run,
{
    !dry_run
}

/// A line typed in an interactive session.
#[derive(Debug, Clone, PartialEq, Eq)]
pub enum SessionInput {
    /// Nothing but white space: the session ends.
    Exit,
    /// Only separators: no word to work on.
    NoWords,
    /// The words to make cards for.
    Words(Vec<String>),
}

/// Reads a typed line: blank ends the session; otherwise its words, split
/// at `,`, `;` and line breaks, trimmed, blank ones dropped.
pub fn session_input(input: &str) -> (r: SessionInput)
    ensures
        trimmed(input@).len() == 0 ==> r == SessionInput::Exit,
        trimmed(input@).len() > 0 ==> ({
            let ws = normalized_words(split_at_any(input@, input_separators()));
            if ws.len() == 0 {
                r == SessionInput::NoWords
            } else {
                r matches SessionInput::Words(v) && strings_view(v@) == ws
            }
        }),
{
    let chars = chars_of(input);
    let t = trim_chars(chars.as_slice());
    if t.len() == 0 {
        return SessionInput::Exit;
    }
    let words = split_input(input);
    if words.len() == 0 {
        SessionInput::NoWords
    } else {
        SessionInput::Words(words)
    }
}

} // verus!
