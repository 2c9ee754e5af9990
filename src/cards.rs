//! Cards built from the fields that a model response decodes to.
use vstd::prelude::*;

use crate::cloze::{
    build_cloze_sentence, compose, hint_view, normalized_base, strip_from, wrap_spec, ClozeWarnings,
};
use crate::text::{chars_of, contains, contains_chars, lemma_trimmed_idempotent, trim_str, trimmed};

verus! {

/// A Hindi sentence card: the word, a Hindi sentence that uses it, and its
/// English translation.
#[derive(Debug, Clone)]
pub struct HindiCard {
    pub word: String,
    pub hindi_sentence: String,
    pub english_sentence: String,
}

/// An English cloze card: the word, the sentence with its cloze span, a
/// paraphrase, and an optional hint.
#[derive(Debug, Clone)]
pub struct EnglishClozeCard {
    pub word: String,
    pub cloze_sentence: String,
    pub translation: String,
    pub hint: Option<String>,
}

/// The view of an optional string.
pub open spec fn opt_string_view(o: Option<String>) -> Option<Seq<char>> {
    match o {
        Some(s) => Some(s@),
        None => None,
    }
}

/// The hint a card keeps: trimmed, and none when blank.
pub open spec fn card_hint(hint: Option<Seq<char>>) -> Option<Seq<char>> {
    match hint {
        Some(h) => if trimmed(h).len() > 0 {
            Some(trimmed(h))
        } else {
            None
        },
        None => None,
    }
}

/// The Hindi card for decoded fields, each trimmed, and whether the
/// sentence holds the trimmed word (a card without it deserves a warning).
pub fn hindi_card(word: &str, hindi_sentence: &str, english_sentence: &str) -> (r: (
    HindiCard,
    bool,
))
    ensures
        r.0.word@ == trimmed(word@),
        r.0.hindi_sentence@ == trimmed(hindi_sentence@),
        r.0.english_sentence@ == trimmed(english_sentence@),
        r.1 == contains(hindi_sentence@, trimmed(word@)),
{
    let w = trim_str(word);
    let sentence = chars_of(hindi_sentence);
    let wc = chars_of(w.as_str());
    let has_word = contains_chars(sentence.as_slice(), wc.as_slice());
    let card = HindiCard {
        word: w,
        hindi_sentence: trim_str(hindi_sentence),
        english_sentence: trim_str(english_sentence),
    };
    (card, has_word)
}

/// The English cloze card for decoded fields: word, translation and hint
/// trimmed (a blank hint dropped), and the sentence composed into a cloze
/// around the word with the hint merged; with what the composition had to
/// recover from.
pub fn english_cloze_card(
    word: &str,
    cloze_sentence: &str,
    translation: &str,
    hint: Option<&str>,
) -> (r: (EnglishClozeCard, ClozeWarnings))
    ensures
        r.0.word@ == trimmed(word@),
        r.0.translation@ == trimmed(translation@),
        opt_string_view(r.0.hint) == card_hint(hint_view(hint)),
        r.0.cloze_sentence@ == compose(
            trimmed(cloze_sentence@),
            trimmed(word@),
            card_hint(hint_view(hint)),
        ),
        r.1.unclosed_markup == strip_from(trimmed(cloze_sentence@), trimmed(word@), 0) is None,
        r.1.word_missing == wrap_spec(
            normalized_base(trimmed(cloze_sentence@), trimmed(word@)),
            trimmed(word@),
        ) is None,
{
    let w = trim_str(word);
    let kept_hint: Option<String> = match hint {
        Some(h) => {
            let t = trim_str(h);
            if t.as_str().is_empty() {
                None
            } else {
                Some(t)
            }
        },
        None => None,
    };
    let sentence = trim_str(cloze_sentence);
    proof {
        lemma_trimmed_idempotent(cloze_sentence@);
    }
    let (composed, warnings) = match &kept_hint {
        Some(h) => build_cloze_sentence(sentence.as_str(), w.as_str(), Some(h.as_str())),
        None => build_cloze_sentence(sentence.as_str(), w.as_str(), None),
    };
    let card = EnglishClozeCard {
        word: w,
        cloze_sentence: composed,
        translation: trim_str(translation),
        hint: kept_hint,
    };
    (card, warnings)
}

} // verus!
