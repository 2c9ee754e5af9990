//! Notes for the flashcard store, built from cards, with their tags.
use vstd::prelude::*;

use crate::cards::{opt_string_view, EnglishClozeCard, HindiCard};
use crate::text::{
    chars_eq_ignore_ascii_case, chars_of, eq_ignore_ascii_case, is_white, string_from_chars,
    trim_chars, trim_str, trimmed, white_space,
};

verus! {

/// How the store treats a note that duplicates another.
#[derive(Debug, Clone)]
pub struct NoteOptions {
    pub allow_duplicate: Option<bool>,
    pub duplicate_scope: Option<String>,
}

impl Default for NoteOptions {
    fn default() -> (r: NoteOptions)
        ensures
            r.allow_duplicate is None,
            r.duplicate_scope is None,
    {
        NoteOptions { allow_duplicate: None, duplicate_scope: None }
    }
}

/// A note to add to a deck: its fields are (name, value) pairs in ascending
/// order of name, each name once.
#[derive(Debug, Clone)]
pub struct Note {
    pub deck_name: String,
    pub model_name: String,
    pub fields: Vec<(String, String)>,
    pub tags: Vec<String>,
    pub options: Option<NoteOptions>,
}

/// The options every generated note carries: no duplicates within the deck.
pub open spec fn no_duplicates_in_deck(o: Option<NoteOptions>) -> bool {
    match o {
        Some(opts) => opts.allow_duplicate == Some(false) && match opts.duplicate_scope {
            Some(scope) => scope@ == "deck"@,
            None => false,
        },
        None => false,
    }
}

/// The views of a note's fields.
pub open spec fn fields_view(fields: Seq<(String, String)>) -> Seq<(Seq<char>, Seq<char>)> {
    fields.map_values(|f: (String, String)| (f.0@, f.1@))
}

/// The views of a list of strings.
pub open spec fn strings_view(v: Seq<String>) -> Seq<Seq<char>> {
    v.map_values(|s: String| s@)
}

/// `tags` holds a tag equal to `t` when ASCII case is ignored.
pub open spec fn has_tag(tags: Seq<Seq<char>>, t: Seq<char>) -> bool {
    exists|k: int| 0 <= k < tags.len() && eq_ignore_ascii_case(#[trigger] tags[k], t)
}

/// `tags` with `t` added at the end unless a tag equal to it when ASCII case
/// is ignored is there already.
pub open spec fn add_tag(tags: Seq<Seq<char>>, t: Seq<char>) -> Seq<Seq<char>> {
    if has_tag(tags, t) {
        tags
    } else {
        tags.push(t)
    }
}

/// A character that a tag cannot hold and that becomes `_`.
pub open spec fn tag_breaking(c: char) -> bool {
    white_space(c) || c == ':' || c == ';' || c == ','
}

/// `input` trimmed, with white space, `:`, `;` and `,` replaced by `_`.
pub open spec fn sanitized(input: Seq<char>) -> Seq<char> {
    trimmed(input).map_values(|c: char| if tag_breaking(c) { '_' } else { c })
}

/// The tag that names a word: `word_` and the sanitized word.
pub open spec fn word_tag(word: Seq<char>) -> Seq<char> {
    "word_"@ + sanitized(word)
}

/// The tags of a note: the base tags, then the language tag and the word's
/// tag, each unless present already.
pub open spec fn tag_list(base: Seq<Seq<char>>, word: Seq<char>, language_tag: Seq<char>) -> Seq<
    Seq<char>,
> {
    add_tag(add_tag(base, language_tag), word_tag(word))
}

/// `input` trimmed, with white space, `:`, `;` and `,` replaced by `_`.
pub fn sanitize_tag(input: &str) -> (r: String)
    ensures
        r@ == sanitized(input@),
{
    let chars = chars_of(input);
    let t = trim_chars(chars.as_slice());
    let mut out: Vec<char> = Vec::new();
    let mut k: usize = 0;
    while k < t.len()
        invariant
            k <= t@.len(),
            t@ == trimmed(input@),
            out@ == t@.take(k as int).map_values(
                |c: char| if tag_breaking(c) { '_' } else { c },
            ),
        decreases t.len() - k,
    {
        let c = t[k];
        let breaking = is_white(c) || c == ':' || c == ';' || c == ',';
        if breaking {
            out.push('_');
        } else {
            out.push(c);
        }
        k = k + 1;
        assert(out@ =~= t@.take(k as int).map_values(
            |c: char| if tag_breaking(c) { '_' } else { c },
        ));
    }
    assert(t@.take(k as int) =~= t@);
    string_from_chars(out.as_slice())
}

/// Whether `tags` holds a tag equal to `t` when ASCII case is ignored.
pub(crate) fn holds_tag(tags: &Vec<String>, t: &str) -> (r: bool)
    ensures
        r == has_tag(strings_view(tags@), t@),
{
    let tc = chars_of(t);
    let mut k: usize = 0;
    while k < tags.len()
        invariant
            k <= tags@.len(),
            tc@ == t@,
            forall|m: int| 0 <= m < k ==> !eq_ignore_ascii_case(#[trigger] tags@[m]@, t@),
        decreases tags.len() - k,
    {
        let existing = chars_of(tags[k].as_str());
        if chars_eq_ignore_ascii_case(existing.as_slice(), tc.as_slice()) {
            assert(strings_view(tags@)[k as int] == tags@[k as int]@);
            return true;
        }
        k = k + 1;
    }
    proof {
        assert forall|m: int| 0 <= m < strings_view(tags@).len() implies !eq_ignore_ascii_case(
            #[trigger] strings_view(tags@)[m],
            t@,
        ) by {
            assert(strings_view(tags@)[m] == tags@[m]@);
        }
    }
    false
}

/// The tags of a note for `word`: the base tags, then `language_tag` and
/// `word_<sanitized word>`, each unless a tag equal to it when ASCII case is
/// ignored is present already.
pub fn collect_tags(base: &[String], word: &str, language_tag: &str) -> (r: Vec<String>)
    ensures
        strings_view(r@) == tag_list(strings_view(base@), word@, language_tag@),
{
    let mut tags: Vec<String> = Vec::new();
    let mut k: usize = 0;
    while k < base.len()
        invariant
            k <= base@.len(),
            tags@.len() == k,
            forall|m: int| 0 <= m < k ==> (#[trigger] tags@[m])@ == base@[m]@,
        decreases base.len() - k,
    {
        tags.push(base[k].clone());
        k = k + 1;
    }
    assert(strings_view(tags@) =~= strings_view(base@));
    if !holds_tag(&tags, language_tag) {
        tags.push(String::from_str(language_tag));
        assert(strings_view(tags@) =~= strings_view(base@).push(language_tag@));
    }
    let mut word_tag_text = String::from_str("word_");
    let sanitized_word = sanitize_tag(word);
    word_tag_text.append(sanitized_word.as_str());
    if !holds_tag(&tags, word_tag_text.as_str()) {
        let ghost before = strings_view(tags@);
        tags.push(word_tag_text);
        assert(strings_view(tags@) =~= before.push(word_tag(word@)));
    }
    tags
}

fn field(name: &str, value: &String) -> (r: (String, String))
    ensures
        r.0@ == name@,
        r.1@ == value@,
{
    (String::from_str(name), value.clone())
}

fn deck_options() -> (r: Option<NoteOptions>)
    ensures
        no_duplicates_in_deck(r),
{
    Some(NoteOptions { allow_duplicate: Some(false), duplicate_scope: Some(String::from_str("deck")) })
}

/// The two notes of a Hindi card, both of model `Basic` in `deck` with the
/// card's tags: Hindi on the front and English on the back, and the reverse.
pub fn build_hindi_notes(card: &HindiCard, deck: &str, base_tags: &[String]) -> (r: Vec<Note>)
    ensures
        r@.len() == 2,
        forall|k: int|
            0 <= k < 2 ==> {
                &&& (#[trigger] r@[k]).deck_name@ == deck@
                &&& r@[k].model_name@ == "Basic"@
                &&& strings_view(r@[k].tags@) == tag_list(
                    strings_view(base_tags@),
                    card.word@,
                    "hindi"@,
                )
                &&& no_duplicates_in_deck(r@[k].options)
            },
        fields_view(r@[0].fields@) == seq![
            ("Back"@, card.english_sentence@),
            ("Front"@, card.hindi_sentence@),
        ],
        fields_view(r@[1].fields@) == seq![
            ("Back"@, card.hindi_sentence@),
            ("Front"@, card.english_sentence@),
        ],
{
    let tags = collect_tags(base_tags, card.word.as_str(), "hindi");
    let mut forward: Vec<(String, String)> = Vec::new();
    forward.push(field("Back", &card.english_sentence));
    forward.push(field("Front", &card.hindi_sentence));
    let mut reverse: Vec<(String, String)> = Vec::new();
    reverse.push(field("Back", &card.hindi_sentence));
    reverse.push(field("Front", &card.english_sentence));
    assert(fields_view(forward@) =~= seq![
        ("Back"@, card.english_sentence@),
        ("Front"@, card.hindi_sentence@),
    ]);
    assert(fields_view(reverse@) =~= seq![
        ("Back"@, card.hindi_sentence@),
        ("Front"@, card.english_sentence@),
    ]);
    let mut notes: Vec<Note> = Vec::new();
    notes.push(
        Note {
            deck_name: String::from_str(deck),
            model_name: String::from_str("Basic"),
            fields: forward,
            tags: tags.clone(),
            options: deck_options(),
        },
    );
    notes.push(
        Note {
            deck_name: String::from_str(deck),
            model_name: String::from_str("Basic"),
            fields: reverse,
            tags: tags,
            options: deck_options(),
        },
    );
    notes
}

/// The `Back Extra` text of an English card: `Explanation: ` and the
/// trimmed translation, then a line `Hint: ` with the trimmed hint when the
/// card has a hint that is not blank.
pub open spec fn back_extra(translation: Seq<char>, hint: Option<Seq<char>>) -> Seq<char> {
    let head = "Explanation: "@ + trimmed(translation);
    match hint {
        Some(h) => if trimmed(h).len() > 0 {
            head + "\nHint: "@ + trimmed(h)
        } else {
            head
        },
        None => head,
    }
}

/// The note of an English cloze card, of model `Cloze` in `deck` with the
/// card's tags: the cloze sentence as `Text`, the explanation and hint as
/// `Back Extra`.
pub fn build_english_note(card: &EnglishClozeCard, deck: &str, base_tags: &[String]) -> (r: Note)
    ensures
        r.deck_name@ == deck@,
        r.model_name@ == "Cloze"@,
        fields_view(r.fields@) == seq![
            ("Back Extra"@, back_extra(card.translation@, opt_string_view(card.hint))),
            ("Text"@, card.cloze_sentence@),
        ],
        strings_view(r.tags@) == tag_list(strings_view(base_tags@), card.word@, "english"@),
        no_duplicates_in_deck(r.options),
{
    let mut extra = String::from_str("Explanation: ");
    let translation = trim_str(card.translation.as_str());
    extra.append(translation.as_str());
    match &card.hint {
        Some(h) => {
            let t = trim_str(h.as_str());
            if !t.as_str().is_empty() {
                extra.append("\nHint: ");
                extra.append(t.as_str());
            }
        },
        None => {},
    }
    let mut fields: Vec<(String, String)> = Vec::new();
    fields.push(field("Back Extra", &extra));
    fields.push(field("Text", &card.cloze_sentence));
    assert(fields_view(fields@) =~= seq![
        ("Back Extra"@, back_extra(card.translation@, opt_string_view(card.hint))),
        ("Text"@, card.cloze_sentence@),
    ]);
    let tags = collect_tags(base_tags, card.word.as_str(), "english");
    Note {
        deck_name: String::from_str(deck),
        model_name: String::from_str("Cloze"),
        fields: fields,
        tags: tags,
        options: deck_options(),
    }
}

/// What the store answered for one note of a batch.
#[derive(Debug, Clone, Copy, PartialEq, Eq)]
pub enum NoteOutcome {
    /// The note was added under this id.
    Added(i64),
    /// The store refused the note as a duplicate; the card's number in the
    /// batch, counting from one.
    Duplicate(usize),
}

/// The outcome reported for the note at `index` of a batch.
pub open spec fn outcome_of(result: Option<i64>, index: int) -> NoteOutcome {
    match result {
        Some(id) => NoteOutcome::Added(id),
        None => NoteOutcome::Duplicate((index + 1) as usize),
    }
}

/// The outcome of each note of a batch, in order, from the ids the store
/// returned: an id for an added note, none for a duplicate.
pub fn report_add_note_results(results: Vec<Option<i64>>) -> (r: Vec<NoteOutcome>)
    ensures
        r@.len() == results@.len(),
        forall|k: int| 0 <= k < r@.len() ==> #[trigger] r@[k] == outcome_of(results@[k], k),
{
    let mut out: Vec<NoteOutcome> = Vec::new();
    let mut k: usize = 0;
    while k < results.len()
        invariant
            k <= results@.len(),
            out@.len() == k,
            forall|m: int| 0 <= m < k ==> #[trigger] out@[m] == outcome_of(results@[m], m),
        decreases results.len() - k,
    {
        match results[k] {
            Some(id) => out.push(NoteOutcome::Added(id)),
            None => out.push(NoteOutcome::Duplicate(k + 1)),
        }
        k = k + 1;
    }
    out
}

} // verus!
