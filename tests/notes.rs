use anki_cli::cards::{EnglishClozeCard, HindiCard};
use anki_cli::notes::{
    build_english_note, build_hindi_notes, collect_tags, report_add_note_results, sanitize_tag,
    NoteOptions, NoteOutcome,
};

fn strings(v: &[&str]) -> Vec<String> {
    v.iter().map(|s| s.to_string()).collect()
}

fn pairs(v: &[(&str, &str)]) -> Vec<(String, String)> {
    v.iter().map(|(a, b)| (a.to_string(), b.to_string())).collect()
}

#[test]
fn tags_get_language_and_word() {
    assert_eq!(
        collect_tags(&strings(&["generated"]), "ice cream", "hindi"),
        strings(&["generated", "hindi", "word_ice_cream"])
    );
}

#[test]
fn tags_already_present_are_not_repeated() {
    assert_eq!(
        collect_tags(&strings(&["HINDI", "Word_Chai"]), "chai", "hindi"),
        strings(&["HINDI", "Word_Chai"])
    );
    assert_eq!(collect_tags(&[], "x", "english"), strings(&["english", "word_x"]));
}

#[test]
fn sanitize_replaces_separators() {
    assert_eq!(sanitize_tag("  a:b;c,d e\tf "), "a_b_c_d_e_f");
    assert_eq!(sanitize_tag("   "), "");
}

#[test]
fn hindi_notes_go_both_ways() {
    let card = HindiCard {
        word: "पानी".to_string(),
        hindi_sentence: "मुझे पानी चाहिए".to_string(),
        english_sentence: "I need water".to_string(),
    };
    let notes = build_hindi_notes(&card, "Deck", &strings(&["generated"]));
    assert_eq!(notes.len(), 2);
    assert_eq!(notes[0].fields, pairs(&[("Back", "I need water"), ("Front", "मुझे पानी चाहिए")]));
    assert_eq!(notes[1].fields, pairs(&[("Back", "मुझे पानी चाहिए"), ("Front", "I need water")]));
    for note in &notes {
        assert_eq!(note.deck_name, "Deck");
        assert_eq!(note.model_name, "Basic");
        assert_eq!(note.tags, strings(&["generated", "hindi", "word_पानी"]));
        let options = note.options.as_ref().unwrap();
        assert_eq!(options.allow_duplicate, Some(false));
        assert_eq!(options.duplicate_scope.as_deref(), Some("deck"));
    }
}

#[test]
fn english_note_has_explanation_and_hint() {
    let card = EnglishClozeCard {
        word: "cat".to_string(),
        cloze_sentence: "I saw a {{c1::cat}}".to_string(),
        translation: "  a small pet ".to_string(),
        hint: Some(" animal ".to_string()),
    };
    let note = build_english_note(&card, "En", &[]);
    assert_eq!(note.model_name, "Cloze");
    assert_eq!(note.deck_name, "En");
    assert_eq!(
        note.fields,
        pairs(&[
            ("Back Extra", "Explanation: a small pet\nHint: animal"),
            ("Text", "I saw a {{c1::cat}}"),
        ])
    );
    assert_eq!(note.tags, strings(&["english", "word_cat"]));
}

#[test]
fn english_note_without_hint() {
    let card = EnglishClozeCard {
        word: "cat".to_string(),
        cloze_sentence: "x".to_string(),
        translation: "t".to_string(),
        hint: Some("  ".to_string()),
    };
    let note = build_english_note(&card, "En", &[]);
    assert_eq!(note.fields[0].1, "Explanation: t");
}

#[test]
fn add_results_are_reported_per_card() {
    assert_eq!(
        report_add_note_results(vec![Some(5), None, Some(-1), None]),
        vec![
            NoteOutcome::Added(5),
            NoteOutcome::Duplicate(2),
            NoteOutcome::Added(-1),
            NoteOutcome::Duplicate(4),
        ]
    );
    assert_eq!(report_add_note_results(vec![]), vec![]);
}

#[test]
fn note_options_default_is_empty() {
    let options = NoteOptions::default();
    assert_eq!(options.allow_duplicate, None);
    assert_eq!(options.duplicate_scope, None);
}
