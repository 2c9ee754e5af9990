use anki_cli::cards::{english_cloze_card, hindi_card};
use anki_cli::text::{is_white, trim_str};

#[test]
fn english_card_from_fields() {
    let (card, warnings) = english_cloze_card("  cat ", " I saw a cat ", " a pet ", Some("  "));
    assert_eq!(card.word, "cat");
    assert_eq!(card.cloze_sentence, "I saw a {{c1::cat}}");
    assert_eq!(card.translation, "a pet");
    assert_eq!(card.hint, None);
    assert!(!warnings.word_missing && !warnings.unclosed_markup);
}

#[test]
fn english_card_with_hint() {
    let (card, _) = english_cloze_card("cat", "I saw a {{c2::cat}}.", "t", Some(" animal "));
    assert_eq!(card.cloze_sentence, "I saw a {{c1::cat::animal}}.");
    assert_eq!(card.hint, Some("animal".to_string()));
}

#[test]
fn english_card_reports_missing_word() {
    let (card, warnings) = english_cloze_card("dog", "I saw a cat", "t", None);
    assert_eq!(card.cloze_sentence, "I saw a cat");
    assert!(warnings.word_missing);
}

#[test]
fn hindi_card_from_fields() {
    let (card, has_word) = hindi_card(" पानी ", " मुझे पानी चाहिए ", " I need water ");
    assert_eq!(card.word, "पानी");
    assert_eq!(card.hindi_sentence, "मुझे पानी चाहिए");
    assert_eq!(card.english_sentence, "I need water");
    assert!(has_word);
    let (_, has_word) = hindi_card("चाय", "मुझे पानी चाहिए", "x");
    assert!(!has_word);
}

#[test]
fn white_space_agrees_with_std() {
    for u in 0u32..=0x10FFFF {
        if let Some(c) = char::from_u32(u) {
            assert_eq!(is_white(c), c.is_whitespace(), "U+{u:04X}");
        }
    }
}

#[test]
fn trim_removes_unicode_white_space() {
    assert_eq!(trim_str("\u{3000} x y \n\u{85}"), "x y");
    assert_eq!(trim_str(" \t "), "");
}
