use anki_cli::cloze::{
    advance_by_chars, build_cloze_sentence, inject_anki_hint, strip_existing_cloze_markup,
    wrap_with_cloze, wrap_with_folded, MarkupScan,
};

fn compose(sentence: &str, word: &str, hint: Option<&str>) -> String {
    build_cloze_sentence(sentence, word, hint).0
}

fn span_text(s: &str) -> &str {
    let start = s.find("{{c1::").expect("no span") + 6;
    let end = start + s[start..].find("}}").expect("no close");
    &s[start..end]
}

#[test]
fn plain_sentence_gets_exactly_one_span_around_word() {
    for (s, w) in [
        ("The quick brown fox jumps", "fox"),
        ("fox at the start", "fox"),
        ("ends with a fox", "fox"),
        ("two fox and fox", "fox"),
        ("a {c2::b} c fox", "fox"),
    ] {
        let r = compose(s, w, None);
        assert_eq!(r.matches("{{c1::").count(), 1, "{r}");
        assert_eq!(span_text(&r), w);
    }
    assert_eq!(compose("two fox and fox", "fox", None), "two {{c1::fox}} and fox");
}

#[test]
fn composing_twice_changes_nothing() {
    for (s, w) in [
        ("The quick brown fox jumps", "fox"),
        ("  padded sentence here  ", "sentence"),
        ("word", "word"),
        ("multi word phrase inside", "word phrase"),
    ] {
        let once = compose(s, w, None);
        assert_eq!(compose(&once, w, None), once);
    }
}

#[test]
fn second_pass_after_case_insensitive_match_keeps_span() {
    let once = compose("The Cat sat", "cat", None);
    assert_eq!(once, "The {{c1::Cat}} sat");
    assert_eq!(compose(&once, "cat", None), once);
    let missing = compose("  no match here ", "cat", None);
    assert_eq!(compose(&missing, "cat", None), missing);
}

#[test]
fn case_insensitive_fallback_keeps_sentence_case() {
    assert_eq!(compose("The Cat sat", "cat", None), "The {{c1::Cat}} sat");
}

#[test]
fn existing_hint_is_not_overwritten_by_merge() {
    assert_eq!(
        inject_anki_hint("{{c1::answer::existing}} text", "new"),
        "{{c1::answer::existing}} text"
    );
}

#[test]
fn well_formed_span_keeps_its_hint() {
    assert_eq!(
        compose("{{c1::answer::existing}} text", "answer", Some("new")),
        "{{c1::answer::existing}} text"
    );
}

#[test]
fn only_malformed_spans_are_normalized() {
    assert_eq!(
        compose("{{c1::a}} and {{c2::b}}", "w", None),
        "{{c1::a}} and w"
    );
    assert_eq!(
        compose("{{C1::answer::old}} text", "answer", Some("new")),
        "{{c1::answer::new}} text"
    );
}

#[test]
fn hint_goes_into_prewrapped_span() {
    assert_eq!(
        compose("I saw a {{c1::cat}}", "cat", Some("animal")),
        "I saw a {{c1::cat::animal}}"
    );
}

#[test]
fn case_insensitive_match_after_multibyte_text() {
    let r = compose("Ünïcödé straße: ÉTÉ chaud", "été", None);
    assert_eq!(r, "Ünïcödé straße: {{c1::ÉTÉ}} chaud");
    assert_eq!(span_text(&r).chars().count(), "été".chars().count());
    let r = compose("Привет, МИР!", "мир", None);
    assert_eq!(r, "Привет, {{c1::МИР}}!");
}

#[test]
fn unmatched_word_leaves_sentence_and_warns() {
    let (r, warnings) = build_cloze_sentence("Unrelated sentence", "missing", None);
    assert_eq!(r, "Unrelated sentence");
    assert!(warnings.word_missing);
    assert!(!warnings.unclosed_markup);
}

#[test]
fn unclosed_markup_is_left_as_plain_text() {
    let (r, warnings) = build_cloze_sentence("{{c1::broken text", "word", None);
    assert_eq!(r, "{{c1::broken text");
    assert!(warnings.unclosed_markup);
    assert!(!warnings.word_missing);
    let (r, warnings) = build_cloze_sentence("{c2::broken word", "word", None);
    assert_eq!(r, "{c2::broken {{c1::word}}");
    assert!(warnings.unclosed_markup);
}

#[test]
fn sentence_and_hint_are_trimmed() {
    assert_eq!(compose("  The cat  ", "cat", Some("  pet ")), "The {{c1::cat::pet}}");
    assert_eq!(compose("The cat", "cat", Some("   ")), "The {{c1::cat}}");
}

#[test]
fn empty_word_wraps_at_start() {
    assert_eq!(compose("abc", "", None), "{{c1::}}abc");
}

#[test]
fn strip_replaces_each_closed_span() {
    assert_eq!(
        strip_existing_cloze_markup("a {{c2::b}} c {C3::d} e", "X"),
        MarkupScan::Replaced("a X c X e".to_string())
    );
    assert_eq!(
        strip_existing_cloze_markup("{c1::a{b}c} end", "W"),
        MarkupScan::Replaced("W end".to_string())
    );
    assert_eq!(
        strip_existing_cloze_markup("{{c1::a{b}c}} end {c1::x}", "W"),
        MarkupScan::Replaced("{{c1::a{b}c}} end W".to_string())
    );
    assert_eq!(
        strip_existing_cloze_markup("{{{c12::x}}} y", "W"),
        MarkupScan::Replaced("W y".to_string())
    );
}

#[test]
fn strip_without_markup_or_unclosed() {
    assert_eq!(strip_existing_cloze_markup("plain {text} c1::", "W"), MarkupScan::NoMarkup);
    assert_eq!(strip_existing_cloze_markup("ok {{c1::x}} {{c1::y", "W"), MarkupScan::Unclosed);
    assert_eq!(strip_existing_cloze_markup("", "W"), MarkupScan::NoMarkup);
    assert_eq!(
        strip_existing_cloze_markup("{{c1::answer::existing}} text", "W"),
        MarkupScan::NoMarkup
    );
}

#[test]
fn wrap_cases() {
    assert_eq!(wrap_with_cloze("has {{c1::x}} span", "y"), Some("has {{c1::x}} span".to_string()));
    assert_eq!(wrap_with_cloze("a Dog b dog", "dog"), Some("a Dog b {{c1::dog}}".to_string()));
    assert_eq!(wrap_with_cloze("a DOG b", "dog"), Some("a {{c1::DOG}} b".to_string()));
    assert_eq!(wrap_with_cloze("nothing", "dog"), None);
}

#[test]
fn hint_merge_cases() {
    assert_eq!(inject_anki_hint("a {{c1::b}} c", " h "), "a {{c1::b::h}} c");
    assert_eq!(inject_anki_hint("a {{c1::b c", "h"), "a {{c1::b c");
    assert_eq!(inject_anki_hint("no span", "h"), "no span");
    assert_eq!(inject_anki_hint("a {{c1::b}} c", ""), "a {{c1::b}} c");
}

#[test]
fn advance_counts_characters() {
    let text: Vec<char> = "héllo".chars().collect();
    assert_eq!(advance_by_chars(&text, 1, 2), 3);
    assert_eq!(advance_by_chars(&text, 1, 10), 5);
    assert_eq!(advance_by_chars(&text, 5, 0), 5);
}

#[test]
fn normalization_can_join_pieces_into_a_marker() {
    let (r, warnings) = build_cloze_sentence("{{c{c1::x}::1", "1", None);
    assert_eq!(r, "{{c1::1");
    assert!(!warnings.word_missing);
}

fn chars(s: &str) -> Vec<char> {
    s.chars().collect()
}

fn each_char(s: &str) -> Vec<Vec<char>> {
    s.chars().map(|c| vec![c]).collect()
}

#[test]
fn wrap_uses_given_folds() {
    // Folds that map `X` to `a` make `X` match the word `a`.
    let sentence = chars("bXc");
    let word = chars("a");
    let folds: Vec<Vec<char>> = sentence
        .iter()
        .map(|&c| if c == 'X' { vec!['a'] } else { vec![c] })
        .collect();
    assert_eq!(
        wrap_with_folded(&sentence, &word, &folds, &each_char("a")),
        Some(chars("b{{c1::X}}c"))
    );
    assert_eq!(
        wrap_with_folded(&sentence, &word, &each_char("bXc"), &each_char("a")),
        None
    );
    assert_eq!(
        wrap_with_folded(&chars("a b"), &chars("b"), &each_char("a b"), &each_char("z")),
        Some(chars("a {{c1::b}}"))
    );
    let marked = chars("{{c1::q}}");
    assert_eq!(
        wrap_with_folded(&marked, &word, &each_char("{{c1::q}}"), &each_char("a")),
        Some(marked.clone())
    );
}
