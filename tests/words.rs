use anki_cli::config::merge_config_tags;
use anki_cli::words::{
    distinct_words, keep_first_of_each_key, normalize_words, split_input, words_from_text,
};

fn strings(v: &[&str]) -> Vec<String> {
    v.iter().map(|s| s.to_string()).collect()
}

#[test]
fn words_are_trimmed_and_blank_ones_dropped() {
    assert_eq!(normalize_words(strings(&[" a ", "", "  ", "b\n"])), strings(&["a", "b"]));
}

#[test]
fn typed_input_splits_at_separators() {
    assert_eq!(split_input("a, b;c\nd\r\ne,,"), strings(&["a", "b", "c", "d", "e"]));
    assert_eq!(split_input(" , ; "), Vec::<String>::new());
    assert_eq!(split_input("ice cream"), strings(&["ice cream"]));
}

#[test]
fn word_file_skips_comments_and_blank_lines() {
    assert_eq!(
        words_from_text("# comment\nfoo, bar\n\n  baz ;qux\r\n  # also comment\nlast"),
        strings(&["foo", "bar", "baz", "qux", "last"])
    );
    assert_eq!(words_from_text(""), Vec::<String>::new());
}

#[test]
fn distinct_words_keep_first_spelling() {
    assert_eq!(
        distinct_words(strings(&["Cat", "cat", " dog", "CAT", "Dog", "", "Straße"])),
        strings(&["Cat", "dog", "Straße"])
    );
}

#[test]
fn config_tags_default_to_generated() {
    assert_eq!(merge_config_tags(None, None), strings(&["generated"]));
    assert_eq!(merge_config_tags(Some(strings(&["  ", ""])), None), strings(&["generated"]));
}

#[test]
fn config_tags_add_extra_once() {
    assert_eq!(
        merge_config_tags(Some(strings(&[" a ", "b"])), Some(strings(&["B", " extra ", "EXTRA", " "]))),
        strings(&["a", "b", "extra"])
    );
    assert_eq!(
        merge_config_tags(None, Some(strings(&["Generated", "new"]))),
        strings(&["generated", "new"])
    );
}

#[test]
fn first_of_each_key_uses_given_keys() {
    assert_eq!(
        keep_first_of_each_key(strings(&["a", "b", "c", "d"]), strings(&["k", "j", "k", "j"])),
        strings(&["a", "b"])
    );
    assert_eq!(
        keep_first_of_each_key(strings(&["x", "X"]), strings(&["1", "2"])),
        strings(&["x", "X"])
    );
    assert_eq!(keep_first_of_each_key(vec![], vec![]), Vec::<String>::new());
}
