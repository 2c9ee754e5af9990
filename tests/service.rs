use anki_cli::anki::{add_notes_reply, deck_creation_status, endpoint_url, AddNotesReply, DeckStatus};
use anki_cli::config::{api_key_is_blank, resolve_setting};
use anki_cli::flow::{card_step, saves_deck, session_input, CardStep, SessionInput};

#[test]
fn endpoint_drops_trailing_slashes() {
    assert_eq!(endpoint_url("https://api.example.com/v1//", "chat/completions"), "https://api.example.com/v1/chat/completions");
    assert_eq!(endpoint_url("http://127.0.0.1:8765", ""), "http://127.0.0.1:8765/");
    assert_eq!(endpoint_url("", "x"), "/x");
}

#[test]
fn deck_creation_outcomes() {
    assert_eq!(deck_creation_status(None), DeckStatus::Created);
    assert_eq!(
        deck_creation_status(Some("deck already exists".to_string())),
        DeckStatus::AlreadyExists
    );
    assert_eq!(
        deck_creation_status(Some("collection is not available".to_string())),
        DeckStatus::Failed("collection is not available".to_string())
    );
}

#[test]
fn add_notes_outcomes() {
    assert_eq!(
        add_notes_reply(Some(vec![Some(1), None]), None),
        AddNotesReply::Ids(vec![Some(1), None])
    );
    assert_eq!(
        add_notes_reply(Some(vec![]), Some("boom".to_string())),
        AddNotesReply::StoreError("boom".to_string())
    );
    assert_eq!(add_notes_reply(None, None), AddNotesReply::MissingResult);
}

#[test]
fn settings_follow_precedence() {
    let s = |v: &str| Some(v.to_string());
    assert_eq!(resolve_setting(s("o"), s("f"), s("e"), "d"), "o");
    assert_eq!(resolve_setting(None, s("f"), s("e"), "d"), "f");
    assert_eq!(resolve_setting(None, None, s("e"), "d"), "e");
    assert_eq!(resolve_setting(None, None, None, "gpt-4o"), "gpt-4o");
}

#[test]
fn blank_api_key() {
    assert!(api_key_is_blank("  \t"));
    assert!(api_key_is_blank(""));
    assert!(!api_key_is_blank(" k "));
}

#[test]
fn card_steps() {
    assert_eq!(card_step(true, false), CardStep::Preview);
    assert_eq!(card_step(true, true), CardStep::Preview);
    assert_eq!(card_step(false, false), CardStep::AskFirst);
    assert_eq!(card_step(false, true), CardStep::Send);
    assert!(saves_deck(false));
    assert!(!saves_deck(true));
}

#[test]
fn session_lines() {
    assert_eq!(session_input("   "), SessionInput::Exit);
    assert_eq!(session_input(" ,; "), SessionInput::NoWords);
    assert_eq!(
        session_input("apple, pear"),
        SessionInput::Words(vec!["apple".to_string(), "pear".to_string()])
    );
}
