//! Dispatcher scenarios: the control-plane operations end to end, over
//! lines as they arrive from a connection.

use lai_core::codec::Response;
use lai_core::dispatch::{handle_line, ShellEvent};
use lai_core::json::Json;
use lai_core::store::{Conversation, Database, DeletionPolicy, Message, NewConversation};

fn fresh_db() -> Database {
    Database::new(DeletionPolicy::Soft)
}

fn error_text(resp: &Response) -> Option<String> {
    match &resp.data {
        Some(Json::Obj(pairs)) => pairs.iter().find(|(k, _)| k == "error").map(|(_, v)| match v {
            Json::Str(s) => s.clone(),
            _ => panic!("error field should be a string"),
        }),
        _ => None,
    }
}

fn data_field(resp: &Response, key: &str) -> Option<Json> {
    match &resp.data {
        Some(Json::Obj(pairs)) => {
            pairs.iter().rev().find(|(k, _)| k == key).map(|(_, v)| match v {
                Json::Str(s) => Json::Str(s.clone()),
                Json::Int(i) => Json::Int(*i),
                Json::Null => Json::Null,
                Json::Bool(b) => Json::Bool(*b),
                _ => panic!("unexpected nested data"),
            })
        }
        _ => None,
    }
}

#[test]
fn notify_reaches_the_shell_channel() {
    let mut db = fresh_db();
    let (resp, ev) = handle_line(&mut db, false, r#"{"type":"notify","message":"hi"}"#)
        .expect("a full line gets a reply");
    assert_eq!(resp.status, "ok");
    assert!(resp.data.is_none());
    match ev {
        Some(ShellEvent::Notify(text)) => assert_eq!(text, "hi"),
        other => panic!("expected a notification event, got {:?}", other),
    }
}

#[test]
fn ask_forwards_payload_or_message() {
    let mut db = fresh_db();
    let (resp, ev) =
        handle_line(&mut db, false, r#"{"type":"ask","payload":{"prompt":"why"}}"#).unwrap();
    assert_eq!(resp.status, "ok");
    assert!(matches!(ev, Some(ShellEvent::AskPayload(Json::Obj(_)))));

    let (resp2, ev2) = handle_line(&mut db, false, r#"{"type":"ask","message":"plain"}"#).unwrap();
    assert_eq!(resp2.status, "ok");
    match ev2 {
        Some(ShellEvent::AskText(text)) => assert_eq!(text, "plain"),
        other => panic!("expected a plain ask event, got {:?}", other),
    }
}

#[test]
fn create_requires_privileged_mode() {
    let mut db = fresh_db();
    let (resp, ev) =
        handle_line(&mut db, false, r#"{"type":"create","payload":{"content":"x"}}"#).unwrap();
    assert_eq!(resp.status, "error");
    assert_eq!(
        error_text(&resp).as_deref(),
        Some("create command only available in DEV_MODE")
    );
    assert!(ev.is_none());
    assert_eq!(Conversation::get_all(&db, -1).len(), 0);
}

#[test]
fn create_without_payload_is_an_error() {
    let mut db = fresh_db();
    let (resp, _) = handle_line(&mut db, true, r#"{"type":"create"}"#).unwrap();
    assert_eq!(resp.status, "error");
    assert_eq!(
        error_text(&resp).as_deref(),
        Some("No payload provided for create command")
    );
}

#[test]
fn privileged_create_makes_one_conversation_and_message() {
    let mut db = fresh_db();
    let (resp, ev) =
        handle_line(&mut db, true, r#"{"type":"create","payload":{"content":"hello"}}"#).unwrap();
    assert_eq!(resp.status, "ok");
    assert!(ev.is_none());
    assert!(matches!(data_field(&resp, "content"), Some(Json::Str(s)) if s == "hello"));
    assert!(matches!(data_field(&resp, "role"), Some(Json::Str(s)) if s == "assistant"));
    let convs = Conversation::get_all(&db, -1);
    assert_eq!(convs.len(), 1);
    assert_eq!(convs[0].title, "Dev Test Conversation");
    let msgs = Message::get_by_conversation(&db, &convs[0].id);
    assert_eq!(msgs.len(), 1);
    assert_eq!(msgs[0].content, "hello");
    assert_eq!(msgs[0].role, "assistant");
}

#[test]
fn create_into_existing_conversation() {
    let mut db = fresh_db();
    Conversation::create_at(
        &mut db,
        NewConversation {
            title: "T".to_string(),
            model: "m".to_string(),
            provider: "p".to_string(),
            system_prompt: None,
        },
        "c1".to_string(),
        5,
    )
    .unwrap();
    let line = r#"{"type":"create","payload":{"content":"reply","conversation_id":"c1"}}"#;
    let (resp, _) = handle_line(&mut db, true, line).unwrap();
    assert_eq!(resp.status, "ok");
    assert_eq!(Conversation::get_all(&db, -1).len(), 1);
    let msgs = Message::get_by_conversation(&db, "c1");
    assert_eq!(msgs.len(), 1);
    assert_eq!(msgs[0].content, "reply");
    // absent content falls back to the documented default
    let (resp2, _) = handle_line(
        &mut db,
        true,
        r#"{"type":"create","payload":{"conversation_id":"c1"}}"#,
    )
    .unwrap();
    assert_eq!(resp2.status, "ok");
    let msgs2 = Message::get_by_conversation(&db, "c1");
    assert_eq!(msgs2.len(), 2);
    assert!(msgs2.iter().any(|m| m.content == "Test message"));
}

#[test]
fn last_with_no_messages_is_the_documented_error() {
    let mut db = fresh_db();
    let (resp, ev) = handle_line(&mut db, false, r#"{"type":"last"}"#).unwrap();
    assert_eq!(resp.status, "error");
    assert_eq!(error_text(&resp).as_deref(), Some("No messages found"));
    assert!(ev.is_none());
}

#[test]
fn last_returns_newest_assistant_message() {
    let mut db = fresh_db();
    handle_line(&mut db, true, r#"{"type":"create","payload":{"content":"first"}}"#).unwrap();
    handle_line(&mut db, true, r#"{"type":"create","payload":{"content":"second"}}"#).unwrap();
    let (resp, _) = handle_line(&mut db, false, r#"{"type":"last"}"#).unwrap();
    assert_eq!(resp.status, "ok");
    assert!(matches!(data_field(&resp, "content"), Some(Json::Str(s)) if s == "second"));
    assert!(matches!(data_field(&resp, "role"), Some(Json::Str(s)) if s == "assistant"));
}

#[test]
fn unknown_kinds_are_accepted() {
    let mut db = fresh_db();
    let (resp, ev) = handle_line(&mut db, false, r#"{"type":"future-thing","payload":[1,2]}"#)
        .expect("unknown kinds still get a reply");
    assert_eq!(resp.status, "ok");
    assert!(resp.data.is_none());
    assert!(ev.is_none());
}

#[test]
fn invalid_json_keeps_the_connection_usable() {
    let mut db = fresh_db();
    let (resp, ev) = handle_line(&mut db, false, "this is not json").unwrap();
    assert_eq!(resp.status, "error");
    assert_eq!(error_text(&resp).as_deref(), Some("Invalid JSON"));
    assert!(ev.is_none());
    // the very next line on the same connection still works
    let (resp2, _) = handle_line(&mut db, false, r#"{"type":"notify","message":"ok"}"#).unwrap();
    assert_eq!(resp2.status, "ok");
}

#[test]
fn blank_lines_get_no_reply() {
    let mut db = fresh_db();
    assert!(handle_line(&mut db, false, "").is_none());
    assert!(handle_line(&mut db, false, "   \t  \r\n").is_none());
}

#[test]
fn create_into_missing_conversation_is_a_reference_error() {
    let mut db = fresh_db();
    let line = r#"{"type":"create","payload":{"content":"x","conversation_id":"ghost"}}"#;
    let (resp, _) = handle_line(&mut db, true, line).unwrap();
    assert_eq!(resp.status, "error");
    assert_eq!(error_text(&resp).as_deref(), Some("Conversation not found"));
    // the same answer for a soft-deleted target
    Conversation::create_at(
        &mut db,
        NewConversation {
            title: "T".to_string(),
            model: "m".to_string(),
            provider: "p".to_string(),
            system_prompt: None,
        },
        "c9".to_string(),
        5,
    )
    .unwrap();
    lai_core::store::Conversation::delete_at(&mut db, "c9", 6);
    let line2 = r#"{"type":"create","payload":{"content":"x","conversation_id":"c9"}}"#;
    let (resp2, _) = handle_line(&mut db, true, line2).unwrap();
    assert_eq!(resp2.status, "error");
    assert_eq!(error_text(&resp2).as_deref(), Some("Conversation not found"));
}
