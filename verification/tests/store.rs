//! Store behaviour: creation, visibility, deletion under both policies,
//! ordering, search consistency, settings, and token counts.

use lai_core::store::{
    Conversation, Database, DeletionPolicy, Message, NewConversation, NewConversationWithId,
    NewMessage, NewMessageWithId, StoreError,
};

fn new_conv(title: &str) -> NewConversation {
    NewConversation {
        title: title.to_string(),
        model: "m".to_string(),
        provider: "p".to_string(),
        system_prompt: None,
    }
}

fn add_conv(db: &mut Database, id: &str, title: &str, now: i64) -> Conversation {
    Conversation::create_at(db, new_conv(title), id.to_string(), now).expect("create")
}

fn add_msg(db: &mut Database, id: &str, cid: &str, role: &str, content: &str, now: i64) -> Message {
    Message::create_at(
        db,
        NewMessage {
            conversation_id: cid.to_string(),
            role: role.to_string(),
            content: content.to_string(),
            tokens_used: None,
        },
        id.to_string(),
        now,
    )
    .expect("message create")
}

#[test]
fn create_then_get_returns_equal_record() {
    let mut db = Database::new(DeletionPolicy::Soft);
    let created = add_conv(&mut db, "c1", "First", 100);
    let got = Conversation::get_by_id(&db, "c1").expect("visible after create");
    assert_eq!(got.id, created.id);
    assert_eq!(got.title, created.title);
    assert_eq!(got.model, created.model);
    assert_eq!(got.provider, created.provider);
    assert_eq!(got.system_prompt, created.system_prompt);
    assert_eq!(got.created_at, 100);
    assert_eq!(got.updated_at, 100);
}

#[test]
fn duplicate_conversation_id_fails_atomically() {
    let mut db = Database::new(DeletionPolicy::Soft);
    add_conv(&mut db, "c1", "First", 100);
    let err = Conversation::create_with_id(
        &mut db,
        NewConversationWithId {
            id: "c1".to_string(),
            title: "Other".to_string(),
            model: "m2".to_string(),
            provider: "p2".to_string(),
            system_prompt: None,
            created_at: 1,
            updated_at: 1,
        },
    )
    .expect_err("second create with the same id must fail");
    assert_eq!(err, StoreError::DuplicateId);
    let got = Conversation::get_by_id(&db, "c1").unwrap();
    assert_eq!(got.title, "First");
}

#[test]
fn message_insert_touches_conversation() {
    let mut db = Database::new(DeletionPolicy::Soft);
    add_conv(&mut db, "c1", "First", 100);
    let before = Conversation::get_by_id(&db, "c1").unwrap().updated_at;
    add_msg(&mut db, "m1", "c1", "user", "hello", 250);
    let after = Conversation::get_by_id(&db, "c1").unwrap().updated_at;
    assert!(after >= before);
    assert!(after > before);
    assert_eq!(after, 250);
    // even a write at a stale wall-clock time moves updated_at strictly forward
    add_msg(&mut db, "m2", "c1", "user", "again", 10);
    let after2 = Conversation::get_by_id(&db, "c1").unwrap().updated_at;
    assert!(after2 > after);
}

#[test]
fn message_create_checks_reference_and_role() {
    let mut db = Database::new(DeletionPolicy::Soft);
    let missing = Message::create_at(
        &mut db,
        NewMessage {
            conversation_id: "nope".to_string(),
            role: "user".to_string(),
            content: "x".to_string(),
            tokens_used: None,
        },
        "m1".to_string(),
        5,
    );
    assert_eq!(missing.unwrap_err(), StoreError::MissingConversation);

    add_conv(&mut db, "c1", "First", 1);
    Conversation::delete_at(&mut db, "c1", 2);
    let deleted_target = Message::create_at(
        &mut db,
        NewMessage {
            conversation_id: "c1".to_string(),
            role: "user".to_string(),
            content: "x".to_string(),
            tokens_used: None,
        },
        "m1".to_string(),
        5,
    );
    assert_eq!(deleted_target.unwrap_err(), StoreError::MissingConversation);

    add_conv(&mut db, "c2", "Second", 3);
    let bad_role = Message::create_at(
        &mut db,
        NewMessage {
            conversation_id: "c2".to_string(),
            role: "robot".to_string(),
            content: "x".to_string(),
            tokens_used: None,
        },
        "m1".to_string(),
        5,
    );
    assert_eq!(bad_role.unwrap_err(), StoreError::InvalidRole);
}

#[test]
fn get_last_n_is_chronological_and_bounded() {
    let mut db = Database::new(DeletionPolicy::Soft);
    add_conv(&mut db, "c1", "First", 1);
    // insert out of timestamp order; ties broken by insertion order
    add_msg(&mut db, "m1", "c1", "user", "one", 30);
    add_msg(&mut db, "m2", "c1", "assistant", "two", 10);
    add_msg(&mut db, "m3", "c1", "user", "three", 20);
    add_msg(&mut db, "m4", "c1", "user", "four", 20);

    let all = Message::get_by_conversation(&db, "c1");
    let ids: Vec<&str> = all.iter().map(|m| m.id.as_str()).collect();
    assert_eq!(ids, vec!["m2", "m3", "m4", "m1"]);

    let last2 = Message::get_last_n(&db, "c1", 2);
    assert_eq!(last2.len(), 2);
    let ids2: Vec<&str> = last2.iter().map(|m| m.id.as_str()).collect();
    assert_eq!(ids2, vec!["m4", "m1"]);
    assert!(last2.windows(2).all(|w| w[0].timestamp <= w[1].timestamp));

    assert_eq!(Message::get_last_n(&db, "c1", 10).len(), 4);
    assert_eq!(Message::get_last_n(&db, "c1", 0).len(), 0);
    assert_eq!(Message::get_last_n(&db, "c1", -1).len(), 4);
}

#[test]
fn deletion_policies_hide_conversations_and_cascade() {
    for policy in [DeletionPolicy::Soft, DeletionPolicy::Hard] {
        let mut db = Database::new(policy);
        add_conv(&mut db, "c1", "alpha title", 10);
        add_conv(&mut db, "c2", "beta title", 20);
        add_msg(&mut db, "m1", "c1", "user", "hello there", 30);
        add_msg(&mut db, "m2", "c2", "user", "other words", 31);
        Conversation::delete_at(&mut db, "c1", 40);

        assert!(Conversation::get_by_id(&db, "c1").is_none());
        assert!(Conversation::get_by_id(&db, "c2").is_some());
        let all = Conversation::get_all(&db, -1);
        assert_eq!(all.len(), 1);
        assert_eq!(all[0].id, "c2");
        let found = Conversation::search(&db, "title", -1);
        assert_eq!(found.len(), 1);
        assert_eq!(found[0].id, "c2");
        // the delete cascades to the conversation's messages
        assert_eq!(Message::get_by_conversation(&db, "c1").len(), 0);
        assert_eq!(Message::get_last_n(&db, "c1", -1).len(), 0);
        assert_eq!(Message::search(&db, "hello there", -1).len(), 0);
        assert_eq!(Message::get_conversation_token_count(&db, "c1"), 0);
        // the other conversation's messages are untouched
        assert_eq!(Message::get_by_conversation(&db, "c2").len(), 1);
        assert_eq!(Message::search(&db, "other words", -1).len(), 1);
    }
}

#[test]
fn soft_deleted_conversation_can_be_restored() {
    let mut db = Database::new(DeletionPolicy::Soft);
    add_conv(&mut db, "c1", "First", 10);
    add_msg(&mut db, "m1", "c1", "user", "kept through the round trip", 15);
    Conversation::delete_at(&mut db, "c1", 20);
    assert!(Conversation::get_by_id(&db, "c1").is_none());
    assert_eq!(Message::get_by_conversation(&db, "c1").len(), 0);
    Conversation::restore_at(&mut db, "c1", 30);
    let back = Conversation::get_by_id(&db, "c1").expect("restored");
    assert_eq!(back.title, "First");
    assert!(back.updated_at >= 30);
    // the cascade is undone with the conversation
    let msgs = Message::get_by_conversation(&db, "c1");
    assert_eq!(msgs.len(), 1);
    assert_eq!(msgs[0].id, "m1");
    assert_eq!(Message::search(&db, "round trip", -1).len(), 1);
}

#[test]
fn hard_delete_cascades_to_messages() {
    let mut db = Database::new(DeletionPolicy::Hard);
    add_conv(&mut db, "c1", "First", 10);
    add_conv(&mut db, "c2", "Second", 11);
    add_msg(&mut db, "m1", "c1", "user", "doomed words", 20);
    add_msg(&mut db, "m2", "c2", "user", "surviving words", 21);
    Conversation::delete_at(&mut db, "c1", 30);
    assert_eq!(Message::get_by_conversation(&db, "c1").len(), 0);
    assert_eq!(Message::get_by_conversation(&db, "c2").len(), 1);
    assert_eq!(Message::search(&db, "doomed", -1).len(), 0);
    assert_eq!(Message::search(&db, "surviving", -1).len(), 1);
}

#[test]
fn get_all_orders_by_recency_and_honours_limit() {
    let mut db = Database::new(DeletionPolicy::Soft);
    add_conv(&mut db, "c1", "one", 10);
    add_conv(&mut db, "c2", "two", 30);
    add_conv(&mut db, "c3", "three", 20);
    let all = Conversation::get_all(&db, -1);
    let ids: Vec<&str> = all.iter().map(|c| c.id.as_str()).collect();
    assert_eq!(ids, vec!["c2", "c3", "c1"]);
    let top2 = Conversation::get_all(&db, 2);
    assert_eq!(top2.len(), 2);
    assert_eq!(top2[0].id, "c2");
    assert_eq!(top2[1].id, "c3");
    assert_eq!(Conversation::get_all(&db, 0).len(), 0);

    Conversation::update_title_at(&mut db, "c1", "one renamed", 40);
    let now_first = Conversation::get_all(&db, 1);
    assert_eq!(now_first[0].id, "c1");
    assert_eq!(now_first[0].title, "one renamed");
}

#[test]
fn search_finds_exact_content_until_deleted() {
    let mut db = Database::new(DeletionPolicy::Soft);
    add_conv(&mut db, "c1", "First", 1);
    add_msg(&mut db, "m1", "c1", "user", "the quick brown fox", 10);
    add_msg(&mut db, "m2", "c1", "assistant", "lazy dog", 20);

    let hits = Message::search(&db, "the quick brown fox", -1);
    assert_eq!(hits.len(), 1);
    assert_eq!(hits[0].id, "m1");

    let sub = Message::search(&db, "quick", -1);
    assert_eq!(sub.len(), 1);

    Message::delete(&mut db, "m1");
    assert_eq!(Message::search(&db, "the quick brown fox", -1).len(), 0);
    assert_eq!(Message::search(&db, "lazy dog", -1).len(), 1);
}

#[test]
fn message_search_is_newest_first() {
    let mut db = Database::new(DeletionPolicy::Soft);
    add_conv(&mut db, "c1", "First", 1);
    add_msg(&mut db, "m1", "c1", "user", "needle one", 10);
    add_msg(&mut db, "m2", "c1", "user", "needle two", 30);
    add_msg(&mut db, "m3", "c1", "user", "needle three", 20);
    let hits = Message::search(&db, "needle", -1);
    let ids: Vec<&str> = hits.iter().map(|m| m.id.as_str()).collect();
    assert_eq!(ids, vec!["m2", "m3", "m1"]);
    assert_eq!(Message::search(&db, "needle", 2).len(), 2);
}

#[test]
fn token_count_sums_non_deleted_messages() {
    let mut db = Database::new(DeletionPolicy::Soft);
    add_conv(&mut db, "c1", "First", 1);
    assert_eq!(Message::get_conversation_token_count(&db, "c1"), 0);
    Message::create_at(
        &mut db,
        NewMessage {
            conversation_id: "c1".to_string(),
            role: "user".to_string(),
            content: "a".to_string(),
            tokens_used: Some(7),
        },
        "m1".to_string(),
        10,
    )
    .unwrap();
    Message::create_at(
        &mut db,
        NewMessage {
            conversation_id: "c1".to_string(),
            role: "assistant".to_string(),
            content: "b".to_string(),
            tokens_used: Some(35),
        },
        "m2".to_string(),
        11,
    )
    .unwrap();
    add_msg(&mut db, "m3", "c1", "user", "no count", 12);
    assert_eq!(Message::get_conversation_token_count(&db, "c1"), 42);
    Message::delete(&mut db, "m2");
    assert_eq!(Message::get_conversation_token_count(&db, "c1"), 7);
}

#[test]
fn import_with_id_preserves_timestamps() {
    let mut db = Database::new(DeletionPolicy::Soft);
    Conversation::create_with_id(
        &mut db,
        NewConversationWithId {
            id: "imported".to_string(),
            title: "Imported".to_string(),
            model: "m".to_string(),
            provider: "p".to_string(),
            system_prompt: Some("be nice".to_string()),
            created_at: 1000,
            updated_at: 2000,
        },
    )
    .unwrap();
    Message::create_with_id(
        &mut db,
        NewMessageWithId {
            id: "im1".to_string(),
            conversation_id: "imported".to_string(),
            role: "user".to_string(),
            content: "old words".to_string(),
            timestamp: 1500,
            tokens_used: Some(3),
        },
    )
    .unwrap();
    let conv = Conversation::get_by_id(&db, "imported").unwrap();
    assert_eq!(conv.created_at, 1000);
    assert_eq!(conv.updated_at, 2000);
    assert_eq!(conv.system_prompt.as_deref(), Some("be nice"));
    let msgs = Message::get_by_conversation(&db, "imported");
    assert_eq!(msgs.len(), 1);
    assert_eq!(msgs[0].timestamp, 1500);
}

#[test]
fn settings_are_an_upsert_table() {
    let mut db = Database::new(DeletionPolicy::Soft);
    assert!(db.get_setting("theme").is_none());
    db.set_setting("theme", "dark", 10);
    db.set_setting("lang", "en", 11);
    assert_eq!(db.get_setting("theme").as_deref(), Some("dark"));
    db.set_setting("theme", "light", 12);
    assert_eq!(db.get_setting("theme").as_deref(), Some("light"));
    assert_eq!(db.get_all_settings().len(), 2);
    db.delete_setting("theme");
    assert!(db.get_setting("theme").is_none());
    assert_eq!(db.get_setting("lang").as_deref(), Some("en"));
}

#[test]
fn wrapped_identifiers_are_fresh_and_distinct() {
    // through the uuid-drawing path: two creates get distinct identifiers
    let mut db = Database::new(DeletionPolicy::Soft);
    let a = Conversation::create(&mut db, new_conv("A")).expect("create");
    let b = Conversation::create(&mut db, new_conv("B")).expect("create");
    assert_ne!(a.id, b.id);
    assert_eq!(a.id.len(), 36);
    assert!(Conversation::get_by_id(&db, &a.id).is_some());
    assert!(Conversation::get_by_id(&db, &b.id).is_some());
}

#[test]
fn message_delete_follows_policy() {
    // soft: the row stays but is invisible to reads; hard: the row goes
    for policy in [DeletionPolicy::Soft, DeletionPolicy::Hard] {
        let mut db = Database::new(policy);
        add_conv(&mut db, "c1", "First", 1);
        add_msg(&mut db, "m1", "c1", "user", "kept words", 10);
        add_msg(&mut db, "m2", "c1", "user", "dropped words", 20);
        Message::delete(&mut db, "m2");
        let left = Message::get_by_conversation(&db, "c1");
        assert_eq!(left.len(), 1);
        assert_eq!(left[0].id, "m1");
        assert_eq!(Message::search(&db, "dropped", -1).len(), 0);
        assert_eq!(Message::search(&db, "kept", -1).len(), 1);
        assert_eq!(Message::get_conversation_token_count(&db, "c1"), 0);
        // deleting an unknown id is a silent no-op
        Message::delete(&mut db, "nope");
        assert_eq!(Message::get_by_conversation(&db, "c1").len(), 1);
    }
}
