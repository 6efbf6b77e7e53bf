use ixgateway::session_store::{assistant_message, is_timed_out, make_session_title, user_message, Message, Part, SessionStore};

fn msg(id: &str, role: &str, content: &str, at: i64) -> Message {
    Message { id: id.to_string(), role: role.to_string(), content: content.to_string(), created_at_ms: at, parts: vec![] }
}

#[test]
fn created_session_is_found_and_listed_for_its_tenant() {
    let mut store = SessionStore::New();
    let s = store.CreateSession("acme".to_string(), "ix_key".to_string(), "qwen".to_string());
    assert!(s.title.starts_with("Session "));
    assert_eq!(s.title.chars().count(), "Session ".len() + 8);
    let got = store.GetSession(&s.id).unwrap();
    assert_eq!(got.tenant, "acme");
    assert_eq!(got.agent_endpoint, "qwen");
    assert_eq!(store.ListSessionsForTenant("acme").len(), 1);
    assert!(store.ListSessionsForTenant("other").is_empty());
    let t = store.CreateSession("acme".to_string(), "k".to_string(), "m".to_string());
    assert_ne!(s.id, t.id);
    assert_eq!(store.ListSessionsForTenant("acme").len(), 2);
}

#[test]
fn messages_are_mirrored_and_paged() {
    let mut store = SessionStore::New();
    let s = store.CreateSession("t".to_string(), "k".to_string(), "m".to_string());
    for i in 0..5 {
        let added = store.AddMessage(&s.id, msg(&format!("m{i}"), "user", &format!("hello {i}"), 1000 + i));
        assert!(added.is_some());
    }
    assert!(store.AddMessage("missing", msg("x", "user", "x", 0)).is_none());
    let page = store.GetMessages(&s.id, 2);
    let ids: Vec<&str> = page.iter().map(|m| m.id.as_str()).collect();
    assert_eq!(ids, vec!["m3", "m4"]);
    assert_eq!(store.GetMessages(&s.id, 0).len(), 5);
    assert_eq!(store.GetMessages(&s.id, 50).len(), 5);
    assert!(store.GetMessages("missing", 5).is_empty());
    let got = store.GetSession(&s.id).unwrap();
    assert_eq!(got.model_messages.len(), 5);
}

#[test]
fn compaction_rewrites_model_context_only() {
    let mut store = SessionStore::New();
    let s = store.CreateSession("t".to_string(), "k".to_string(), "m".to_string());
    store.AddMessage(&s.id, msg("a", "user", "q1", 1));
    store.AddMessage(&s.id, msg("b", "assistant", "a1", 2));
    store.AddMessage(&s.id, msg("c", "user", "q2", 3));
    store.UpdateTokens(&s.id, 1234);
    store.ReplaceModelMessagesWithSummary(&s.id, "summary".to_string(), vec![msg("c", "user", "q2", 3)]);
    store.AppendCompactionMarker(&s.id, "summary".to_string());
    let got = store.GetSession(&s.id).unwrap();
    assert_eq!(got.messages.len(), 4);
    assert_eq!(got.model_messages.len(), 2);
    assert_eq!(got.model_messages[0].role, "system");
    assert_eq!(got.model_messages[0].content, "summary");
    assert_eq!(got.last_prompt_tokens, 0);
    let last = got.messages.last().unwrap();
    assert_eq!(last.role, "compaction");
    assert!(matches!(&last.parts[0], Part::Compaction { summary } if summary == "summary"));
}

#[test]
fn removed_message_leaves_both_lists() {
    let mut store = SessionStore::New();
    let s = store.CreateSession("t".to_string(), "k".to_string(), "m".to_string());
    store.AddMessage(&s.id, msg("a", "user", "q", 1));
    store.AddMessage(&s.id, msg("b", "user", "r", 2));
    store.RemoveMessageById(&s.id, "a");
    let got = store.GetSession(&s.id).unwrap();
    assert_eq!(got.messages.len(), 1);
    assert_eq!(got.messages[0].id, "b");
    assert_eq!(got.model_messages.len(), 1);
}

#[test]
fn sessions_time_out_after_ten_whole_minutes() {
    assert!(!is_timed_out(0, 10 * 60_000));
    assert!(!is_timed_out(0, 11 * 60_000 - 1));
    assert!(is_timed_out(0, 11 * 60_000));
    let mut store = SessionStore::New();
    let s = store.CreateSession("t".to_string(), "k".to_string(), "m".to_string());
    store.AddMessage(&s.id, msg("a", "user", "q", 0));
    assert!(!store.CheckAndDeleteIfTimedOut(&s.id, 5 * 60_000));
    assert!(store.GetSession(&s.id).is_some());
    let removed = store.CleanupTimedOutSessions(60 * 60_000);
    assert_eq!(removed, vec![s.id.clone()]);
    assert!(store.GetSession(&s.id).is_none());
    assert!(!store.DeleteSession(&s.id));
}

#[test]
fn titles_use_the_first_eight_characters() {
    assert_eq!(make_session_title("0123456789abcdef"), "Session 01234567");
    assert_eq!(make_session_title("abc"), "Session abc");
}

#[test]
fn fresh_messages_carry_their_text_part() {
    let u = user_message("hi".to_string());
    assert_eq!(u.role, "user");
    assert!(matches!(&u.parts[0], Part::Text { text } if text == "hi"));
    let a = assistant_message("yo".to_string());
    assert_eq!(a.role, "assistant");
    assert_eq!(a.content, "yo");
    assert_ne!(u.id, a.id);
}

fn is_uuid_text(s: &str) -> bool {
    s.len() == 36
        && s.chars().enumerate().all(|(i, c)| {
            if i == 8 || i == 13 || i == 18 || i == 23 {
                c == '-'
            } else {
                c.is_ascii_digit() || ('a'..='f').contains(&c)
            }
        })
}

#[test]
fn fresh_ids_are_lower_case_hyphenated_uuids() {
    assert!(is_uuid_text(&user_message("a".to_string()).id));
    assert!(is_uuid_text(&assistant_message("b".to_string()).id));
    let mut store = SessionStore::New();
    let s = store.CreateSession("t".to_string(), "k".to_string(), "m".to_string());
    assert!(is_uuid_text(&s.id));
}
