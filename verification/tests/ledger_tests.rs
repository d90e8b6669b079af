use chat_ledger::ledger::ChatMessages;
use chat_ledger::listeners::{MemoryListener, QuotaListener, SessionBufferListener};
use chat_ledger::turn::{ChatGptMessage, Role};

fn msg(role: Role, content: &str) -> ChatGptMessage {
    ChatGptMessage::new(role, String::from(content))
}

#[test]
fn history_is_exactly_the_pushed_sequence() {
    let mut ledger: ChatMessages<MemoryListener> = ChatMessages::new();
    assert_eq!(ledger.history().len(), 0);
    ledger.push(msg(Role::System, "be brief")).unwrap();
    ledger.push(msg(Role::User, "hi")).unwrap();
    ledger.push(msg(Role::Assistant, "hello")).unwrap();
    let h = ledger.history();
    assert_eq!(h.len(), 3);
    assert_eq!(h[0].role, Role::System);
    assert_eq!(h[0].content, "be brief");
    assert_eq!(h[1].role, Role::User);
    assert_eq!(h[1].content, "hi");
    assert_eq!(h[2].role, Role::Assistant);
    assert_eq!(h[2].content, "hello");
}

#[test]
fn every_listener_sees_every_turn_in_order() {
    let mut ledger: ChatMessages<MemoryListener> = ChatMessages::new();
    ledger.register(MemoryListener::new());
    ledger.register(MemoryListener::new());
    ledger.push(msg(Role::User, "one")).unwrap();
    ledger.push(msg(Role::Assistant, "two")).unwrap();
    for listener in ledger.listeners().iter() {
        let seen = listener.turns();
        assert_eq!(seen.len(), 2);
        assert_eq!(seen[0].content, "one");
        assert_eq!(seen[1].content, "two");
    }
}

#[test]
fn failing_listener_keeps_history_and_later_listeners_untouched() {
    let mut ledger: ChatMessages<QuotaListener> = ChatMessages::new();
    ledger.register(QuotaListener::new(1));
    ledger.register(QuotaListener::new(10));
    ledger.push(msg(Role::User, "first")).unwrap();
    assert_eq!(ledger.history().len(), 1);

    let err = ledger.push(msg(Role::User, "second")).unwrap_err();
    assert_eq!(err.detail, "listener quota exhausted");
    // the failing turn was not committed
    assert_eq!(ledger.history().len(), 1);
    assert_eq!(ledger.history()[0].content, "first");
    // the earlier listener refused it; the later one was never invoked
    assert_eq!(ledger.listeners()[0].turns().len(), 1);
    assert_eq!(ledger.listeners()[1].turns().len(), 1);
    assert_eq!(ledger.listeners()[1].turns()[0].content, "first");
}

#[test]
fn push_with_no_listeners_succeeds() {
    let mut ledger: ChatMessages<MemoryListener> = ChatMessages::new();
    ledger.push(msg(Role::User, "alone")).unwrap();
    assert_eq!(ledger.history().len(), 1);
}

#[test]
fn session_log_round_trip_through_sink_and_loader() {
    let mut ledger: ChatMessages<SessionBufferListener> = ChatMessages::new();
    ledger.register(SessionBufferListener::new());
    let turns = [
        msg(Role::System, "be brief"),
        msg(Role::User, "say \"hi\"\nplease"),
        msg(Role::Assistant, "h\u{e9}! \u{2603}\t\u{1}"),
    ];
    for t in turns.iter() {
        ledger.push(t.clone()).unwrap();
    }
    let lines = ledger.listeners()[0].lines().clone();
    assert_eq!(lines.len(), 3);

    let reloaded: ChatMessages<SessionBufferListener> =
        ChatMessages::from_file(&lines).unwrap();
    let h = reloaded.history();
    assert_eq!(h.len(), 3);
    for (got, want) in h.iter().zip(turns.iter()) {
        assert_eq!(got.role, want.role);
        assert_eq!(got.content, want.content);
    }
}

#[test]
fn from_file_of_nothing_is_empty() {
    let lines: Vec<String> = Vec::new();
    let ledger: ChatMessages<MemoryListener> = ChatMessages::from_file(&lines).unwrap();
    assert_eq!(ledger.history().len(), 0);
}

#[test]
fn from_file_skips_empty_lines() {
    let lines = vec![
        String::new(),
        String::from("{\"role\":\"user\",\"content\":\"hi\"}"),
        String::new(),
    ];
    let ledger: ChatMessages<MemoryListener> = ChatMessages::from_file(&lines).unwrap();
    assert_eq!(ledger.history().len(), 1);
    assert_eq!(ledger.history()[0].content, "hi");
}

#[test]
fn from_file_fails_on_unknown_role_line() {
    let lines = vec![
        String::from("{\"role\":\"user\",\"content\":\"hi\"}"),
        String::from("{\"role\":\"oracle\",\"content\":\"hm\"}"),
    ];
    let err = ChatMessages::<MemoryListener>::from_file(&lines).unwrap_err();
    assert_eq!(err.line, 1);
}

#[test]
fn from_file_fails_on_garbage_line() {
    let lines = vec![String::from("not json at all")];
    let err = ChatMessages::<MemoryListener>::from_file(&lines).unwrap_err();
    assert_eq!(err.line, 0);
}

#[test]
fn from_file_reports_first_bad_line() {
    let lines = vec![
        String::from("{\"role\":\"user\",\"content\":\"ok\"}"),
        String::from("broken"),
        String::from("also broken"),
    ];
    let err = ChatMessages::<MemoryListener>::from_file(&lines).unwrap_err();
    assert_eq!(err.line, 1);
}
