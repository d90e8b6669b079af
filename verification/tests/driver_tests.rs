use chat_ledger::driver::{Driver, DriverAction, DriverEvent, DriverMode, DriverState};
use chat_ledger::ledger::ChatMessages;
use chat_ledger::listeners::{MemoryListener, QuotaListener};
use chat_ledger::turn::{ChatGptMessage, Role};

fn msg(role: Role, content: &str) -> ChatGptMessage {
    ChatGptMessage::new(role, String::from(content))
}

#[test]
fn reply_commits_the_last_choice() {
    let mut driver = Driver::new(DriverMode::Interactive);
    let mut ledger: ChatMessages<MemoryListener> = ChatMessages::new();

    let act = driver
        .step(&mut ledger, DriverEvent::Line(String::from("pick one")))
        .unwrap();
    assert!(matches!(act, DriverAction::Complete));

    let choices = vec![
        msg(Role::Assistant, "A"),
        msg(Role::Assistant, "B"),
        msg(Role::Assistant, "C"),
    ];
    let act = driver
        .step(&mut ledger, DriverEvent::Reply(choices))
        .unwrap();
    match act {
        DriverAction::Show(shown) => assert_eq!(shown, "C"),
        _ => panic!("expected the reply to be shown"),
    }
    let h = ledger.history();
    assert_eq!(h.len(), 2);
    assert_eq!(h[1].role, Role::Assistant);
    assert_eq!(h[1].content, "C");
}

#[test]
fn batch_round_trip_prints_the_reply() {
    let mut driver = Driver::new(DriverMode::Batch);
    let mut ledger: ChatMessages<MemoryListener> = ChatMessages::new();

    let act = driver
        .step(&mut ledger, DriverEvent::Line(String::from("Hello")))
        .unwrap();
    assert!(matches!(act, DriverAction::Complete));

    let act = driver
        .step(
            &mut ledger,
            DriverEvent::Reply(vec![msg(Role::Assistant, "Hi there")]),
        )
        .unwrap();
    match act {
        DriverAction::Emit(printed) => assert_eq!(printed, "Hi there"),
        _ => panic!("expected the batch reply to be printed"),
    }
    assert!(driver.done());

    let h = ledger.history();
    assert_eq!(h.len(), 2);
    assert_eq!(h[0].role, Role::User);
    assert_eq!(h[0].content, "Hello");
    assert_eq!(h[1].role, Role::Assistant);
    assert_eq!(h[1].content, "Hi there");
}

#[test]
fn end_of_input_with_no_lines_closes_cleanly() {
    let mut driver = Driver::new(DriverMode::Interactive);
    let mut ledger: ChatMessages<MemoryListener> = ChatMessages::new();

    let act = driver.step(&mut ledger, DriverEvent::EndOfInput).unwrap();
    // no completion-port call is requested and nothing was committed
    assert!(matches!(act, DriverAction::Finish));
    assert!(driver.done());
    assert_eq!(ledger.history().len(), 0);
}

#[test]
fn interactive_loop_keeps_alternating() {
    let mut driver = Driver::new(DriverMode::Interactive);
    let mut ledger: ChatMessages<MemoryListener> = ChatMessages::new();
    ledger.register(MemoryListener::new());

    for round in 0..3u32 {
        let act = driver
            .step(&mut ledger, DriverEvent::Line(format!("question {}", round)))
            .unwrap();
        assert!(matches!(act, DriverAction::Complete));
        assert_eq!(driver.state, DriverState::AwaitingReply);
        let act = driver
            .step(
                &mut ledger,
                DriverEvent::Reply(vec![msg(Role::Assistant, "answer")]),
            )
            .unwrap();
        assert!(matches!(act, DriverAction::Show(_)));
        assert_eq!(driver.state, DriverState::WaitingForInput);
    }
    let act = driver.step(&mut ledger, DriverEvent::EndOfInput).unwrap();
    assert!(matches!(act, DriverAction::Finish));
    assert_eq!(ledger.history().len(), 6);
    assert_eq!(ledger.listeners()[0].turns().len(), 6);
}

#[test]
fn push_failure_aborts_without_committing() {
    let mut driver = Driver::new(DriverMode::Interactive);
    let mut ledger: ChatMessages<QuotaListener> = ChatMessages::new();
    ledger.register(QuotaListener::new(0));

    let err = driver
        .step(&mut ledger, DriverEvent::Line(String::from("doomed")))
        .unwrap_err();
    assert_eq!(err.detail, "listener quota exhausted");
    assert_eq!(ledger.history().len(), 0);
    assert_eq!(driver.state, DriverState::WaitingForInput);
}
