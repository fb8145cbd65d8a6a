use conic_terracotta::command::Command;
use conic_terracotta::context::{create_room_outcome, handle_command, CommandOutcome, ContextConfig, Emitter, EVENT_QUEUE_CAPACITY};
use conic_terracotta::event::Event;
use conic_terracotta::session::SessionStateId;

fn create() -> Emitter<(), ()> {
    Emitter::new(ContextConfig::with_data_dir("/tmp/conic-terracotta".to_string()))
}

#[test]
fn event_queue_bounded_and_droppable() {
    let mut ctx = create();
    for _ in 0..(EVENT_QUEUE_CAPACITY * 4) {
        ctx.emit(Event::Error {
            code: 0,
            message: "x".into(),
        });
    }
    assert!(ctx.dropped_count() > 0);

    let mut drained = 0;
    while ctx.poll_event().is_some() {
        drained += 1;
    }
    assert_eq!(drained, EVENT_QUEUE_CAPACITY);
}

#[test]
fn sequence_counts_every_emit() {
    let mut ctx = create();
    assert_eq!(ctx.next_sequence(), 1);
    for _ in 0..(EVENT_QUEUE_CAPACITY + 3) {
        ctx.emit(Event::Error { code: 0, message: "x".into() });
    }
    assert_eq!(ctx.next_sequence(), 1 + EVENT_QUEUE_CAPACITY as u64 + 3);
    assert_eq!(ctx.dropped_count(), 3);
}

#[test]
fn create_room_starts_the_host_flow() {
    let mut ctx = create();
    let outcome = handle_command(
        &mut ctx,
        Command::CreateRoom { player_name: Some("p".into()), room_code: None, public_nodes: vec![] },
    );
    match outcome {
        CommandOutcome::RunHost(start) => {
            assert_eq!(start.token, 1);
            assert_eq!(start.player_name.as_deref(), Some("p"));
            assert!(start.room.code.starts_with("U/"));
        }
        _ => panic!("expected the host flow"),
    }
    assert_eq!(ctx.session.state, SessionStateId::HostScanning);
    match ctx.poll_event() {
        Some(Event::StateChanged { state, version }) => {
            assert_eq!(state, SessionStateId::HostScanning);
            assert_eq!(version, 1);
        }
        other => panic!("unexpected {:?}", other),
    }
}

#[test]
fn busy_and_invalid_commands_report_errors() {
    let mut ctx = create();
    let outcome = handle_command(
        &mut ctx,
        Command::JoinRoom { room_code: "nope".into(), player_name: None, public_nodes: vec![] },
    );
    assert!(matches!(outcome, CommandOutcome::Continue));
    match ctx.poll_event() {
        Some(Event::Error { code, message }) => {
            assert_eq!(code, 1);
            assert_eq!(message, "invalid room code: nope");
        }
        other => panic!("unexpected {:?}", other),
    }
    let outcome = handle_command(
        &mut ctx,
        Command::CreateRoom { player_name: None, room_code: Some("bad".into()), public_nodes: vec![] },
    );
    assert!(matches!(outcome, CommandOutcome::Continue));
    match ctx.poll_event() {
        Some(Event::Error { code, message }) => {
            assert_eq!(code, 1);
            assert_eq!(message, "invalid room code: Some(\"bad\")");
        }
        other => panic!("unexpected {:?}", other),
    }
    let _ = handle_command(
        &mut ctx,
        Command::CreateRoom { player_name: None, room_code: None, public_nodes: vec![] },
    );
    while ctx.poll_event().is_some() {}
    let code = conic_terracotta::room::Room::from_value(7).code;
    let outcome = handle_command(
        &mut ctx,
        Command::JoinRoom { room_code: code, player_name: None, public_nodes: vec![] },
    );
    assert!(matches!(outcome, CommandOutcome::Continue));
    match ctx.poll_event() {
        Some(Event::Error { code, message }) => {
            assert_eq!(code, 2);
            assert_eq!(message, "a session is already active");
        }
        other => panic!("unexpected {:?}", other),
    }
}

#[test]
fn set_waiting_invalidates_the_running_flow() {
    let mut ctx = create();
    let outcome = handle_command(
        &mut ctx,
        Command::CreateRoom { player_name: None, room_code: None, public_nodes: vec![] },
    );
    let token = match outcome {
        CommandOutcome::RunHost(start) => start.token,
        _ => panic!("expected the host flow"),
    };
    assert!(ctx.can_capture(token));
    let _ = handle_command(&mut ctx, Command::SetWaiting);
    assert_eq!(ctx.session.state, SessionStateId::Waiting);
    assert!(!ctx.can_capture(token));
    assert!(matches!(handle_command(&mut ctx, Command::Shutdown), CommandOutcome::Stop));
}

#[test]
fn create_room_outcome_follows_the_random_source() {
    let mut ctx = create();
    let outcome = create_room_outcome(&mut ctx, None, None, None, vec![]);
    assert!(matches!(outcome, CommandOutcome::RandomSourceFailed));
    assert_eq!(ctx.session.state, SessionStateId::Waiting);
    assert!(ctx.poll_event().is_none());

    let fresh = conic_terracotta::room::Room::from_value(14);
    let fresh_code = fresh.code.clone();
    let outcome = create_room_outcome(&mut ctx, Some(fresh), Some("p".into()), None, vec!["n".into()]);
    match outcome {
        CommandOutcome::RunHost(start) => {
            assert_eq!(start.token, 1);
            assert_eq!(start.room.code, fresh_code);
            assert_eq!(start.public_nodes, vec!["n".to_string()]);
        }
        _ => panic!("expected the host flow"),
    }
    assert_eq!(ctx.session.state, SessionStateId::HostScanning);
    assert!(matches!(
        ctx.poll_event(),
        Some(Event::StateChanged { state: SessionStateId::HostScanning, version: 1 })
    ));

    let given = conic_terracotta::room::Room::from_value(7);
    let outcome = create_room_outcome(
        &mut ctx,
        Some(conic_terracotta::room::Room::from_value(21)),
        None,
        Some(given.code.clone()),
        vec![],
    );
    assert!(matches!(outcome, CommandOutcome::Continue));
    match ctx.poll_event() {
        Some(Event::Error { code, message }) => {
            assert_eq!(code, 2);
            assert_eq!(message, "a session is already active");
        }
        other => panic!("unexpected {:?}", other),
    }
}

#[test]
fn each_event_keeps_its_own_sequence() {
    let mut ctx = create();
    ctx.emit(Event::Error { code: 0, message: "a".into() });
    ctx.emit(Event::Error { code: 0, message: "b".into() });
    let (first, n1) = ctx.poll_sequenced().expect("first");
    let (second, n2) = ctx.poll_sequenced().expect("second");
    assert!(matches!(first, Event::Error { ref message, .. } if message == "a"));
    assert!(matches!(second, Event::Error { ref message, .. } if message == "b"));
    assert_eq!((n1, n2), (1, 2));
    assert!(ctx.poll_sequenced().is_none());
    ctx.emit(Event::Error { code: 0, message: "c".into() });
    let (_, n3) = ctx.poll_sequenced().expect("third");
    assert_eq!(n3, 3);
}
