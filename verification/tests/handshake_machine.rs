use port_handshake::error::HandshakeError;
use port_handshake::handshake::{Action, Event, Handshake};
use port_handshake::ready::ReadyValue;

fn line(text: &str) -> Event {
    Event::Line(text.to_string())
}

fn waiting() -> Handshake {
    let (state, _) = Handshake::new().step(Event::SpawnSucceeded);
    let (state, _) = state.step(Event::OutputCaptured);
    state
}

fn ready(port: u16) -> Handshake {
    Handshake::Ready { value: ReadyValue::new(port).unwrap() }
}

#[test]
fn a_launch_begins_not_started() {
    assert_eq!(Handshake::new(), Handshake::NotStarted);
    assert_eq!(Handshake::new().ready_value(), None);
}

#[test]
fn spawn_then_capture_then_wait() {
    let (state, action) = Handshake::new().step(Event::SpawnSucceeded);
    assert_eq!(state, Handshake::Spawned);
    assert_eq!(action, Action::CaptureOutput);
    let (state, action) = state.step(Event::OutputCaptured);
    assert_eq!(state, Handshake::AwaitingSentinel { collected: String::new() });
    assert_eq!(action, Action::ReadLine);
}

#[test]
fn spawn_failure_is_fatal() {
    let (state, action) = Handshake::new().step(Event::SpawnFailed);
    assert_eq!(state, Handshake::Fatal { error: HandshakeError::SpawnFailure });
    assert_eq!(action, Action::Abort(HandshakeError::SpawnFailure));
}

#[test]
fn other_lines_are_collected_as_read() {
    let (state, action) = waiting().step(line("hello\n"));
    assert_eq!(action, Action::ReadLine);
    assert_eq!(state, Handshake::AwaitingSentinel { collected: "hello\n".to_string() });
    let (state, action) = state.step(line("  world \r\n"));
    assert_eq!(action, Action::ReadLine);
    assert_eq!(state, Handshake::AwaitingSentinel { collected: "hello\n  world \r\n".to_string() });
    assert_eq!(state.ready_value(), None);
}

#[test]
fn sentinel_line_hands_off() {
    let (state, action) = waiting().step(line("PORT=4321\n"));
    assert_eq!(action, Action::HandOff(ReadyValue::new(4321).unwrap()));
    assert_eq!(state, ready(4321));
    assert_eq!(state.ready_value().map(|v| v.port()), Some(4321));
}

#[test]
fn sentinel_line_after_noise_hands_off() {
    let (state, _) = waiting().step(line("noise\n"));
    let (state, action) = state.step(line("PORT=4321\n"));
    assert_eq!(action, Action::HandOff(ReadyValue::new(4321).unwrap()));
    assert_eq!(state, ready(4321));
}

#[test]
fn port_abc_fails_with_parse_failure_naming_the_line() {
    let (state, action) = waiting().step(line("PORT=abc"));
    assert_eq!(
        action,
        Action::Abort(HandshakeError::HandshakeParseFailure { line: "PORT=abc".to_string() })
    );
    match state {
        Handshake::Fatal { error } => {
            assert_eq!(error, HandshakeError::HandshakeParseFailure { line: "PORT=abc".to_string() });
            assert!(error.message().contains("PORT=abc"));
        }
        other => panic!("not fatal: {:?}", other),
    }
}

#[test]
fn port_70000_fails_with_parse_failure() {
    let (state, action) = waiting().step(line("PORT=70000"));
    assert_eq!(
        action,
        Action::Abort(HandshakeError::HandshakeParseFailure { line: "PORT=70000".to_string() })
    );
    assert_eq!(
        state,
        Handshake::Fatal { error: HandshakeError::HandshakeParseFailure { line: "PORT=70000".to_string() } }
    );
}

#[test]
fn parse_failure_keeps_the_line_verbatim() {
    let (state, _) = waiting().step(line("  PORT= 12x \r\n"));
    assert_eq!(
        state,
        Handshake::Fatal {
            error: HandshakeError::HandshakeParseFailure { line: "  PORT= 12x \r\n".to_string() }
        }
    );
}

#[test]
fn end_of_stream_without_sentinel_is_fatal_with_all_output() {
    let (state, _) = waiting().step(line("hello\n"));
    let (state, _) = state.step(line("world\n"));
    let (state, action) = state.step(Event::EndOfStream);
    match &action {
        Action::Abort(error) => {
            assert_eq!(*error, HandshakeError::HandshakeEof { collected: "hello\nworld\n".to_string() });
            assert!(error.message().contains("hello"));
            assert!(error.message().contains("world"));
        }
        other => panic!("no abort: {:?}", other),
    }
    match state {
        Handshake::Fatal { error } => {
            assert_eq!(error, HandshakeError::HandshakeEof { collected: "hello\nworld\n".to_string() });
            let text = error.message();
            assert!(text.contains("hello"));
            assert!(text.contains("world"));
        }
        other => panic!("not fatal: {:?}", other),
    }
}

#[test]
fn end_of_stream_at_once_is_fatal_with_nothing_collected() {
    let (state, action) = waiting().step(Event::EndOfStream);
    assert_eq!(action, Action::Abort(HandshakeError::HandshakeEof { collected: String::new() }));
    assert_eq!(state, Handshake::Fatal { error: HandshakeError::HandshakeEof { collected: String::new() } });
}

#[test]
fn output_after_readiness_is_discarded() {
    let (state, _) = waiting().step(line("noise\n"));
    let (state, _) = state.step(line("PORT=4321\n"));
    let (state, action) = state.step(line("more noise\n"));
    assert_eq!(action, Action::Discard);
    assert_eq!(state, ready(4321));
    let (state, action) = state.step(line("PORT=9\n"));
    assert_eq!(action, Action::Discard);
    assert_eq!(state, ready(4321));
    let (state, action) = state.step(line("PORT=abc\n"));
    assert_eq!(action, Action::Discard);
    assert_eq!(state, ready(4321));
}

#[test]
fn draining_any_volume_never_alters_the_ready_value() {
    let (mut state, _) = waiting().step(line("PORT=4321\n"));
    for i in 0..20000u32 {
        let text = match i % 4 {
            0 => format!("PORT={}\n", i % 70000),
            1 => "PORT=oops\n".to_string(),
            2 => String::new(),
            _ => format!("line {}\n", i),
        };
        let (next, action) = state.step(Event::Line(text));
        assert_eq!(action, Action::Discard);
        assert_eq!(next.ready_value().map(|v| v.port()), Some(4321));
        state = next;
    }
    assert_eq!(state, ready(4321));
}

#[test]
fn end_of_stream_after_readiness_reaps_the_child() {
    let (state, action) = ready(4321).step(Event::EndOfStream);
    assert_eq!(action, Action::Reap);
    assert_eq!(state, ready(4321));
    let (state, action) = state.step(Event::EndOfStream);
    assert_eq!(action, Action::Reap);
    assert_eq!(state, ready(4321));
}

#[test]
fn ready_is_final() {
    for event in [Event::SpawnSucceeded, Event::SpawnFailed, Event::OutputCaptured] {
        let (state, action) = ready(80).step(event);
        assert_eq!(action, Action::Ignore);
        assert_eq!(state, ready(80));
    }
}

#[test]
fn fatal_is_final() {
    let events = [
        Event::SpawnSucceeded,
        Event::SpawnFailed,
        Event::OutputCaptured,
        Event::Line("PORT=80\n".to_string()),
        Event::EndOfStream,
    ];
    for event in events {
        let (state, action) = Handshake::Fatal { error: HandshakeError::SpawnFailure }.step(event);
        assert_eq!(action, Action::Abort(HandshakeError::SpawnFailure));
        assert_eq!(state, Handshake::Fatal { error: HandshakeError::SpawnFailure });
    }
    let (state, _) = waiting().step(Event::Line("PORT=abc".to_string()));
    let (state, action) = state.step(Event::Line("PORT=80".to_string()));
    assert_eq!(
        action,
        Action::Abort(HandshakeError::HandshakeParseFailure { line: "PORT=abc".to_string() })
    );
    assert_eq!(
        state,
        Handshake::Fatal { error: HandshakeError::HandshakeParseFailure { line: "PORT=abc".to_string() } }
    );
}

#[test]
fn events_out_of_place_are_ignored() {
    for event in [Event::OutputCaptured, Event::Line("PORT=80".to_string()), Event::EndOfStream] {
        let (state, action) = Handshake::new().step(event);
        assert_eq!(action, Action::Ignore);
        assert_eq!(state, Handshake::NotStarted);
    }
    for event in [
        Event::SpawnSucceeded,
        Event::SpawnFailed,
        Event::Line("PORT=80".to_string()),
        Event::EndOfStream,
    ] {
        let (state, action) = Handshake::Spawned.step(event);
        assert_eq!(action, Action::Ignore);
        assert_eq!(state, Handshake::Spawned);
    }
    for event in [Event::SpawnSucceeded, Event::SpawnFailed, Event::OutputCaptured] {
        let (state, action) = Handshake::AwaitingSentinel { collected: "x\n".to_string() }.step(event);
        assert_eq!(action, Action::Ignore);
        assert_eq!(state, Handshake::AwaitingSentinel { collected: "x\n".to_string() });
    }
}

#[test]
fn duplicate_of_a_fault_is_equal_to_it() {
    let faults = [
        HandshakeError::SpawnFailure,
        HandshakeError::HandshakeParseFailure { line: "PORT=abc\n".to_string() },
        HandshakeError::HandshakeEof { collected: "hello\nworld\n".to_string() },
        HandshakeError::DoubleInitialization,
        HandshakeError::UseBeforeReady,
    ];
    for fault in faults {
        assert_eq!(fault.duplicate(), fault);
    }
}
