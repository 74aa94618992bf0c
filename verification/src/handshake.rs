//! The handshake as a state machine: the host starts the child and reads
//! its output, and tells the machine what happened; the machine says what
//! to do next.

use vstd::prelude::*;
use crate::error::{ErrorView, HandshakeError};
use crate::ready::ReadyValue;
use crate::sentinel::{classify_line, reading_of, Reading};

verus! {

/// Where a launch stands. `Ready` and `Fatal` are final: nothing leads out
/// of them.
#[derive(Debug, PartialEq, Eq)]
pub enum Handshake {
    /// The child was not started yet.
    NotStarted,
    /// The child runs; its output is not read yet.
    Spawned,
    /// The host reads the child's output line by line. `collected` holds
    /// the lines read so far, none of which is a sentinel line.
    AwaitingSentinel { collected: String },
    /// The child announced `value`. What it prints from now on is drained
    /// in the background.
    Ready { value: ReadyValue },
    /// The handshake failed for good.
    Fatal { error: HandshakeError },
}

/// What the host reports to the machine.
#[derive(Debug, PartialEq, Eq)]
pub enum Event {
    /// The child was started.
    SpawnSucceeded,
    /// The child could not be started.
    SpawnFailed,
    /// The host holds the child's output stream.
    OutputCaptured,
    /// The child printed this line.
    Line(String),
    /// The child closed its output.
    EndOfStream,
}

/// What the machine asks of the host.
#[derive(Debug, PartialEq, Eq)]
pub enum Action {
    /// Take the child's output stream; its error stream stays the host's
    /// own.
    CaptureOutput,
    /// Read the next line of the child's output.
    ReadLine,
    /// The child is ready. Store the value, then hand the output stream and
    /// the child to the background task that drains them, then return the
    /// value.
    HandOff(ReadyValue),
    /// Drop what was read and go on draining.
    Discard,
    /// The output is at its end: wait for the child to exit.
    Reap,
    /// End the host with the fault's diagnostic.
    Abort(HandshakeError),
    /// The event has no meaning where the launch stands: do nothing.
    Ignore,
}

/// A state as a plain value.
pub enum StateView {
    NotStarted,
    Spawned,
    AwaitingSentinel { collected: Seq<char> },
    Ready { port: u16 },
    Fatal { error: ErrorView },
}

/// An event as a plain value.
pub enum EventView {
    SpawnSucceeded,
    SpawnFailed,
    OutputCaptured,
    Line(Seq<char>),
    EndOfStream,
}

/// An action as a plain value.
pub enum ActionView {
    CaptureOutput,
    ReadLine,
    HandOff(u16),
    Discard,
    Reap,
    Abort(ErrorView),
    Ignore,
}

impl View for Handshake {
    type V = StateView;

    open spec fn view(&self) -> StateView {
        match *self {
            Handshake::NotStarted => StateView::NotStarted,
            Handshake::Spawned => StateView::Spawned,
            Handshake::AwaitingSentinel { collected } => StateView::AwaitingSentinel {
                collected: collected@,
            },
            Handshake::Ready { value } => StateView::Ready { port: value@ },
            Handshake::Fatal { error } => StateView::Fatal { error: error@ },
        }
    }
}

impl View for Event {
    type V = EventView;

    open spec fn view(&self) -> EventView {
        match *self {
            Event::SpawnSucceeded => EventView::SpawnSucceeded,
            Event::SpawnFailed => EventView::SpawnFailed,
            Event::OutputCaptured => EventView::OutputCaptured,
            Event::Line(line) => EventView::Line(line@),
            Event::EndOfStream => EventView::EndOfStream,
        }
    }
}

impl View for Action {
    type V = ActionView;

    open spec fn view(&self) -> ActionView {
        match *self {
            Action::CaptureOutput => ActionView::CaptureOutput,
            Action::ReadLine => ActionView::ReadLine,
            Action::HandOff(value) => ActionView::HandOff(value@),
            Action::Discard => ActionView::Discard,
            Action::Reap => ActionView::Reap,
            Action::Abort(error) => ActionView::Abort(error@),
            Action::Ignore => ActionView::Ignore,
        }
    }
}

/// Where a launch stands after `event`.
pub open spec fn next_state(state: StateView, event: EventView) -> StateView {
    match (state, event) {
        (StateView::NotStarted, EventView::SpawnSucceeded) => StateView::Spawned,
        (StateView::NotStarted, EventView::SpawnFailed) => StateView::Fatal {
            error: ErrorView::SpawnFailure,
        },
        (StateView::Spawned, EventView::OutputCaptured) => StateView::AwaitingSentinel {
            collected: Seq::empty(),
        },
        (StateView::AwaitingSentinel { collected }, EventView::Line(line)) => match reading_of(
            line,
        ) {
            Reading::Other => StateView::AwaitingSentinel { collected: collected + line },
            Reading::Port(port) => StateView::Ready { port },
            Reading::Malformed => StateView::Fatal {
                error: ErrorView::HandshakeParseFailure { line },
            },
        },
        (StateView::AwaitingSentinel { collected }, EventView::EndOfStream) => StateView::Fatal {
            error: ErrorView::HandshakeEof { collected },
        },
        _ => state,
    }
}

/// What the host is to do after `event`: the step into a final state hands
/// the value off or aborts with the fault, and a failed launch answers
/// every later event with the same fault.
pub open spec fn action_for(state: StateView, event: EventView) -> ActionView {
    match (state, event) {
        (StateView::NotStarted, EventView::SpawnSucceeded) => ActionView::CaptureOutput,
        (StateView::NotStarted, EventView::SpawnFailed) => ActionView::Abort(
            ErrorView::SpawnFailure,
        ),
        (StateView::Spawned, EventView::OutputCaptured) => ActionView::ReadLine,
        (StateView::AwaitingSentinel { .. }, EventView::Line(line)) => match reading_of(line) {
            Reading::Other => ActionView::ReadLine,
            Reading::Port(port) => ActionView::HandOff(port),
            Reading::Malformed => ActionView::Abort(ErrorView::HandshakeParseFailure { line }),
        },
        (StateView::AwaitingSentinel { collected }, EventView::EndOfStream) => ActionView::Abort(
            ErrorView::HandshakeEof { collected },
        ),
        (StateView::Ready { .. }, EventView::Line(_)) => ActionView::Discard,
        (StateView::Ready { .. }, EventView::EndOfStream) => ActionView::Reap,
        (StateView::Fatal { error }, _) => ActionView::Abort(error),
        _ => ActionView::Ignore,
    }
}

impl Handshake {
    /// A launch that has not begun.
    pub fn new() -> (r: Handshake)
        ensures
            r@ == StateView::NotStarted,
    {
        Handshake::NotStarted
    }

    /// The ready value, once the child has announced it.
    pub fn ready_value(&self) -> (r: Option<ReadyValue>)
        ensures
            match self@ {
                StateView::Ready { port } => r is Some && r->0@ == port,
                _ => r is None,
            },
    {
        match self {
            Handshake::Ready { value } => Some(*value),
            _ => None,
        }
    }

    /// Takes `event` in: returns where the launch stands now and what the
    /// host is to do.
    pub fn step(self, event: Event) -> (r: (Handshake, Action))
        ensures
            r.0@ == next_state(self@, event@),
            r.1@ == action_for(self@, event@),
    {
        match self {
            Handshake::NotStarted => match event {
                Event::SpawnSucceeded => (Handshake::Spawned, Action::CaptureOutput),
                Event::SpawnFailed => (
                    Handshake::Fatal { error: HandshakeError::SpawnFailure },
                    Action::Abort(HandshakeError::SpawnFailure),
                ),
                _ => (Handshake::NotStarted, Action::Ignore),
            },
            Handshake::Spawned => match event {
                Event::OutputCaptured => (
                    Handshake::AwaitingSentinel { collected: String::new() },
                    Action::ReadLine,
                ),
                _ => (Handshake::Spawned, Action::Ignore),
            },
            Handshake::AwaitingSentinel { collected } => match event {
                Event::Line(line) => match classify_line(line.as_str()) {
                    Reading::Other => {
                        let mut collected = collected;
                        collected.append(line.as_str());
                        (Handshake::AwaitingSentinel { collected }, Action::ReadLine)
                    },
                    Reading::Port(port) => {
                        let value = ReadyValue::new(port).unwrap();
                        (Handshake::Ready { value }, Action::HandOff(value))
                    },
                    Reading::Malformed => {
                        let error = HandshakeError::HandshakeParseFailure { line };
                        let fault = error.duplicate();
                        (Handshake::Fatal { error }, Action::Abort(fault))
                    },
                },
                Event::EndOfStream => {
                    let error = HandshakeError::HandshakeEof { collected };
                    let fault = error.duplicate();
                    (Handshake::Fatal { error }, Action::Abort(fault))
                },
                _ => (Handshake::AwaitingSentinel { collected }, Action::Ignore),
            },
            Handshake::Ready { value } => match event {
                Event::Line(_) => (Handshake::Ready { value }, Action::Discard),
                Event::EndOfStream => (Handshake::Ready { value }, Action::Reap),
                _ => (Handshake::Ready { value }, Action::Ignore),
            },
            Handshake::Fatal { error } => {
                let fault = error.duplicate();
                (Handshake::Fatal { error }, Action::Abort(fault))
            },
        }
    }
}

/// Where a launch that stood at `state` stands after `events`, taken in
/// order.
pub open spec fn feed(state: StateView, events: Seq<EventView>) -> StateView
    decreases events.len(),
{
    if events.len() == 0 {
        state
    } else {
        next_state(feed(state, events.drop_last()), events.last())
    }
}

/// Whether nothing leads out of `state`.
pub open spec fn is_final(state: StateView) -> bool {
    state is Ready || state is Fatal
}

/// How the foreground handshake ended, once it has: the port, or the fault.
pub open spec fn verdict(state: StateView) -> Option<Result<u16, ErrorView>> {
    match state {
        StateView::Ready { port } => Some(Ok(port)),
        StateView::Fatal { error } => Some(Err(error)),
        _ => None,
    }
}

/// Taking two runs of events in, one after the other, is taking in the one
/// run that they make.
pub proof fn lemma_feed_concat(state: StateView, first: Seq<EventView>, then: Seq<EventView>)
    ensures
        feed(state, first + then) == feed(feed(state, first), then),
    decreases then.len(),
{
    if then.len() == 0 {
        assert(first + then =~= first);
    } else {
        assert((first + then).drop_last() =~= first + then.drop_last());
        lemma_feed_concat(state, first, then.drop_last());
    }
}

/// A final state stays what it is, whatever comes and however much of it:
/// a failed handshake stays failed, and a ready one stays ready.
pub proof fn lemma_final_state_stays(state: StateView, events: Seq<EventView>)
    requires
        is_final(state),
    ensures
        feed(state, events) == state,
    decreases events.len(),
{
    if events.len() > 0 {
        lemma_final_state_stays(state, events.drop_last());
    }
}

/// Once the child is ready, the output that is drained afterwards never
/// alters the ready value, however much of it there is, and none of it is
/// a reason to hand off again or to abort.
pub proof fn lemma_ready_value_is_stable(port: u16, events: Seq<EventView>, event: EventView)
    ensures
        feed(StateView::Ready { port }, events) == (StateView::Ready { port }),
        verdict(feed(StateView::Ready { port }, events)) == Some(Ok::<u16, ErrorView>(port)),
        action_for(feed(StateView::Ready { port }, events), event) is Discard || action_for(
            feed(StateView::Ready { port }, events),
            event,
        ) is Reap || action_for(feed(StateView::Ready { port }, events), event) is Ignore,
{
    lemma_final_state_stays(StateView::Ready { port }, events);
}

/// The host is told to hand off exactly on the step into `Ready`, with the
/// value of that state, and to abort exactly where the launch has failed,
/// with the fault of that state.
pub proof fn lemma_action_follows_state(state: StateView, event: EventView)
    ensures
        action_for(state, event) matches ActionView::HandOff(port) ==> !is_final(state)
            && next_state(state, event) == (StateView::Ready { port }),
        action_for(state, event) matches ActionView::Abort(error) ==> next_state(state, event)
            == (StateView::Fatal { error }),
        !(state is Ready) && next_state(state, event) is Ready ==> action_for(
            state,
            event,
        ) is HandOff,
        next_state(state, event) is Fatal ==> action_for(state, event) is Abort,
{
}

/// Whether the port of `state`, where it is ready, is a number from 1 to
/// 65535.
pub open spec fn ready_port_is_valid(state: StateView) -> bool {
    state matches StateView::Ready { port } ==> 1 <= port <= 65535
}

/// A launch never becomes ready with anything but a port from 1 to 65535.
pub proof fn lemma_ready_port_is_valid(state: StateView, events: Seq<EventView>)
    requires
        ready_port_is_valid(state),
    ensures
        ready_port_is_valid(feed(state, events)),
    decreases events.len(),
{
    if events.len() > 0 {
        lemma_ready_port_is_valid(state, events.drop_last());
    }
}

} // verus!
