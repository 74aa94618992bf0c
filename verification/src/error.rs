//! The faults of the handshake, and the diagnostic that each one prints.

use vstd::prelude::*;

verus! {

/// Why a handshake, or a use of the ready value, failed. None of them is
/// recovered from: the host ends with the fault's message.
#[derive(Debug, PartialEq, Eq)]
pub enum HandshakeError {
    /// The executable could not be started.
    SpawnFailure,
    /// A line began with the sentinel and what followed was not a port.
    /// `line` is that line as it was read.
    HandshakeParseFailure { line: String },
    /// The child closed its output before any sentinel line. `collected` is
    /// all that it printed.
    HandshakeEof { collected: String },
    /// The ready value was written a second time.
    DoubleInitialization,
    /// The ready value was asked for before the handshake completed.
    UseBeforeReady,
}

/// A fault as a plain value.
pub enum ErrorView {
    SpawnFailure,
    HandshakeParseFailure { line: Seq<char> },
    HandshakeEof { collected: Seq<char> },
    DoubleInitialization,
    UseBeforeReady,
}

impl View for HandshakeError {
    type V = ErrorView;

    open spec fn view(&self) -> ErrorView {
        match *self {
            HandshakeError::SpawnFailure => ErrorView::SpawnFailure,
            HandshakeError::HandshakeParseFailure { line } => ErrorView::HandshakeParseFailure {
                line: line@,
            },
            HandshakeError::HandshakeEof { collected } => ErrorView::HandshakeEof {
                collected: collected@,
            },
            HandshakeError::DoubleInitialization => ErrorView::DoubleInitialization,
            HandshakeError::UseBeforeReady => ErrorView::UseBeforeReady,
        }
    }
}

/// Whether `needle` occurs in `hay` as a run of adjacent characters.
pub open spec fn contains(hay: Seq<char>, needle: Seq<char>) -> bool {
    exists|i: int|
        0 <= i && i + needle.len() <= hay.len() && #[trigger] hay.subrange(
            i,
            i + needle.len(),
        ) == needle
}

/// The diagnostic of a fault.
pub open spec fn message_of(e: ErrorView) -> Seq<char> {
    match e {
        ErrorView::SpawnFailure => "failed to spawn server"@,
        ErrorView::HandshakeParseFailure { line } => "invalid port: "@ + line,
        ErrorView::HandshakeEof { collected } => "server did not emit PORT=N. Output: "@
            + collected,
        ErrorView::DoubleInitialization => "port already set"@,
        ErrorView::UseBeforeReady => "server not started"@,
    }
}

impl HandshakeError {
    /// A second copy of the fault.
    pub fn duplicate(&self) -> (r: HandshakeError)
        ensures
            r@ == self@,
    {
        match self {
            HandshakeError::SpawnFailure => HandshakeError::SpawnFailure,
            HandshakeError::HandshakeParseFailure { line } => HandshakeError::HandshakeParseFailure {
                line: line.clone(),
            },
            HandshakeError::HandshakeEof { collected } => HandshakeError::HandshakeEof {
                collected: collected.clone(),
            },
            HandshakeError::DoubleInitialization => HandshakeError::DoubleInitialization,
            HandshakeError::UseBeforeReady => HandshakeError::UseBeforeReady,
        }
    }

    /// The diagnostic that the host ends with.
    pub fn message(&self) -> (r: String)
        ensures
            r@ == message_of(self@),
    {
        match self {
            HandshakeError::SpawnFailure => String::from_str("failed to spawn server"),
            HandshakeError::HandshakeParseFailure { line } => String::from_str(
                "invalid port: ",
            ).concat(line.as_str()),
            HandshakeError::HandshakeEof { collected } => String::from_str(
                "server did not emit PORT=N. Output: ",
            ).concat(collected.as_str()),
            HandshakeError::DoubleInitialization => String::from_str("port already set"),
            HandshakeError::UseBeforeReady => String::from_str("server not started"),
        }
    }
}

/// A text occurs in whatever is put in front of it and behind it.
pub proof fn lemma_contains_in_context(before: Seq<char>, needle: Seq<char>, after: Seq<char>)
    ensures
        contains(before + needle + after, needle),
{
    let hay = before + needle + after;
    let i = before.len() as int;
    assert(hay.subrange(i, i + needle.len()) =~= needle);
}

/// What occurs in a part of a text occurs in the text.
pub proof fn lemma_contains_in_part(hay: Seq<char>, from: int, to: int, needle: Seq<char>)
    requires
        0 <= from <= to <= hay.len(),
        contains(hay.subrange(from, to), needle),
    ensures
        contains(hay, needle),
{
    let part = hay.subrange(from, to);
    let i = choose|i: int|
        0 <= i && i + needle.len() <= part.len() && #[trigger] part.subrange(i, i + needle.len())
            == needle;
    assert(hay.subrange(from + i, from + i + needle.len()) =~= part.subrange(
        i,
        i + needle.len(),
    ));
}

/// The diagnostic of a parse failure holds the offending line word for
/// word, and so whatever that line holds.
pub proof fn lemma_parse_failure_names_line(line: Seq<char>, needle: Seq<char>)
    requires
        contains(line, needle),
    ensures
        contains(message_of(ErrorView::HandshakeParseFailure { line }), line),
        contains(message_of(ErrorView::HandshakeParseFailure { line }), needle),
{
    let head = "invalid port: "@;
    let text = message_of(ErrorView::HandshakeParseFailure { line });
    assert(text =~= head + line + Seq::<char>::empty());
    lemma_contains_in_context(head, line, Seq::<char>::empty());
    assert(text.subrange(head.len() as int, text.len() as int) =~= line);
    lemma_contains_in_part(text, head.len() as int, text.len() as int, needle);
}

/// The diagnostic of a premature end of the output holds all that was
/// collected, and so whatever the collected output holds.
pub proof fn lemma_eof_names_output(collected: Seq<char>, needle: Seq<char>)
    requires
        contains(collected, needle),
    ensures
        contains(message_of(ErrorView::HandshakeEof { collected }), collected),
        contains(message_of(ErrorView::HandshakeEof { collected }), needle),
{
    let head = "server did not emit PORT=N. Output: "@;
    let text = message_of(ErrorView::HandshakeEof { collected });
    assert(text =~= head + collected + Seq::<char>::empty());
    lemma_contains_in_context(head, collected, Seq::<char>::empty());
    assert(text.subrange(head.len() as int, text.len() as int) =~= collected);
    lemma_contains_in_part(text, head.len() as int, text.len() as int, needle);
}

} // verus!
