//! The handshake on a whole text: what a started child printed before it
//! closed its output.

use vstd::prelude::*;
use crate::error::{ErrorView, HandshakeError};
use crate::handshake::{
    feed, is_final, lemma_feed_concat, lemma_final_state_stays, next_state, verdict, Event,
    EventView, Handshake, StateView,
};
use crate::ready::{outcome_view, ReadyValue};
use crate::sentinel::{
    decimal, is_sentinel_line, lemma_announced_port_reads, reading_of, sentinel, Reading,
};
use crate::text::{all_white_space, chars_of};

verus! {

/// Whether `line` is closed by a line feed.
pub open spec fn ends_line(line: Seq<char>) -> bool {
    line.len() > 0 && line.last() == '\n'
}

/// The lines of `text`, each with the line feed that closes it; the last
/// one may lack it. A character continues the line before it unless that
/// line is closed.
pub open spec fn lines_of(text: Seq<char>) -> Seq<Seq<char>>
    decreases text.len(),
{
    if text.len() == 0 {
        Seq::empty()
    } else {
        let before = lines_of(text.drop_last());
        if before.len() > 0 && !ends_line(before.last()) {
            before.drop_last().push(before.last().push(text.last()))
        } else {
            before.push(seq![text.last()])
        }
    }
}

/// The events that the host reports for `lines`, one for each.
pub open spec fn line_events(lines: Seq<Seq<char>>) -> Seq<EventView> {
    Seq::new(lines.len(), |i: int| EventView::Line(lines[i]))
}

/// What the host reports of a child that starts and prints `text`.
pub open spec fn heard(text: Seq<char>) -> Seq<EventView> {
    seq![EventView::SpawnSucceeded, EventView::OutputCaptured] + line_events(lines_of(text))
}

/// What the host reports of a child that starts, prints `output` and closes
/// its output.
pub open spec fn transcript(output: Seq<char>) -> Seq<EventView> {
    heard(output).push(EventView::EndOfStream)
}

/// The last line of a text ends where the text ends.
pub proof fn lemma_last_line(text: Seq<char>)
    requires
        text.len() > 0,
    ensures
        lines_of(text).len() > 0,
        lines_of(text).last().len() > 0,
        lines_of(text).last().last() == text.last(),
{
}

/// A text without a line feed, or with one at its very end only, is one
/// line.
pub proof fn lemma_one_line(line: Seq<char>)
    requires
        line.len() > 0,
        forall|j: int| 0 <= j < line.len() - 1 ==> line[j] != '\n',
    ensures
        lines_of(line) == seq![line],
    decreases line.len(),
{
    let head = line.drop_last();
    if head.len() == 0 {
        assert(lines_of(head) =~= Seq::<Seq<char>>::empty());
        assert(seq![line.last()] =~= line);
        assert(lines_of(line) =~= seq![line]);
    } else {
        lemma_one_line(head);
        assert(head.last() == line[line.len() - 2]);
        assert(head.push(line.last()) =~= line);
        assert(lines_of(line) =~= seq![line]);
    }
}

/// Behind a closed line the lines begin afresh: the lines of two texts put
/// together are the lines of the first and then those of the second, where
/// the first is empty or ends with a line feed.
pub proof fn lemma_lines_of_concat(first: Seq<char>, then: Seq<char>)
    requires
        first.len() == 0 || first.last() == '\n',
    ensures
        lines_of(first + then) == lines_of(first) + lines_of(then),
    decreases then.len(),
{
    if then.len() == 0 {
        assert(first + then =~= first);
        assert(lines_of(first) + lines_of(then) =~= lines_of(first));
    } else {
        let whole = first + then;
        let head = then.drop_last();
        assert(whole.drop_last() =~= first + head);
        assert(whole.last() == then.last());
        lemma_lines_of_concat(first, head);
        if first.len() > 0 {
            lemma_last_line(first);
        }
        if head.len() > 0 {
            lemma_last_line(head);
        }
        assert(lines_of(whole) =~= lines_of(first) + lines_of(then));
    }
}

/// The line events of two runs of lines, one after the other.
pub proof fn lemma_line_events_concat(first: Seq<Seq<char>>, then: Seq<Seq<char>>)
    ensures
        line_events(first + then) == line_events(first) + line_events(then),
{
    assert(line_events(first + then) =~= line_events(first) + line_events(then));
}

/// Whether none of `lines` is a sentinel line.
pub open spec fn no_sentinel(lines: Seq<Seq<char>>) -> bool {
    forall|i: int| 0 <= i < lines.len() ==> !is_sentinel_line(#[trigger] lines[i])
}

/// How the handshake ends on a sentinel line: with the port that it
/// announces, or with the line as the fault.
pub open spec fn sentinel_verdict(line: Seq<char>) -> Result<u16, ErrorView> {
    match reading_of(line) {
        Reading::Port(port) => Ok(port),
        _ => Err(ErrorView::HandshakeParseFailure { line }),
    }
}

/// The lines of a text, put together again, are the text.
pub proof fn lemma_lines_join(text: Seq<char>)
    ensures
        lines_of(text).flatten() == text,
    decreases text.len(),
{
    if text.len() == 0 {
        assert(lines_of(text).flatten() =~= text);
    } else {
        let head = text.drop_last();
        let before = lines_of(head);
        lemma_lines_join(head);
        if before.len() > 0 && !ends_line(before.last()) {
            let open_line = before.last();
            assert(before =~= before.drop_last().push(open_line));
            before.drop_last().lemma_flatten_push(open_line);
            before.drop_last().lemma_flatten_push(open_line.push(text.last()));
            assert(lines_of(text).flatten() =~= head.push(text.last()));
        } else {
            before.lemma_flatten_push(seq![text.last()]);
            assert(lines_of(text).flatten() =~= head.push(text.last()));
        }
        assert(head.push(text.last()) =~= text);
    }
}

/// No line of a text is empty, a line feed stands nowhere in a line but at
/// its end, and every line but the last has one there.
pub proof fn lemma_lines_shape(text: Seq<char>)
    ensures
        forall|i: int| 0 <= i < lines_of(text).len() ==> (#[trigger] lines_of(text)[i]).len() > 0,
        forall|i: int, j: int|
            0 <= i < lines_of(text).len() && 0 <= j < lines_of(text)[i].len() - 1
                ==> #[trigger] lines_of(text)[i][j] != '\n',
        forall|i: int|
            0 <= i < lines_of(text).len() - 1 ==> ends_line(#[trigger] lines_of(text)[i]),
    decreases text.len(),
{
    if text.len() > 0 {
        let head = text.drop_last();
        let before = lines_of(head);
        let lines = lines_of(text);
        lemma_lines_shape(head);
        if before.len() > 0 && !ends_line(before.last()) {
            let last = before.len() - 1;
            assert forall|i: int| 0 <= i < lines.len() implies (#[trigger] lines[i]).len()
                > 0 by {
                if i < last {
                    assert(lines[i] == before[i]);
                }
            }
            assert forall|i: int, j: int|
                0 <= i < lines.len() && 0 <= j < lines[i].len() - 1 implies #[trigger] lines[i][j]
                != '\n' by {
                if i < last {
                    assert(lines[i] == before[i]);
                } else if j < before[last].len() - 1 {
                    assert(lines[i][j] == before[last][j]);
                } else {
                    assert(lines[i][j] == before[last].last());
                }
            }
            assert forall|i: int| 0 <= i < lines.len() - 1 implies ends_line(
                #[trigger] lines[i],
            ) by {
                assert(lines[i] == before[i]);
            }
        } else {
            assert forall|i: int| 0 <= i < lines.len() implies (#[trigger] lines[i]).len()
                > 0 by {
                if i < before.len() {
                    assert(lines[i] == before[i]);
                }
            }
            assert forall|i: int, j: int|
                0 <= i < lines.len() && 0 <= j < lines[i].len() - 1 implies #[trigger] lines[i][j]
                != '\n' by {
                if i < before.len() {
                    assert(lines[i] == before[i]);
                }
            }
            assert forall|i: int| 0 <= i < lines.len() - 1 implies ends_line(
                #[trigger] lines[i],
            ) by {
                assert(lines[i] == before[i]);
            }
        }
    }
}

/// A launch that has started stands at the wait for the sentinel, with
/// nothing collected.
pub proof fn lemma_opening()
    ensures
        feed(
            StateView::NotStarted,
            seq![EventView::SpawnSucceeded, EventView::OutputCaptured],
        ) == (StateView::AwaitingSentinel { collected: Seq::empty() }),
{
    let opening = seq![EventView::SpawnSucceeded, EventView::OutputCaptured];
    let spawned = seq![EventView::SpawnSucceeded];
    assert(spawned.drop_last() =~= Seq::<EventView>::empty());
    assert(feed(StateView::NotStarted, Seq::<EventView>::empty()) == StateView::NotStarted);
    assert(feed(StateView::NotStarted, spawned) == StateView::Spawned);
    assert(opening.drop_last() =~= spawned);
}

/// While no sentinel line comes, the wait goes on and collects every line
/// as it was read.
pub proof fn lemma_waiting_collects(collected: Seq<char>, lines: Seq<Seq<char>>)
    requires
        no_sentinel(lines),
    ensures
        feed(StateView::AwaitingSentinel { collected }, line_events(lines)) == (
        StateView::AwaitingSentinel { collected: collected + lines.flatten() }),
    decreases lines.len(),
{
    let start = StateView::AwaitingSentinel { collected };
    if lines.len() == 0 {
        assert(lines.flatten() =~= Seq::<char>::empty());
        assert(collected + lines.flatten() =~= collected);
    } else {
        let head = lines.drop_last();
        let line = lines.last();
        assert forall|i: int| 0 <= i < head.len() implies !is_sentinel_line(#[trigger] head[i]) by {
            assert(head[i] == lines[i]);
        }
        lemma_waiting_collects(collected, head);
        assert(line_events(lines).drop_last() =~= line_events(head));
        assert(line_events(lines).last() == EventView::Line(line));
        assert(!is_sentinel_line(line));
        assert(lines =~= head.push(line));
        head.lemma_flatten_push(line);
        assert(collected + head.flatten() + line =~= collected + lines.flatten());
    }
}

/// The first sentinel line decides the handshake: whatever was printed
/// before it, and whatever comes after it, the launch ends as that line
/// says.
pub proof fn lemma_first_sentinel_line_decides(
    collected: Seq<char>,
    before: Seq<Seq<char>>,
    line: Seq<char>,
    after: Seq<EventView>,
)
    requires
        no_sentinel(before),
        is_sentinel_line(line),
    ensures
        verdict(
            feed(
                StateView::AwaitingSentinel { collected },
                line_events(before) + seq![EventView::Line(line)] + after,
            ),
        ) == Some(sentinel_verdict(line)),
{
    let start = StateView::AwaitingSentinel { collected };
    let waited = line_events(before);
    let found = seq![EventView::Line(line)];
    lemma_waiting_collects(collected, before);
    lemma_feed_concat(start, waited + found, after);
    lemma_feed_concat(start, waited, found);
    assert(found.drop_last() =~= Seq::<EventView>::empty());
    assert(feed(feed(start, waited), Seq::<EventView>::empty()) == feed(start, waited));
    lemma_final_state_stays(feed(start, waited + found), after);
}

/// Where a line of the output is a sentinel line and no line before it is
/// one, the handshake on that output ends as this line says.
pub proof fn lemma_output_verdict(output: Seq<char>, k: int)
    requires
        0 <= k < lines_of(output).len(),
        no_sentinel(lines_of(output).take(k)),
        is_sentinel_line(lines_of(output)[k]),
    ensures
        verdict(feed(StateView::NotStarted, transcript(output))) == Some(
            sentinel_verdict(lines_of(output)[k]),
        ),
{
    let lines = lines_of(output);
    let opening = seq![EventView::SpawnSucceeded, EventView::OutputCaptured];
    let before = lines.take(k);
    let found = seq![EventView::Line(lines[k])];
    let after = line_events(lines.skip(k + 1)) + seq![EventView::EndOfStream];
    let rest = line_events(before) + found + after;
    assert(lines =~= before + seq![lines[k]] + lines.skip(k + 1));
    assert(transcript(output) =~= opening + rest);
    lemma_feed_concat(StateView::NotStarted, opening, rest);
    lemma_opening();
    lemma_first_sentinel_line_decides(Seq::empty(), before, lines[k], after);
}

/// Where no line of the output is a sentinel line, the handshake ends with
/// the premature end of the output as its fault, and the fault holds the
/// whole output.
pub proof fn lemma_silent_output_verdict(output: Seq<char>)
    requires
        no_sentinel(lines_of(output)),
    ensures
        verdict(feed(StateView::NotStarted, transcript(output))) == Some(
            Err::<u16, ErrorView>(ErrorView::HandshakeEof { collected: output }),
        ),
{
    let lines = lines_of(output);
    let opening = seq![EventView::SpawnSucceeded, EventView::OutputCaptured];
    let seen = opening + line_events(lines);
    let none = Seq::<char>::empty();
    assert(transcript(output).drop_last() =~= seen);
    lemma_feed_concat(StateView::NotStarted, opening, line_events(lines));
    lemma_opening();
    lemma_waiting_collects(none, lines);
    lemma_lines_join(output);
    assert(none + lines.flatten() =~= output);
}

/// Where the first sentinel line of the output is `PORT=` and a port from 1
/// to 65535 in base ten, with or without white space around it, the
/// handshake on that output yields exactly that port.
pub proof fn lemma_announced_port_is_returned(
    output: Seq<char>,
    k: int,
    lead: Seq<char>,
    port: u16,
    trail: Seq<char>,
)
    requires
        0 <= k < lines_of(output).len(),
        no_sentinel(lines_of(output).take(k)),
        lines_of(output)[k] == lead + sentinel() + decimal(port as nat) + trail,
        all_white_space(lead),
        all_white_space(trail),
        port >= 1,
    ensures
        verdict(feed(StateView::NotStarted, transcript(output))) == Some(
            Ok::<u16, ErrorView>(port),
        ),
{
    lemma_announced_port_reads(lead, port, trail);
    lemma_output_verdict(output, k);
}

/// Where a launch stands once the child has started and printed `text`.
pub open spec fn state_after(text: Seq<char>) -> StateView {
    feed(StateView::NotStarted, heard(text))
}

/// One more line read is one more event reported.
proof fn lemma_heard_next_line(done: Seq<char>, line: Seq<char>)
    requires
        done.len() == 0 || done.last() == '\n',
        line.len() > 0,
        forall|j: int| 0 <= j < line.len() - 1 ==> line[j] != '\n',
    ensures
        heard(done + line) == heard(done).push(EventView::Line(line)),
{
    lemma_one_line(line);
    lemma_lines_of_concat(done, line);
    lemma_line_events_concat(lines_of(done), seq![line]);
    assert(line_events(seq![line]) =~= seq![EventView::Line(line)]);
    assert(heard(done + line) =~= heard(done).push(EventView::Line(line)));
}

/// The line of `text` that begins at `start` and ends before `end` is the
/// next thing that the launch takes in after what stands before it.
proof fn lemma_line_reported(text: Seq<char>, start: int, end: int)
    requires
        0 <= start < end <= text.len(),
        start == 0 || text[start - 1] == '\n',
        forall|j: int| start <= j < end - 1 ==> text[j] != '\n',
    ensures
        state_after(text.take(end)) == next_state(
            state_after(text.take(start)),
            EventView::Line(text.subrange(start, end)),
        ),
{
    let done = text.take(start);
    let line = text.subrange(start, end);
    assert(text.take(end) =~= done + line);
    lemma_heard_next_line(done, line);
    assert(heard(done + line).drop_last() =~= heard(done));
}

/// Once the launch is final at the end of a line, what the child prints
/// afterwards and the end of its output change nothing.
proof fn lemma_decided_early(text: Seq<char>, end: int)
    requires
        0 < end <= text.len(),
        text[end - 1] == '\n',
        is_final(state_after(text.take(end))),
    ensures
        feed(StateView::NotStarted, transcript(text)) == state_after(text.take(end)),
{
    let done = text.take(end);
    let rest = text.skip(end);
    let more = line_events(lines_of(rest)).push(EventView::EndOfStream);
    assert(text =~= done + rest);
    lemma_lines_of_concat(done, rest);
    lemma_line_events_concat(lines_of(done), lines_of(rest));
    assert(transcript(text) =~= heard(done) + more);
    lemma_feed_concat(StateView::NotStarted, heard(done), more);
    lemma_final_state_stays(state_after(done), more);
}

/// The end of the output is the last thing that the launch takes in.
proof fn lemma_output_closed(text: Seq<char>)
    ensures
        feed(StateView::NotStarted, transcript(text)) == next_state(
            state_after(text),
            EventView::EndOfStream,
        ),
{
    assert(transcript(text).drop_last() =~= heard(text));
}

/// Nothing printed yet: the launch waits for the sentinel.
proof fn lemma_nothing_printed(text: Seq<char>)
    ensures
        state_after(text.take(0)) == (StateView::AwaitingSentinel { collected: Seq::empty() }),
{
    lemma_opening();
    assert(text.take(0) =~= Seq::<char>::empty());
    assert(heard(text.take(0)) =~= seq![EventView::SpawnSucceeded, EventView::OutputCaptured]);
}

/// Reports the line of `output` between two positions to the launch.
fn report_line(state: Handshake, output: &str, from: usize, to: usize) -> (next: Handshake)
    requires
        from <= to <= output@.len(),
    ensures
        next@ == next_state(state@, EventView::Line(output@.subrange(from as int, to as int))),
{
    let line = output.substring_char(from, to);
    let (next, _) = state.step(Event::Line(String::from_str(line)));
    next
}

/// Runs the handshake on all that a started child printed before it closed
/// its output. The first sentinel line decides: the port that it announces
/// is returned, or the line is the fault if what it announces is no port.
/// Without a sentinel line the fault is the premature end of the output,
/// and holds the whole output. This is where the state machine ends on the
/// events that the host reports of such a child.
pub fn await_ready(output: &str) -> (r: Result<ReadyValue, HandshakeError>)
    ensures
        verdict(feed(StateView::NotStarted, transcript(output@))) == Some(outcome_view(r)),
        no_sentinel(lines_of(output@)) ==> outcome_view(r) == Err::<u16, ErrorView>(
            ErrorView::HandshakeEof { collected: output@ },
        ),
        forall|k: int|
            0 <= k < lines_of(output@).len() && no_sentinel(lines_of(output@).take(k))
                && is_sentinel_line(#[trigger] lines_of(output@)[k]) ==> outcome_view(r)
                == sentinel_verdict(lines_of(output@)[k]),
{
    let r = run_machine(output);
    proof {
        if no_sentinel(lines_of(output@)) {
            lemma_silent_output_verdict(output@);
        }
        assert forall|k: int|
            0 <= k < lines_of(output@).len() && no_sentinel(lines_of(output@).take(k))
                && is_sentinel_line(#[trigger] lines_of(output@)[k]) implies outcome_view(r)
            == sentinel_verdict(lines_of(output@)[k]) by {
            lemma_output_verdict(output@, k);
        }
    }
    r
}

/// Reports what the child did to a new launch, event by event, until the
/// launch is final.
fn run_machine(output: &str) -> (r: Result<ReadyValue, HandshakeError>)
    ensures
        verdict(feed(StateView::NotStarted, transcript(output@))) == Some(outcome_view(r)),
{
    let chars = chars_of(output);
    let n = chars.len();
    let (state, _) = Handshake::new().step(Event::SpawnSucceeded);
    let (state, _) = state.step(Event::OutputCaptured);
    let mut state = state;
    proof {
        lemma_nothing_printed(output@);
    }
    let mut start: usize = 0;
    let mut i: usize = 0;
    while i < n
        invariant
            start <= i <= n,
            n == chars@.len(),
            chars@ == output@,
            start == 0 || output@[start - 1] == '\n',
            forall|j: int| start <= j < i ==> output@[j] != '\n',
            state@ == state_after(output@.take(start as int)),
            state@ is AwaitingSentinel,
        decreases n - i,
    {
        if chars[i] == '\n' {
            let next = report_line(state, output, start, i + 1);
            proof {
                lemma_line_reported(output@, start as int, i + 1);
                if is_final(next@) {
                    lemma_decided_early(output@, i + 1);
                }
            }
            match next {
                Handshake::Ready { value } => {
                    return Ok(value);
                },
                Handshake::Fatal { error } => {
                    return Err(error);
                },
                other => {
                    state = other;
                },
            }
            start = i + 1;
        }
        i += 1;
    }
    if start < n {
        state = report_line(state, output, start, n);
        proof {
            lemma_line_reported(output@, start as int, n as int);
        }
    }
    assert(output@.take(n as int) =~= output@);
    let (last, _) = state.step(Event::EndOfStream);
    proof {
        lemma_output_closed(output@);
    }
    match last {
        Handshake::Ready { value } => Ok(value),
        Handshake::Fatal { error } => Err(error),
        _ => vstd::pervasive::unreached(),
    }
}

} // verus!
