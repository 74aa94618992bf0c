//! The value that the handshake yields, and the cell that holds it for the
//! rest of the host's life.

use vstd::prelude::*;
use crate::error::{ErrorView, HandshakeError};

verus! {

/// The port that the child announced: a number from 1 to 65535.
#[derive(Clone, Copy, Debug, PartialEq, Eq)]
pub struct ReadyValue {
    port: u16,
}

impl View for ReadyValue {
    type V = u16;

    closed spec fn view(&self) -> u16 {
        self.port
    }
}

impl ReadyValue {
    #[verifier::type_invariant]
    spec fn is_port(self) -> bool {
        self.port != 0
    }

    /// The ready value for `port`, which zero is not.
    pub fn new(port: u16) -> (r: Option<ReadyValue>)
        ensures
            port == 0 ==> r is None,
            port != 0 ==> r is Some && r->0@ == port,
    {
        if port == 0 {
            None
        } else {
            Some(ReadyValue { port })
        }
    }

    /// The port number.
    pub fn port(&self) -> (r: u16)
        ensures
            r == self@,
            1 <= r <= 65535,
    {
        proof {
            use_type_invariant(self);
        }
        self.port
    }
}

/// What a cell holds after `port` was offered to it: the first value wins.
pub open spec fn after_set(cell: Option<u16>, port: u16) -> Option<u16> {
    match cell {
        Some(_) => cell,
        None => Some(port),
    }
}

/// How a read of a cell ends: a read before the write is a fault.
pub open spec fn get_outcome(cell: Option<u16>) -> Result<u16, ErrorView> {
    match cell {
        Some(port) => Ok(port),
        None => Err(ErrorView::UseBeforeReady),
    }
}

/// The plain value of what a handshake or a read returned.
pub open spec fn outcome_view(r: Result<ReadyValue, HandshakeError>) -> Result<u16, ErrorView> {
    match r {
        Ok(value) => Ok(value@),
        Err(e) => Err(e@),
    }
}

/// A cell that is written once and read many times afterwards.
#[derive(Debug)]
pub struct ReadyCell {
    slot: Option<ReadyValue>,
}

impl View for ReadyCell {
    type V = Option<u16>;

    closed spec fn view(&self) -> Option<u16> {
        match self.slot {
            Some(value) => Some(value@),
            None => None,
        }
    }
}

impl ReadyCell {
    /// An empty cell.
    pub fn new() -> (r: ReadyCell)
        ensures
            r@ is None,
    {
        ReadyCell { slot: None }
    }

    /// Whether the cell was written.
    pub fn is_set(&self) -> (r: bool)
        ensures
            r == (self@ is Some),
    {
        self.slot.is_some()
    }

    /// Writes `value` into an empty cell. A cell that was written keeps what
    /// it holds and reports the second write.
    pub fn set(&mut self, value: ReadyValue) -> (r: Result<(), HandshakeError>)
        ensures
            final(self)@ == after_set(old(self)@, value@),
            r is Ok <==> old(self)@ is None,
            r matches Err(e) ==> e@ == ErrorView::DoubleInitialization,
    {
        if self.slot.is_some() {
            Err(HandshakeError::DoubleInitialization)
        } else {
            self.slot = Some(value);
            Ok(())
        }
    }

    /// Reads the cell, which it leaves as it is. A read of an empty cell is
    /// reported.
    pub fn get(&self) -> (r: Result<ReadyValue, HandshakeError>)
        ensures
            outcome_view(r) == get_outcome(self@),
    {
        match self.slot {
            Some(value) => Ok(value),
            None => Err(HandshakeError::UseBeforeReady),
        }
    }
}

/// What a cell holds after `ports` were offered to it, in order.
pub open spec fn after_sets(cell: Option<u16>, ports: Seq<u16>) -> Option<u16>
    decreases ports.len(),
{
    if ports.len() == 0 {
        cell
    } else {
        after_set(after_sets(cell, ports.drop_last()), ports.last())
    }
}

/// A read before the first write is a fault; the first write is what a read
/// returns afterwards.
pub proof fn lemma_read_follows_first_write(port: u16)
    ensures
        get_outcome(None) == Err::<u16, ErrorView>(ErrorView::UseBeforeReady),
        get_outcome(after_set(None, port)) == Ok::<u16, ErrorView>(port),
{
}

/// A cell that was written keeps its value, whatever is offered to it
/// later and however often: every read returns the value of the first
/// write.
pub proof fn lemma_written_cell_keeps_value(port: u16, later: Seq<u16>)
    ensures
        after_sets(Some(port), later) == Some(port),
        get_outcome(after_sets(Some(port), later)) == Ok::<u16, ErrorView>(port),
    decreases later.len(),
{
    if later.len() > 0 {
        lemma_written_cell_keeps_value(port, later.drop_last());
    }
}

} // verus!
