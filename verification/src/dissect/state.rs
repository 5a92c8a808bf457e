//! Per-worker dissection state: everything a dissector may carry from one
//! frame to the next.
//!
//! One `State` belongs to one dissection worker and is never shared, so the
//! tables inside need no locking. A frame dissected with a fresh `State` sees
//! no history, so the result is determined by the frame alone.

use vstd::prelude::*;

use super::reassembly::{nothing_pending, Reassembly, ReassemblyView};
use super::stream::desegment::HeldView;
use super::stream::table::{empty_table, TableView};
use super::stream::{Desegment, StreamTable};

verus! {

#[derive(Debug)]
pub struct State {
    /// IPv4 fragments awaiting the rest of their datagram.
    pub reassembly: Reassembly,
    /// Conversation ids, and the per-conversation analysis state.
    pub streams: StreamTable,
    /// Bytes of an incomplete PDU, waiting for the rest of the stream.
    pub desegment: Desegment,
}

/// What the worker remembers.
#[verifier::ext_equal]
pub struct StateView {
    pub reassembly: ReassemblyView,
    pub streams: TableView,
    pub desegment: Seq<HeldView>,
}

impl View for State {
    type V = StateView;

    open spec fn view(&self) -> StateView {
        StateView {
            reassembly: self.reassembly@,
            streams: self.streams@,
            desegment: self.desegment@,
        }
    }
}

/// No history.
pub open spec fn no_memory() -> StateView {
    StateView {
        reassembly: nothing_pending(),
        streams: empty_table(),
        desegment: Seq::empty(),
    }
}

impl Default for State {
    fn default() -> (r: State)
        ensures
            r@ == no_memory(),
    {
        State::new()
    }
}

impl State {
    pub fn new() -> (r: State)
        ensures
            r@ == no_memory(),
    {
        State {
            reassembly: Reassembly::new(),
            streams: StreamTable::new(),
            desegment: Desegment::new(),
        }
    }
}

} // verus!
