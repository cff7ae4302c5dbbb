//! The recorder: takes key events, counts the combos that they end.

use vstd::prelude::*;
use crate::db::{combo_plan, insert_keys_to_db, written, KeyRecord, Record, StoreError};
use crate::key::{is_terminator, step, step_snapshots, terminator_text, Aggregator, KeyEvent, Transition};

verus! {

/// What taking one event came to.
pub struct StepReport {
    /// The result of the upsert, where the event ended a gesture.
    pub upsert: Option<Result<KeyRecord, StoreError>>,
    /// Whether the event asks the recorder to stop.
    pub terminate: bool,
}

/// Whether the transition is the release of the key that ends the recording.
pub open spec fn ends_recording(t: Transition) -> bool {
    t == Transition::Up(terminator_text())
}

/// Takes one event. A release that ends a gesture has its combo counted in the
/// store before the key leaves the held keys; a store failure is kept in the
/// report and does not stop the recorder. The release of the terminator key asks
/// the recorder to stop, after its combo was counted.
pub fn run(agg: &mut Aggregator, conn: &rusqlite::Connection, event: KeyEvent) -> (r: StepReport)
    requires
        old(agg).wf(),
    ensures
        final(agg).wf(),
        final(agg)@ == step(old(agg)@, event@),
        r.upsert.is_some() <==> step_snapshots(old(agg)@, event@).len() == 1,
        match r.upsert {
            Some(Ok(record)) => exists|found: Option<Record>| #[trigger]
                written(combo_plan(found, old(agg)@.held)) == Some(record@),
            _ => true,
        },
        r.terminate == ends_recording(event@),
{
    match event {
        KeyEvent::Down(token) => {
            agg.on_key_down(token);
            StepReport { upsert: None, terminate: false }
        },
        KeyEvent::Up(token) => {
            let upsert = match agg.pending() {
                Some(snapshot) => Some(insert_keys_to_db(conn, &snapshot)),
                None => None,
            };
            agg.release(token.as_str());
            StepReport { upsert: upsert, terminate: is_terminator(token.as_str()) }
        },
    }
}

} // verus!
