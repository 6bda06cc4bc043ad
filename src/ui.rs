//! Events pushed to the presentation layer.

use vstd::prelude::*;

verus! {

/// One event for the UI: its name and its JSON payload.
pub struct UiEvent {
    pub event: String,
    pub payload: String,
}

/// The event to push, if the UI surface is up; pushing to a surface that is
/// not there yet does nothing.
pub fn send_event(surface_ready: bool, event: &str, json: &str) -> (r: Option<UiEvent>)
    ensures
        r is Some <==> surface_ready,
        r matches Some(e) ==> e.event@ == event@ && e.payload@ == json@,
{
    if surface_ready {
        Some(UiEvent { event: event.to_owned(), payload: json.to_owned() })
    } else {
        None
    }
}

} // verus!
