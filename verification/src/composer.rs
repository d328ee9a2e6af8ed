//! Two stages in a row: live text goes straight to the caller, everything else goes through the
//! calibration first.

use vstd::prelude::*;
use vstd::string::*;

use crate::types::{VadParagraph, VadSentence};

verus! {

/// What the first stage reports.
pub enum WindowEvent {
    /// Live text of the segment being spoken.
    Interim { window_id: u64, segment_id: u64, partial: String, at_us: i64 },
    /// The segments of the open window so far.
    Batch { window_id: u64, segments: Vec<VadSentence> },
    /// A window was closed.
    WindowEdge { window: VadParagraph },
}

/// What the caller is told.
pub enum TurnEvent {
    /// Live text, as it came.
    Interim { window_id: u64, segment_id: u64, partial: String, at_us: i64 },
    /// The open window, calibrated; in place of the one before.
    WindowCalibrated { window_id: u64, calibrated: String, route_us: u64 },
    /// A closed window, calibrated for good.
    WindowFinal { window: VadParagraph, calibrated: String, route_us: u64 },
}

/// Where an event goes.
pub enum Route {
    /// To the caller.
    Caller(TurnEvent),
    /// To the calibration.
    Calibration(WindowEvent),
}

/// Live text never waits for a calibration.
pub fn route(ev: WindowEvent) -> (r: Route)
    ensures
        match ev {
            WindowEvent::Interim { window_id, segment_id, partial, at_us } => r == Route::Caller(
                TurnEvent::Interim { window_id, segment_id, partial, at_us },
            ),
            _ => r == Route::Calibration(ev),
        },
{
    match ev {
        WindowEvent::Interim { window_id, segment_id, partial, at_us } => Route::Caller(
            TurnEvent::Interim { window_id, segment_id, partial, at_us },
        ),
        other => Route::Calibration(other),
    }
}

/// The calibration of an event is there.
pub fn conclude(ev: WindowEvent, calibrated: String, route_us: u64) -> (r: Option<TurnEvent>)
    ensures
        r == match ev {
            WindowEvent::Batch { window_id, segments } => Some(
                TurnEvent::WindowCalibrated { window_id, calibrated, route_us },
            ),
            WindowEvent::WindowEdge { window } => Some(
                TurnEvent::WindowFinal { window, calibrated, route_us },
            ),
            _ => None,
        },
{
    match ev {
        WindowEvent::Batch { window_id, segments: _ } => Some(
            TurnEvent::WindowCalibrated { window_id, calibrated, route_us },
        ),
        WindowEvent::WindowEdge { window } => Some(
            TurnEvent::WindowFinal { window, calibrated, route_us },
        ),
        _ => None,
    }
}

/// Law: live text goes to the caller as it is, and everything else to the calibration, as it is.
pub proof fn law_live_text_never_waits(ev: WindowEvent, r: Route)
    requires
        call_ensures(route, (ev,), r),
    ensures
        r is Caller <==> ev is Interim,
        ev matches WindowEvent::Interim { window_id, segment_id, partial, at_us } ==> r
            == Route::Caller(TurnEvent::Interim { window_id, segment_id, partial, at_us }),
        !(ev is Interim) ==> r == Route::Calibration(ev),
{
}

/// Law: a calibration is told for the window it is about: on the way for an open one, for good for
/// a closed one, with the text the model gave.
pub proof fn law_a_calibration_is_told_for_its_window(
    ev: WindowEvent,
    calibrated: String,
    route_us: u64,
    r: Option<TurnEvent>,
)
    requires
        call_ensures(conclude, (ev, calibrated, route_us), r),
    ensures
        ev is Interim <==> r is None,
        ev matches WindowEvent::Batch { window_id, .. } ==> r == Some(
            TurnEvent::WindowCalibrated { window_id, calibrated, route_us },
        ),
        ev matches WindowEvent::WindowEdge { window } ==> r == Some(
            TurnEvent::WindowFinal { window, calibrated, route_us },
        ),
{
}

} // verus!
