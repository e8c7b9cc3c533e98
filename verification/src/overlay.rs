//! The decisions of the overlay window: which text it shows, which difficulty
//! values it shows, and how it follows the mouse while dragged.
//!
//! The scores of a computation are of a type `S` that the library only holds
//! and hands back; the rate travels as the bit pattern of its
//! single-precision value.
use vstd::prelude::*;
use vstd::string::*;
use crate::map::{QuaverMap, QuaverMapView};

verus! {

/// The difficulty values shown for a map: the map, the rate they were
/// computed at, and the scores.
pub struct ShownResults<S> {
    pub map: QuaverMap,
    pub rate_bits: u32,
    pub score: S,
}

/// `ShownResults` by views.
pub struct ShownResultsView<S> {
    pub map: QuaverMapView,
    pub rate_bits: u32,
    pub score: S,
}

impl<S> View for ShownResults<S> {
    type V = ShownResultsView<S>;

    open spec fn view(&self) -> ShownResultsView<S> {
        ShownResultsView { map: self.map@, rate_bits: self.rate_bits, score: self.score }
    }
}

/// What the overlay is told.
pub enum OverlayEvent<S> {
    /// Show this message.
    ChangeText(String),
    /// Difficulty values for a map were computed: show them.
    ResultsReady(ShownResults<S>),
    /// A mouse button went down; `left` says whether it was the left one.
    MousePressed { left: bool },
    /// A mouse button went up; `left` says whether it was the left one.
    MouseReleased { left: bool },
    /// The cursor moved.
    MouseMoved,
    /// The window was opened.
    WindowOpened,
}

/// What the window must do after an event.
#[derive(Clone, Copy, Debug, PartialEq, Eq)]
pub enum OverlayResponse {
    /// Nothing.
    Nothing,
    /// Move the window by half of the cursor's way since the cursor position
    /// last remembered.
    MoveWindow,
    /// Remember the cursor position.
    RememberCursor,
    /// Remember the window's id and position.
    RememberWindow,
}

/// The overlay's state: the message, whether it is shown in place of the
/// difficulty values, the values last computed, and whether the window is
/// being dragged.
pub struct OverlayStatus<S> {
    status_text: String,
    show_status: bool,
    results: Option<ShownResults<S>>,
    is_dragging: bool,
}

/// An `OverlayStatus` by views.
pub struct OverlayView<S> {
    pub status_text: Seq<char>,
    pub show_status: bool,
    pub results: Option<ShownResultsView<S>>,
    pub is_dragging: bool,
}

impl<S> View for OverlayStatus<S> {
    type V = OverlayView<S>;

    closed spec fn view(&self) -> OverlayView<S> {
        OverlayView {
            status_text: self.status_text@,
            show_status: self.show_status,
            results: match self.results {
                Some(r) => Some(r@),
                None => None,
            },
            is_dragging: self.is_dragging,
        }
    }
}

/// The overlay never shows difficulty values that were not computed: where
/// it does not show its message, it holds a map, a rate and scores.
pub open spec fn overlay_consistent<S>(v: OverlayView<S>) -> bool {
    v.show_status || v.results is Some
}

/// The state after an event and the response to it.
pub open spec fn overlay_step<S>(v: OverlayView<S>, e: OverlayEvent<S>) -> (
    OverlayView<S>,
    OverlayResponse,
) {
    match e {
        OverlayEvent::ChangeText(s) => (
            OverlayView { status_text: s@, show_status: true, ..v },
            OverlayResponse::Nothing,
        ),
        OverlayEvent::ResultsReady(r) => (
            OverlayView { show_status: false, results: Some(r@), ..v },
            OverlayResponse::Nothing,
        ),
        OverlayEvent::MousePressed { left } => if left {
            (OverlayView { is_dragging: true, ..v }, OverlayResponse::Nothing)
        } else {
            (v, OverlayResponse::Nothing)
        },
        OverlayEvent::MouseReleased { left } => if left {
            (OverlayView { is_dragging: false, ..v }, OverlayResponse::Nothing)
        } else {
            (v, OverlayResponse::Nothing)
        },
        OverlayEvent::MouseMoved => if v.is_dragging {
            (v, OverlayResponse::MoveWindow)
        } else {
            (v, OverlayResponse::RememberCursor)
        },
        OverlayEvent::WindowOpened => (v, OverlayResponse::RememberWindow),
    }
}

/// New results replace whatever the overlay held: after `ResultsReady(r)`
/// the overlay shows exactly the map, rate and scores of `r`.
pub proof fn lemma_newest_results_are_shown<S>(v: OverlayView<S>, r: ShownResults<S>)
    ensures
        ({
            let after = overlay_step(v, OverlayEvent::ResultsReady(r)).0;
            &&& !after.show_status
            &&& after.results is Some
            &&& after.results->0.map == r.map@
            &&& after.results->0.rate_bits == r.rate_bits
            &&& after.results->0.score == r.score
            &&& after.status_text == v.status_text
            &&& after.is_dragging == v.is_dragging
        }),
{
}

/// A message replaces the one shown and is shown; the results held and the
/// drag state stay as they were.
pub proof fn lemma_message_is_shown<S>(v: OverlayView<S>, text: String)
    ensures
        ({
            let (after, response) = overlay_step(v, OverlayEvent::ChangeText(text));
            &&& after.show_status
            &&& after.status_text == text@
            &&& after.results == v.results
            &&& after.is_dragging == v.is_dragging
            &&& response == OverlayResponse::Nothing
        }),
{
}

/// Mouse and window events change nothing but the drag state: pressing the
/// left button starts a drag, releasing it ends one, other buttons, cursor
/// moves and the window opening leave the state as it is.
pub proof fn lemma_pointer_events_touch_only_dragging<S>(v: OverlayView<S>, left: bool)
    ensures
        overlay_step(v, OverlayEvent::<S>::MouseMoved).0 == v,
        overlay_step(v, OverlayEvent::<S>::WindowOpened).0 == v,
        overlay_step(v, OverlayEvent::<S>::WindowOpened).1 == OverlayResponse::RememberWindow,
        overlay_step(v, OverlayEvent::<S>::MousePressed { left }).0 == (OverlayView {
            is_dragging: if left { true } else { v.is_dragging },
            ..v
        }),
        overlay_step(v, OverlayEvent::<S>::MouseReleased { left }).0 == (OverlayView {
            is_dragging: if left { false } else { v.is_dragging },
            ..v
        }),
        overlay_step(v, OverlayEvent::<S>::MouseMoved).1 == if v.is_dragging {
            OverlayResponse::MoveWindow
        } else {
            OverlayResponse::RememberCursor
        },
{
}

/// Every event keeps the overlay from showing values that were never computed.
pub proof fn lemma_overlay_step_consistent<S>(v: OverlayView<S>, e: OverlayEvent<S>)
    requires
        overlay_consistent(v),
    ensures
        overlay_consistent(overlay_step(v, e).0),
{
}

/// While the left button is held the window follows the cursor, and the
/// cursor position is remembered only while it is not held.
pub proof fn lemma_drag_follows_left_button<S>(v: OverlayView<S>)
    ensures
        overlay_step(
            overlay_step(v, OverlayEvent::<S>::MousePressed { left: true }).0,
            OverlayEvent::<S>::MouseMoved,
        ).1 == OverlayResponse::MoveWindow,
        overlay_step(
            overlay_step(v, OverlayEvent::<S>::MouseReleased { left: true }).0,
            OverlayEvent::<S>::MouseMoved,
        ).1 == OverlayResponse::RememberCursor,
{
}

impl<S> OverlayStatus<S> {
    /// Difficulty values are shown only where some were computed.
    #[verifier::type_invariant]
    spec fn shows_only_computed_values(self) -> bool {
        self.show_status || self.results is Some
    }

    /// The state of a new overlay: it shows a waiting message.
    pub fn new() -> (s: Self)
        ensures
            overlay_consistent(s@),
            s@.status_text == "Waiting for map update"@,
            s@.show_status,
            s@.results is None,
            !s@.is_dragging,
    {
        OverlayStatus {
            status_text: String::from_str("Waiting for map update"),
            show_status: true,
            results: None,
            is_dragging: false,
        }
    }

    /// Takes in an event and says what the window must do.
    pub fn update(&mut self, event: OverlayEvent<S>) -> (response: OverlayResponse)
        ensures
            (final(self)@, response) == overlay_step(old(self)@, event),
            overlay_consistent(final(self)@),
    {
        proof {
            use_type_invariant(&*self);
        }
        match event {
            OverlayEvent::ChangeText(text) => {
                self.status_text = text;
                self.show_status = true;
                OverlayResponse::Nothing
            },
            OverlayEvent::ResultsReady(r) => {
                self.results = Some(r);
                self.show_status = false;
                OverlayResponse::Nothing
            },
            OverlayEvent::MousePressed { left } => {
                if left {
                    self.is_dragging = true;
                }
                OverlayResponse::Nothing
            },
            OverlayEvent::MouseReleased { left } => {
                if left {
                    self.is_dragging = false;
                }
                OverlayResponse::Nothing
            },
            OverlayEvent::MouseMoved => {
                if self.is_dragging {
                    OverlayResponse::MoveWindow
                } else {
                    OverlayResponse::RememberCursor
                }
            },
            OverlayEvent::WindowOpened => OverlayResponse::RememberWindow,
        }
    }

    /// The message to show.
    pub fn status_text(&self) -> (r: &str)
        ensures
            r@ == self@.status_text,
    {
        self.status_text.as_str()
    }

    /// Whether the message is shown; otherwise the difficulty values are,
    /// and then some were computed.
    pub fn shows_status(&self) -> (r: bool)
        ensures
            r == self@.show_status,
            !r ==> self@.results is Some,
    {
        proof {
            use_type_invariant(self);
        }
        self.show_status
    }

    /// The difficulty values to show: `None` while the message is shown,
    /// else the values last computed, which exist then.
    pub fn shown_results(&self) -> (r: Option<&ShownResults<S>>)
        ensures
            r is Some <==> !self@.show_status,
            r is Some ==> self@.results == Some(r->0@),
    {
        proof {
            use_type_invariant(self);
        }
        if self.show_status {
            None
        } else {
            match &self.results {
                Some(r) => Some(r),
                None => None,
            }
        }
    }

    /// Whether the window is being dragged.
    pub fn is_dragging(&self) -> (r: bool)
        ensures
            r == self@.is_dragging,
    {
        self.is_dragging
    }
}

} // verus!
