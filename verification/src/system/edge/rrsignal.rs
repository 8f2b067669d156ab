//! Signals: a red or green light that stands at one end of one segment.

use vstd::prelude::*;
use crate::common::{EdgeEnd, EdgeEndView};

verus! {

/// A signal place of a segment. The signal has been placed when `edge`
/// names the segment end at which it stands.
#[derive(Clone, Debug, PartialEq, Eq)]
pub struct RRsignal {
    pub is_red: bool,
    pub edge: EdgeEnd,
}

/// Mathematical value of an `RRsignal`. The signal has been placed when
/// `edge` names a segment.
pub struct SignalView {
    pub is_red: bool,
    pub edge: EdgeEndView,
}

impl View for RRsignal {
    type V = SignalView;

    open spec fn view(&self) -> SignalView {
        SignalView { is_red: self.is_red, edge: self.edge@ }
    }
}

impl SignalView {
    /// The signal that has not been placed anywhere. It shows red.
    pub open spec fn unplaced() -> SignalView {
        SignalView { is_red: true, edge: EdgeEndView::nowhere() }
    }

    /// The signal stands at a segment end.
    pub open spec fn is_placed(self) -> bool {
        self.edge.is_set()
    }
}

impl RRsignal {
    /// Whether the signal shows red.
    pub fn signal_is_red(&self) -> (red: bool)
        ensures
            red == self@.is_red,
    {
        self.is_red
    }
}

} // verus!
