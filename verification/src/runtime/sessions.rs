//! Everything that is being watched or recorded at a time.

use crate::runtime::bag::{recording_opt, RecordingSession, RecordingView};
use crate::runtime::delay::{delay_opt, DelayView, TopicDelaySession};
use crate::runtime::echo::{echo_opt, echo_wf, EchoView, TopicEchoSession};
use crate::runtime::observers::{
    bw_opt, hz_opt, BwView, HzView, TopicBwSession, TopicHzSession,
};
use vstd::prelude::*;

verus! {

/// What is being watched or recorded.
pub struct Sessions {
    pub recording: Option<RecordingSession>,
    pub bw: Option<TopicBwSession>,
    pub delay: Option<TopicDelaySession>,
    pub echo: Option<TopicEchoSession>,
    pub hz: Option<TopicHzSession>,
}

/// What [`Sessions`] hold.
#[verifier::ext_equal]
pub struct SessionsView {
    pub recording: Option<RecordingView>,
    pub bw: Option<BwView>,
    pub delay: Option<DelayView>,
    pub echo: Option<EchoView>,
    pub hz: Option<HzView>,
}

impl View for Sessions {
    type V = SessionsView;

    open spec fn view(&self) -> SessionsView {
        SessionsView {
            recording: recording_opt(self.recording),
            bw: bw_opt(self.bw),
            delay: delay_opt(self.delay),
            echo: echo_opt(self.echo),
            hz: hz_opt(self.hz),
        }
    }
}

/// Nothing is watched or recorded.
pub open spec fn no_sessions() -> SessionsView {
    SessionsView { recording: None, bw: None, delay: None, echo: None, hz: None }
}

impl Sessions {
    /// Every session is in good order.
    pub open spec fn wf(&self) -> bool {
        &&& self.bw matches Some(session) ==> session.wf()
        &&& echo_wf(self.echo)
    }

    /// Nothing is watched or recorded.
    pub fn new() -> (r: Sessions)
        ensures
            r.wf(),
            r@ == no_sessions(),
    {
        Sessions { recording: None, bw: None, delay: None, echo: None, hz: None }
    }
}

} // verus!
