//! Clean exits: a stop that is asked for once and holds from then on.

use vstd::prelude::*;

verus! {

/// What is said where a stop ends something early.
pub const STOP_REQUESTED: &'static str = "stop requested";

/// Whether a stop was asked for.
#[derive(Debug, Clone, Copy)]
pub struct Cancellation {
    stop_now: bool,
    channel_open: bool,
}

impl Cancellation {
    /// Whether a stop was asked for.
    pub closed spec fn stopped(&self) -> bool {
        self.stop_now
    }

    /// Whether those who listen for a stop still wait.
    pub closed spec fn open(&self) -> bool {
        self.channel_open
    }

    /// The listeners wait exactly as long as no stop was asked for.
    pub open spec fn wf(&self) -> bool {
        self.open() <==> !self.stopped()
    }

    /// No stop was asked for.
    pub fn init_cancellation() -> (state: Cancellation)
        ensures
            state.wf(),
            !state.stopped(),
    {
        Cancellation { stop_now: false, channel_open: true }
    }

    /// Takes in that a stop is asked for, and tells whether the channel of the listeners is to be
    /// closed: it is closed by the first request.
    pub fn request_stop(&mut self) -> (close: bool)
        requires
            old(self).wf(),
        ensures
            final(self).wf(),
            final(self).stopped(),
            close == !old(self).stopped(),
    {
        let close = self.channel_open;
        self.stop_now = true;
        self.channel_open = false;
        close
    }

    /// Whether a stop was asked for.
    pub fn should_stop(&self) -> (stop: bool)
        ensures
            stop == self.stopped(),
    {
        self.stop_now
    }
}

} // verus!
