use vstd::prelude::*;
use crate::network::constant::TimerMessageType;
use crate::structure::time::Duration;

verus! {

/// A timer that the caller is asked to set.
#[derive(PartialEq, Eq, Structural, Clone, Copy, Debug)]
pub struct Timeout {
    pub duration: Duration,
    pub kind: TimerMessageType,
}

/// The number under which a timer was asked for.
#[derive(PartialEq, Eq, Structural, Clone, Copy, Debug)]
pub struct TimerToken {
    pub number: u64,
}

/// The timers that an engine wants set, in the order in which it asked. The
/// engine only fills this; the caller takes the requests out and sets the
/// timers on its event loop, which later delivers each expiry to the engine.
#[derive(Debug)]
pub struct TimedEventHandler {
    pub pending: Vec<Timeout>,
    /// The timers asked for so far.
    pub issued: u64,
}

impl View for TimedEventHandler {
    type V = Seq<Timeout>;

    open spec fn view(&self) -> Seq<Timeout> {
        self.pending@
    }
}

impl TimedEventHandler {
    /// A handler that nobody has asked anything of.
    pub fn new() -> (r: TimedEventHandler)
        ensures
            r@ == Seq::<Timeout>::empty(),
            r.issued == 0,
    {
        TimedEventHandler { pending: Vec::new(), issued: 0 }
    }

    /// Asks for a timer of kind `kind` to expire after `duration`, and
    /// returns the number of the request: requests are numbered from 0.
    pub fn set_timeout(&mut self, duration: &Duration, kind: TimerMessageType) -> (token: TimerToken)
        ensures
            final(self)@ == old(self)@.push(Timeout { duration: *duration, kind }),
            token.number == old(self).issued,
            final(self).issued == if old(self).issued == u64::MAX {
                u64::MAX
            } else {
                (old(self).issued + 1) as u64
            },
    {
        let token = TimerToken { number: self.issued };
        self.pending.push(Timeout { duration: *duration, kind });
        if self.issued < u64::MAX {
            self.issued = self.issued + 1;
        }
        token
    }

    /// Hands out the requests that wait, and forgets them.
    pub fn take_pending(&mut self) -> (r: Vec<Timeout>)
        ensures
            r@ == old(self)@,
            final(self)@ == Seq::<Timeout>::empty(),
            final(self).issued == old(self).issued,
    {
        let mut out: Vec<Timeout> = Vec::new();
        std::mem::swap(&mut out, &mut self.pending);
        out
    }
}

} // verus!
