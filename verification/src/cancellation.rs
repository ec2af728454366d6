//! Cancellation strategies for long-running symbolic algorithms.
//!
//! A [`CancelToken`] answers one question at the checkpoints of an algorithm's
//! main loop: "should this run stop now?".  The answer is *monotone*: once a
//! token has reported `true`, every later query reports `true` again, because
//! a positive answer is latched into the token.

use crate::clock::{duration_as_millis, instant_copy, instant_elapsed, instant_now};
use vstd::prelude::*;

verus! {

/// State of a timer-based cancellation strategy: a deadline of `duration_ms`
/// milliseconds, armed by the first `start_timer` call.  `fired` latches a
/// positive answer so that cancellation is monotone even if the clock is not.
pub struct CancelTokenTimer {
    pub duration_ms: u64,
    pub started: Option<std::time::Instant>,
    pub fired: bool,
}

/// A cancellation strategy, polled at the checkpoints of an algorithm.
pub enum CancelToken {
    /// Never asks the algorithm to stop; the default strategy.
    Never,
    /// Asks the algorithm to stop once a deadline has passed.
    Timer(CancelTokenTimer),
    /// Asks the algorithm to stop once an outside signal has been latched.
    External(bool),
    /// Asks the algorithm to stop when either of two strategies does.
    Composite(Box<CancelToken>, Box<CancelToken>),
}

impl CancelToken {
    /// True once the token has recorded a positive cancellation answer.
    pub open spec fn latched(self) -> bool
        decreases self,
    {
        match self {
            CancelToken::Never => false,
            CancelToken::Timer(t) => t.fired,
            CancelToken::External(s) => s,
            CancelToken::Composite(a, b) => (*a).latched() || (*b).latched(),
        }
    }

    /// True of tokens that can never report a cancellation.
    pub open spec fn never_cancels(self) -> bool
        decreases self,
    {
        match self {
            CancelToken::Never => true,
            CancelToken::Timer(_) => false,
            CancelToken::External(s) => !s,
            CancelToken::Composite(a, b) => (*a).never_cancels() && (*b).never_cancels(),
        }
    }

    /// True once every timer inside the token has been armed.
    pub open spec fn armed(self) -> bool
        decreases self,
    {
        match self {
            CancelToken::Never => true,
            CancelToken::Timer(t) => t.started is Some,
            CancelToken::External(_) => true,
            CancelToken::Composite(a, b) => (*a).armed() && (*b).armed(),
        }
    }

    /// True of tokens that, once armed, report a cancellation at every query:
    /// a latched token, or a timer whose deadline is zero milliseconds.
    pub open spec fn sure_cancel(self) -> bool
        decreases self,
    {
        match self {
            CancelToken::Never => false,
            CancelToken::Timer(t) => t.fired || t.duration_ms == 0,
            CancelToken::External(s) => s,
            CancelToken::Composite(a, b) => (*a).sure_cancel() || (*b).sure_cancel(),
        }
    }

    /// How a token before `start_timer` relates to the token after it: the
    /// structure, deadlines and latches are unchanged, an unarmed timer
    /// becomes armed, and an already-armed timer keeps its start instant.
    pub open spec fn arms_to(self, r: CancelToken) -> bool
        decreases self,
    {
        match (self, r) {
            (CancelToken::Never, CancelToken::Never) => true,
            (CancelToken::Timer(t), CancelToken::Timer(u)) => {
                &&& u.duration_ms == t.duration_ms
                &&& u.fired == t.fired
                &&& if t.started is Some {
                    u.started == t.started
                } else {
                    u.started is Some
                }
            },
            (CancelToken::External(s), CancelToken::External(u)) => s == u,
            (CancelToken::Composite(a, b), CancelToken::Composite(c, d)) => {
                (*a).arms_to(*c) && (*b).arms_to(*d)
            },
            _ => false,
        }
    }

    /// Arming preserves every observable property of a token and arms it.
    pub proof fn lemma_arms_to_properties(self, r: CancelToken)
        requires
            self.arms_to(r),
        ensures
            r.latched() == self.latched(),
            r.never_cancels() == self.never_cancels(),
            r.sure_cancel() == self.sure_cancel(),
            r.armed(),
        decreases self,
    {
        match (self, r) {
            (CancelToken::Composite(a, b), CancelToken::Composite(c, d)) => {
                (*a).lemma_arms_to_properties(*c);
                (*b).lemma_arms_to_properties(*d);
            },
            _ => {},
        }
    }

    /// A token that can never cancel is never latched.
    pub proof fn lemma_never_not_latched(self)
        ensures
            self.never_cancels() ==> !self.latched(),
        decreases self,
    {
        match self {
            CancelToken::Composite(a, b) => {
                (*a).lemma_never_not_latched();
                (*b).lemma_never_not_latched();
            },
            _ => {},
        }
    }

    /// The token that never cancels, the default strategy.
    pub fn never() -> (r: CancelToken)
        ensures
            r == CancelToken::Never,
    {
        CancelToken::Never
    }

    /// A timer token with the given deadline, not yet armed and not latched.
    pub fn timer(duration_ms: u64) -> (r: CancelToken)
        ensures
            r == CancelToken::Timer(
                CancelTokenTimer { duration_ms, started: None, fired: false },
            ),
    {
        CancelToken::Timer(CancelTokenTimer { duration_ms, started: None, fired: false })
    }

    /// An exact copy of the token.
    pub fn duplicate(&self) -> (r: CancelToken)
        ensures
            r == *self,
        decreases self,
    {
        match self {
            CancelToken::Never => CancelToken::Never,
            CancelToken::Timer(t) => {
                let started = match &t.started {
                    Some(i) => Some(instant_copy(i)),
                    None => None,
                };
                CancelToken::Timer(
                    CancelTokenTimer { duration_ms: t.duration_ms, started, fired: t.fired },
                )
            },
            CancelToken::External(s) => CancelToken::External(*s),
            CancelToken::Composite(a, b) => {
                CancelToken::Composite(Box::new(a.duplicate()), Box::new(b.duplicate()))
            },
        }
    }

    /// Arms every timer inside the token.  Idempotent: a timer that is
    /// already armed keeps its original start instant, so calling this twice
    /// does not reset an armed deadline.
    pub fn start_timer(self) -> (r: CancelToken)
        ensures
            self.arms_to(r),
        decreases self,
    {
        match self {
            CancelToken::Never => CancelToken::Never,
            CancelToken::Timer(t) => {
                if t.started.is_none() {
                    CancelToken::Timer(
                        CancelTokenTimer {
                            duration_ms: t.duration_ms,
                            started: Some(instant_now()),
                            fired: t.fired,
                        },
                    )
                } else {
                    CancelToken::Timer(t)
                }
            },
            CancelToken::External(s) => CancelToken::External(s),
            CancelToken::Composite(a, b) => {
                CancelToken::Composite(
                    Box::new((*a).start_timer()),
                    Box::new((*b).start_timer()),
                )
            },
        }
    }

    /// Asks the token whether the run should stop.
    ///
    /// Cancellation is monotone: a latched token reports `true` again, and a
    /// token that reports `true` is latched, so every later query on the
    /// returned token reports `true` as well.
    pub fn check_cancelled(self) -> (r: (CancelToken, bool))
        ensures
            r.1 == r.0.latched(),
            self.latched() ==> r.1,
            r.0.never_cancels() == self.never_cancels(),
            self.sure_cancel() ==> r.0.sure_cancel(),
            self.armed() ==> r.0.armed(),
            self.armed() && self.sure_cancel() ==> r.1,
        decreases self,
    {
        match self {
            CancelToken::Never => (CancelToken::Never, false),
            CancelToken::Timer(t) => {
                if t.fired {
                    (CancelToken::Timer(t), true)
                } else {
                    match t.started {
                        Some(st) => {
                            let elapsed = duration_as_millis(&instant_elapsed(&st));
                            let fired = elapsed >= t.duration_ms as u128;
                            (
                                CancelToken::Timer(
                                    CancelTokenTimer {
                                        duration_ms: t.duration_ms,
                                        started: Some(st),
                                        fired,
                                    },
                                ),
                                fired,
                            )
                        },
                        None => {
                            (
                                CancelToken::Timer(
                                    CancelTokenTimer {
                                        duration_ms: t.duration_ms,
                                        started: None,
                                        fired: false,
                                    },
                                ),
                                false,
                            )
                        },
                    }
                }
            },
            CancelToken::External(s) => (CancelToken::External(s), s),
            CancelToken::Composite(a, b) => {
                let (a2, ra) = (*a).check_cancelled();
                let (b2, rb) = (*b).check_cancelled();
                (CancelToken::Composite(Box::new(a2), Box::new(b2)), ra || rb)
            },
        }
    }

    /// True if the token contains an externally-signalled strategy.
    pub open spec fn has_external(self) -> bool
        decreases self,
    {
        match self {
            CancelToken::Never => false,
            CancelToken::Timer(_) => false,
            CancelToken::External(_) => true,
            CancelToken::Composite(a, b) => (*a).has_external() || (*b).has_external(),
        }
    }

    /// How a token before `signal` relates to the token after it: the
    /// structure is unchanged, every timer keeps its deadline, start instant
    /// and latch, and every external strategy becomes latched.
    pub open spec fn signals_to(self, r: CancelToken) -> bool
        decreases self,
    {
        match (self, r) {
            (CancelToken::Never, CancelToken::Never) => true,
            (CancelToken::Timer(t), CancelToken::Timer(u)) => u == t,
            (CancelToken::External(_), CancelToken::External(u)) => u == true,
            (CancelToken::Composite(a, b), CancelToken::Composite(c, d)) => {
                (*a).signals_to(*c) && (*b).signals_to(*d)
            },
            _ => false,
        }
    }

    /// Latches an outside cancellation signal into every external strategy of
    /// the token; everything else is left as it was.  The host environment
    /// calls this when the embedding application asks a run to stop.
    pub fn signal(self) -> (r: CancelToken)
        ensures
            self.signals_to(r),
            r.latched() == (self.latched() || self.has_external()),
        decreases self,
    {
        match self {
            CancelToken::Never => CancelToken::Never,
            CancelToken::Timer(t) => CancelToken::Timer(t),
            CancelToken::External(_) => CancelToken::External(true),
            CancelToken::Composite(a, b) => {
                CancelToken::Composite(Box::new((*a).signal()), Box::new((*b).signal()))
            },
        }
    }
}

impl Default for CancelToken {
    /// The default cancellation strategy never cancels.
    fn default() -> (r: CancelToken)
        ensures
            r == CancelToken::Never,
    {
        CancelToken::Never
    }
}

} // verus!
