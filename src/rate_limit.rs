//! Admission of tool calls: at most a fixed number run at once, and grants
//! are spaced by a minimum delay. The caller keeps the clock and does the
//! waiting; this state machine decides.
use vstd::prelude::*;
use crate::text::{ascii_lower, contains, has_infix, to_ascii_lower};

verus! {

/// Whether an error message reports rate limiting: it mentions "rate
/// limit", "429" or "too many requests", in any ASCII letter case.
pub open spec fn mentions_rate_limit(msg: Seq<char>) -> bool {
    let l = ascii_lower(msg);
    has_infix(l, "rate limit"@) || has_infix(l, "429"@) || has_infix(l, "too many requests"@)
}

pub fn is_rate_limit_error(error_msg: &str) -> (r: bool)
    ensures
        r == mentions_rate_limit(error_msg@),
{
    let lower = to_ascii_lower(error_msg);
    let l = lower.as_str();
    contains(l, "rate limit") || contains(l, "429") || contains(l, "too many requests")
}

/// The answer to a request for a permit at a given time.
#[derive(Debug, Clone, Copy, PartialEq, Eq)]
pub enum Admission {
    /// A permit is granted now; release it when the call ends.
    Granted,
    /// All permits are out; ask again after one is released.
    AllBusy,
    /// Too soon after the last grant; ask again at this time (ms).
    WaitUntil(u64),
}

/// A permit may be granted at `now`: one is free, and the minimum delay has
/// passed since the last grant, if any.
pub open spec fn may_grant(outstanding: nat, max: nat, last: Option<u64>, min_delay: nat, now: u64) -> bool {
    outstanding < max && match last {
        Some(t) => now >= t + min_delay,
        None => true,
    }
}

/// Two grants in a row are at least the minimum delay apart: a grant after
/// one at `last` happens no earlier than `last + min_delay`.
pub proof fn lemma_grants_spaced(outstanding: nat, max: nat, last: u64, min_delay: nat, now: u64)
    requires
        may_grant(outstanding, max, Some(last), min_delay, now),
    ensures
        now >= last + min_delay,
{
}

/// A grant never takes the number of permits out above the maximum.
pub proof fn lemma_grants_within_capacity(
    outstanding: nat,
    max: nat,
    last: Option<u64>,
    min_delay: nat,
    now: u64,
)
    requires
        outstanding <= max,
        may_grant(outstanding, max, last, min_delay, now),
    ensures
        outstanding + 1 <= max,
{
}

/// Permits and spacing of tool calls.
pub struct RateGate {
    max_concurrent: usize,
    min_delay_ms: u64,
    outstanding: usize,
    last_grant_ms: Option<u64>,
}

impl RateGate {
    pub closed spec fn max_concurrent(&self) -> nat {
        self.max_concurrent as nat
    }

    pub closed spec fn min_delay(&self) -> nat {
        self.min_delay_ms as nat
    }

    /// Permits granted and not yet released.
    pub closed spec fn outstanding(&self) -> nat {
        self.outstanding as nat
    }

    /// When the last permit was granted.
    pub closed spec fn last_grant(&self) -> Option<u64> {
        self.last_grant_ms
    }

    /// The permits out do not exceed the maximum.
    pub closed spec fn wf(&self) -> bool {
        self.outstanding <= self.max_concurrent
    }

    /// In a well-formed gate, the permits out never exceed the maximum.
    pub proof fn lemma_capacity(&self)
        requires
            self.wf(),
        ensures
            self.outstanding() <= self.max_concurrent(),
    {
    }

    /// A gate with no permit out and no grant yet.
    pub fn new(max_concurrent_calls: usize, min_delay_ms: u64) -> (r: Self)
        ensures
            r.wf(),
            r.max_concurrent() == max_concurrent_calls,
            r.min_delay() == min_delay_ms,
            r.outstanding() == 0,
            r.last_grant() is None,
    {
        RateGate {
            max_concurrent: max_concurrent_calls,
            min_delay_ms,
            outstanding: 0,
            last_grant_ms: None,
        }
    }

    /// Asks for a permit at time `now_ms`. A permit is granted when one is
    /// free and at least the minimum delay has passed since the last grant
    /// (or there was none); otherwise the answer says what to wait for.
    pub fn try_acquire(&mut self, now_ms: u64) -> (r: Admission)
        requires
            old(self).wf(),
        ensures
            final(self).wf(),
            final(self).max_concurrent() == old(self).max_concurrent(),
            final(self).min_delay() == old(self).min_delay(),
            r == Admission::Granted <==> may_grant(
                old(self).outstanding(),
                old(self).max_concurrent(),
                old(self).last_grant(),
                old(self).min_delay(),
                now_ms,
            ),
            r == Admission::Granted ==> final(self).outstanding() == old(self).outstanding() + 1
                && final(self).last_grant() == Some(now_ms),
            r != Admission::Granted ==> final(self).outstanding() == old(self).outstanding()
                && final(self).last_grant() == old(self).last_grant(),
            r == Admission::AllBusy <==> old(self).outstanding() >= old(self).max_concurrent(),
            r matches Admission::WaitUntil(t) ==> now_ms < old(self).last_grant().unwrap()
                + old(self).min_delay() && t == if old(self).last_grant().unwrap() + old(
                self,
            ).min_delay() <= u64::MAX {
                old(self).last_grant().unwrap() + old(self).min_delay()
            } else {
                u64::MAX as int
            },
    {
        if self.outstanding >= self.max_concurrent {
            return Admission::AllBusy;
        }
        match self.last_grant_ms {
            Some(t) => {
                if now_ms < t || now_ms - t < self.min_delay_ms {
                    if t > u64::MAX - self.min_delay_ms {
                        return Admission::WaitUntil(u64::MAX);
                    }
                    return Admission::WaitUntil(t + self.min_delay_ms);
                }
            },
            None => {},
        }
        self.outstanding = self.outstanding + 1;
        self.last_grant_ms = Some(now_ms);
        Admission::Granted
    }

    /// Returns a permit.
    pub fn release(&mut self)
        requires
            old(self).wf(),
        ensures
            final(self).wf(),
            final(self).max_concurrent() == old(self).max_concurrent(),
            final(self).min_delay() == old(self).min_delay(),
            final(self).last_grant() == old(self).last_grant(),
            final(self).outstanding() == if old(self).outstanding() > 0 {
                old(self).outstanding() - 1
            } else {
                0
            },
    {
        if self.outstanding > 0 {
            self.outstanding = self.outstanding - 1;
        }
    }
}

} // verus!
