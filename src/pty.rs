use vstd::arithmetic::power::pow;
use vstd::prelude::*;

verus! {

/// Checks come at 0.1 s, 0.5 s, 2.5 s, 12.5 s, then every 60 s, of idleness.
pub const MIN_CHECK_INTERVAL_MS: u64 = 100;

pub const MAX_CHECK_INTERVAL_MS: u64 = 60000;

pub const CHECK_INTERVAL_MULTIPLIER: u64 = 5;

/// The interval that follows a check made after waiting `i`.
pub open spec fn next_interval(i: nat) -> nat {
    if i * 5 > 60000 {
        60000
    } else {
        i * 5
    }
}

/// The interval after `k` checks in a row, from `i`.
pub open spec fn interval_after(i: nat, k: nat) -> nat
    decreases k,
{
    if k == 0 {
        i
    } else {
        next_interval(interval_after(i, (k - 1) as nat))
    }
}

/// The back-off: after `k` checks with no output between them, the interval is
/// the minimum times five to the `k`, capped at 60 s.
pub proof fn lemma_backoff(k: nat)
    ensures
        interval_after(100, k) == (if 100 * pow(5, k) > 60000 {
            60000
        } else {
            100 * pow(5, k)
        }),
    decreases k,
{
    vstd::arithmetic::power::lemma_pow_positive(5, k);
    if k > 0 {
        lemma_backoff((k - 1) as nat);
        vstd::arithmetic::power::lemma_pow_positive(5, (k - 1) as nat);
        assert(pow(5, k) == 5 * pow(5, (k - 1) as nat)) by {
            vstd::arithmetic::power::lemma_pow_adds(5, 1, (k - 1) as nat);
            vstd::arithmetic::power::lemma_pow1(5);
        }
        let p = pow(5, (k - 1) as nat);
        assert(100 * (5 * p) == (100 * p) * 5) by (nonlinear_arith);
        let prev = interval_after(100, (k - 1) as nat);
        assert(interval_after(100, k) == next_interval(prev));
        if 100 * p > 60000 {
            assert(prev == 60000);
        } else {
            assert(prev == 100 * p);
        }
    } else {
        vstd::arithmetic::power::lemma_pow0(5);
    }
}

/// When the next check is due: a timer that never checked is due at once.
pub struct CheckTimer {
    check_interval_ms: u64,
    last_check_ms: Option<u64>,
}

impl CheckTimer {
    pub closed spec fn interval(&self) -> nat {
        self.check_interval_ms as nat
    }

    pub closed spec fn last_check(&self) -> Option<nat> {
        match self.last_check_ms {
            Some(t) => Some(t as nat),
            None => None,
        }
    }

    pub open spec fn wf(&self) -> bool {
        100 <= self.interval() <= 60000
    }

    /// The time of the next check; `now` for a timer that never checked.
    pub open spec fn due_at(&self, now: nat) -> nat {
        match self.last_check() {
            Some(t) => t + self.interval(),
            None => now,
        }
    }

    pub fn new() -> (r: CheckTimer)
        ensures
            r.wf(),
            r.interval() == 100,
            r.last_check() is None,
    {
        CheckTimer { check_interval_ms: MIN_CHECK_INTERVAL_MS, last_check_ms: None }
    }

    pub fn check_interval_ms(&self) -> (r: u64)
        ensures
            r == self.interval(),
    {
        self.check_interval_ms
    }

    /// Decides at time `now` (in ms) whether to check. When a check is due,
    /// records it and returns `true` with the new interval; otherwise returns
    /// `false` with the time left until the next check.
    pub fn maybe_check(&mut self, now: u64) -> (r: (bool, u64))
        requires
            old(self).wf(),
            old(self).last_check() matches Some(t) ==> t <= now,
        ensures
            final(self).wf(),
            r.0 == (old(self).due_at(now as nat) <= now),
            r.0 ==> final(self).interval() == next_interval(old(self).interval()),
            r.0 ==> final(self).last_check() == Some(now as nat),
            r.0 ==> r.1 == final(self).interval(),
            !r.0 ==> *final(self) == *old(self),
            !r.0 ==> r.1 == old(self).due_at(now as nat) - now,
    {
        let due = match self.last_check_ms {
            Some(t) => now - t >= self.check_interval_ms,
            None => true,
        };
        if due {
            let grown = self.check_interval_ms * CHECK_INTERVAL_MULTIPLIER;
            self.check_interval_ms = if grown > MAX_CHECK_INTERVAL_MS {
                MAX_CHECK_INTERVAL_MS
            } else {
                grown
            };
            self.last_check_ms = Some(now);
            (true, self.check_interval_ms)
        } else {
            let t = match self.last_check_ms {
                Some(t) => t,
                None => now,
            };
            (false, self.check_interval_ms - (now - t))
        }
    }

    /// A read of `count` bytes from the shell's side of the PTY: zero bytes
    /// is end of file and ends the relay; any output brings the next check
    /// back to the minimum interval. Returns whether to go on.
    pub fn on_master_read(&mut self, count: usize) -> (go_on: bool)
        requires
            old(self).wf(),
        ensures
            final(self).wf(),
            go_on == (count > 0),
            count > 0 ==> final(self).interval() == 100,
            count == 0 ==> *final(self) == *old(self),
            final(self).last_check() == old(self).last_check(),
    {
        if count == 0 {
            return false;
        }
        self.reset();
        true
    }

    /// Output from the shell: the next check comes after the minimum interval.
    pub fn reset(&mut self)
        requires
            old(self).wf(),
        ensures
            final(self).wf(),
            final(self).interval() == 100,
            final(self).last_check() == old(self).last_check(),
    {
        self.check_interval_ms = MIN_CHECK_INTERVAL_MS;
    }
}

/// What the relay does on each check: refresh its knowledge of the shell,
/// then compose the outbound title from the one the shell set.
pub trait PtyActions {
    fn check(&mut self);

    fn make_window_title(&self, in_window_title: &str) -> String {
        in_window_title.to_owned()
    }
}

} // verus!
