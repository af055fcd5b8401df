//! Wall-clock access and the polling loop's jitter policy: the sleep before
//! the next cycle lasts `interval * j` milliseconds for a uniformly drawn
//! `j` in 900..=1100, i.e. 0.9 to 1.1 times the configured interval.

use vstd::prelude::*;

verus! {

/// Relies on chrono's `Utc::now`; `DateTime::timestamp` converts the instant
/// to whole seconds since the unix epoch. Nothing is assumed of the clock's
/// value.
#[verifier::external_body]
pub(crate) fn now_unix() -> (r: i64) {
    chrono::Utc::now().timestamp()
}

/// Relies on rand's `random`: an unpredictable value; nothing can be
/// promised of it.
pub assume_specification<T>[ rand::random::<T> ]() -> (r: T)
    where
        rand::distr::StandardUniform: rand::distr::Distribution<T>,
;

/// How long to sleep before the next polling cycle, in milliseconds: the
/// configured interval (in seconds) scaled by a random factor between 0.9
/// and 1.1, so that many monitors polling one scheduler do not synchronize.
pub fn next_sleep_millis(interval_secs: u64) -> (r: u64)
    requires
        interval_secs <= 0x3FFFFFFFFFFFF,
    ensures
        900 * interval_secs <= r <= 1100 * interval_secs,
        exists|j: u64| 900 <= j <= 1100 && r == #[trigger] (interval_secs * j),
{
    let x: u64 = rand::random();
    let j: u64 = 900 + x % 201;
    assert(900 <= j <= 1100);
    proof {
        assert(interval_secs * 900 <= interval_secs * j <= interval_secs * 1100) by (nonlinear_arith)
            requires
                900 <= j <= 1100,
                interval_secs >= 0,
        ;
        assert(interval_secs * 1100 <= 0x3FFFFFFFFFFFF * 1100) by (nonlinear_arith)
            requires
                interval_secs <= 0x3FFFFFFFFFFFF,
        ;
    }
    let r = interval_secs * j;
    r
}

} // verus!
