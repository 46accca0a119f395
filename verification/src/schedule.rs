//! When the snapshot of the feed is built anew.
use vstd::prelude::*;

verus! {

/// The seconds of a day.
pub const DAY: i64 = 86400;

/// When the snapshot is built anew, in seconds after midnight UTC: 22:00, which
/// is 06:00 in Shanghai.
pub const REFRESH_TIME: i64 = 79200;

/// How many seconds from a given Unix time on it is six in the morning in
/// Shanghai for the next time.
pub fn seconds_until_six(now: i64) -> (r: u64)
    requires
        now >= i64::MIN + 79200,
    ensures
        1 <= r <= 86400,
        (now + r) % 86400 == 79200,
{
    let since = (now - REFRESH_TIME).checked_rem_euclid(DAY).unwrap();
    assert((now + (86400 - since)) % 86400 == 79200);
    (DAY - since) as u64
}

/// The snapshot is built anew at six in the morning in Shanghai, eight hours
/// ahead of UTC, and at no moment before that is it time.
pub proof fn law_refresh_is_at_six_in_shanghai(now: int, wait: int)
    requires
        1 <= wait <= 86400,
        (now + wait) % 86400 == 79200,
    ensures
        (now + wait + 28800) % 86400 == 6 * 3600,
        forall|earlier: int|
            1 <= earlier < wait ==> #[trigger] (now + earlier) % 86400 != 79200,
{
}

} // verus!
