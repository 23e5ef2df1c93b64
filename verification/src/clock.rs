//! Points in time.

use std::time::{Duration, Instant, SystemTime, SystemTimeError};

use vstd::prelude::*;

verus! {

/// A point in time on the machine's steady clock.
#[verifier::external_type_specification]
#[verifier::external_body]
pub struct ExInstant(Instant);

/// A point in time on the machine's calendar clock.
#[verifier::external_type_specification]
#[verifier::external_body]
pub struct ExSystemTime(SystemTime);

/// The answer where one point in time is not before another.
#[verifier::external_type_specification]
#[verifier::external_body]
pub struct ExSystemTimeError(SystemTimeError);

/// `SystemTime::now` of std reads the calendar clock. Nothing is said of what it shows.
pub assume_specification[ SystemTime::now ]() -> (r: SystemTime)
;

/// `Instant::now` of std reads the steady clock. Nothing is said of what it shows.
pub assume_specification[ Instant::now ]() -> (r: Instant)
;

/// `Duration::from_secs` of std is the span of so many whole seconds: `Duration::as_secs` gives
/// their number back.
pub assume_specification[ Duration::from_secs ](secs: u64) -> (r: Duration)
    ensures
        forall|n: u64| #[trigger] call_ensures(Duration::as_secs, (&r,), n) ==> n == secs,
;

/// `Duration::as_secs` of std is how many whole seconds a span has. A span is opaque, so no more is
/// said of their number than `Duration::from_secs` does.
pub assume_specification[ Duration::as_secs ](span: &Duration) -> (r: u64)
;

/// `Instant::checked_sub` of std is the point in time a span before another, where the clock can
/// show it. Points in time are opaque, so nothing is said of which it is.
pub assume_specification[ Instant::checked_sub ](time: &Instant, span: Duration) -> (r: Option<
    Instant,
>)
;

/// `SystemTime::duration_since` of std, from `SystemTime::UNIX_EPOCH` on: the span since then, or
/// that the time was before. Nothing is said of which it is: that is the clock's.
#[verifier::external_body]
fn since_unix_epoch(time: SystemTime) -> (r: Result<Duration, SystemTimeError>) {
    time.duration_since(SystemTime::UNIX_EPOCH)
}

/// How many whole seconds have gone by since the beginning of the count; 0 before it.
pub fn whole_seconds(since: Result<Duration, SystemTimeError>) -> (r: u64)
    ensures
        match since {
            Ok(span) => call_ensures(Duration::as_secs, (&span,), r),
            Err(_) => r == 0,
        },
{
    match since {
        Ok(span) => span.as_secs(),
        Err(_) => 0,
    }
}

/// A span of whole seconds has as many of them as it was made of.
pub proof fn seconds_are_counted(secs: u64, span: Duration, r: u64)
    requires
        call_ensures(Duration::from_secs, (secs,), span),
        call_ensures(whole_seconds, (Ok(span),), r),
    ensures
        r == secs,
{
}

/// Whether the calendar clock may show `since`, as the span since 1970 or that it is before.
pub closed spec fn clock_shows(since: Result<Duration, SystemTimeError>) -> bool {
    exists|time: SystemTime|
        #![trigger call_ensures(SystemTime::now, (), time)]
        call_ensures(SystemTime::now, (), time) && call_ensures(since_unix_epoch, (time,), since)
}

/// How many whole seconds have gone by since the beginning of 1970, by the calendar clock; 0 where
/// that is set to a time before. What the clock shows is the machine's.
pub fn now() -> (r: u64)
    ensures
        exists|since: Result<Duration, SystemTimeError>| #[trigger]
            clock_shows(since) && call_ensures(whole_seconds, (since,), r),
{
    let time: SystemTime = SystemTime::now();
    let since: Result<Duration, SystemTimeError> = since_unix_epoch(time);
    assert(clock_shows(since));
    let r: u64 = whole_seconds(since);
    assert(call_ensures(whole_seconds, (since,), r));
    r
}

/// How many seconds ago everything has expired.
pub const EXPIRY_SECONDS: u64 = 3600;

/// A point in time that has expired: `EXPIRY_SECONDS` ago, or now where the steady clock does not
/// go so far back.
pub fn get_expired_time() -> (r: Instant)
    ensures
        exists|now: Instant, span: Duration, earlier: Option<Instant>|
            {
                &&& #[trigger] call_ensures(Instant::now, (), now)
                &&& #[trigger] call_ensures(Duration::from_secs, (EXPIRY_SECONDS,), span)
                &&& #[trigger] call_ensures(Instant::checked_sub, (&now, span), earlier)
                &&& r == (match earlier {
                    Some(time) => time,
                    None => now,
                })
            },
{
    let now: Instant = Instant::now();
    let span: Duration = Duration::from_secs(EXPIRY_SECONDS);
    let earlier: Option<Instant> = now.checked_sub(span);
    match earlier {
        Some(time) => time,
        None => now,
    }
}

/// A time before the beginning of the count has no seconds.
pub proof fn early_time_has_no_seconds(error: SystemTimeError, r: u64)
    requires
        call_ensures(whole_seconds, (Err(error),), r),
    ensures
        r == 0,
{
}

/// The seconds that `now` gives are those of the span since 1970 that the clock shows, or 0 where it
/// shows a time before.
pub proof fn now_is_what_the_clock_shows(r: u64)
    requires
        call_ensures(now, (), r),
    ensures
        exists|since: Result<Duration, SystemTimeError>| #[trigger]
            clock_shows(since) && (match since {
                Ok(span) => call_ensures(Duration::as_secs, (&span,), r),
                Err(_) => r == 0,
            }),
{
    let since = choose|since: Result<Duration, SystemTimeError>| #[trigger]
        clock_shows(since) && call_ensures(whole_seconds, (since,), r);
    assert(clock_shows(since));
}

/// The expired time is 3600 seconds before now, or now where the clock cannot show that.
pub proof fn expired_time_is_an_hour_ago(r: Instant)
    requires
        call_ensures(get_expired_time, (), r),
    ensures
        exists|now: Instant, span: Duration, earlier: Option<Instant>|
            {
                &&& #[trigger] call_ensures(Instant::now, (), now)
                &&& #[trigger] call_ensures(Duration::from_secs, (3600u64,), span)
                &&& #[trigger] call_ensures(Instant::checked_sub, (&now, span), earlier)
                &&& earlier is Some ==> r == earlier->0
                &&& earlier is None ==> r == now
            },
{
}

}
