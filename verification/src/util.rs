use vstd::prelude::*;

use core::time::Duration;
use std::time::{SystemTime, SystemTimeError};

verus! {

#[verifier::external_type_specification]
#[verifier::external_body]
pub struct ExSystemTime(SystemTime);

#[verifier::external_type_specification]
#[verifier::external_body]
pub struct ExSystemTimeError(SystemTimeError);

/// `SystemTime::now`. What the clock reads is claimed of nothing.
#[verifier::external_body]
fn system_now() -> SystemTime {
    SystemTime::now()
}

/// `SystemTime::duration_since` against `UNIX_EPOCH`: the time elapsed since
/// the epoch, an error when `t` lies before it. Nothing is claimed of the result,
/// which depends on the clock reading that `t` holds.
#[verifier::external_body]
fn since_unix_epoch(t: &SystemTime) -> Result<Duration, SystemTimeError> {
    t.duration_since(std::time::UNIX_EPOCH)
}

/// `Duration::as_secs`: the whole seconds of `d`. Nothing is claimed of the
/// result, `Duration` being opaque here.
#[verifier::external_body]
fn duration_secs(d: &Duration) -> u64 {
    d.as_secs()
}

/// `Duration::subsec_nanos`: the nanoseconds of `d` beyond its whole seconds,
/// which its documentation bounds below one billion.
#[verifier::external_body]
fn duration_subsec_nanos(d: &Duration) -> (n: u32)
    ensures
        n < 1_000_000_000,
{
    d.subsec_nanos()
}

/// The whole microseconds in `secs` seconds and `nanos` nanoseconds.
pub open spec fn spec_micros(secs: u64, nanos: u32) -> nat {
    (secs * 1_000_000 + nanos / 1000) as nat
}

/// The whole microseconds of a duration of `secs` seconds and `nanos`
/// nanoseconds, as `Duration::as_micros` counts them.
pub fn micros_from_parts(secs: u64, nanos: u32) -> (micros: u128)
    ensures
        micros == spec_micros(secs, nanos),
        nanos < 1_000_000_000 ==> micros / 1_000_000 == secs && micros % 1_000_000 == nanos
            / 1000,
{
    proof {
        if nanos < 1_000_000_000 {
            lemma_micros_split(secs, nanos);
        }
    }
    secs as u128 * 1_000_000 + (nanos / 1000) as u128
}

/// A duration's microsecond count splits back into its parts: the whole
/// seconds are the count's millions, and the microseconds below one second
/// are the sub-second nanoseconds' thousands.
pub proof fn lemma_micros_split(secs: u64, nanos: u32)
    requires
        nanos < 1_000_000_000,
    ensures
        spec_micros(secs, nanos) / 1_000_000 == secs,
        spec_micros(secs, nanos) % 1_000_000 == nanos / 1000,
{
    let q = secs as int;
    let r = (nanos / 1000) as int;
    assert(0 <= r < 1_000_000);
    vstd::arithmetic::div_mod::lemma_fundamental_div_mod_converse(
        q * 1_000_000 + r,
        1_000_000,
        q,
        r,
    );
}

/// Two durations count the same microseconds exactly when they have the same
/// whole seconds and the same whole microseconds below the second.
pub proof fn lemma_micros_injective(secs1: u64, nanos1: u32, secs2: u64, nanos2: u32)
    requires
        nanos1 < 1_000_000_000,
        nanos2 < 1_000_000_000,
    ensures
        spec_micros(secs1, nanos1) == spec_micros(secs2, nanos2) <==> (secs1 == secs2
            && nanos1 / 1000 == nanos2 / 1000),
{
    lemma_micros_split(secs1, nanos1);
    lemma_micros_split(secs2, nanos2);
}

/// A microsecond count as a `u64` timestamp, keeping its low 64 bits as an
/// `as` conversion does.
pub fn timestamp_from_micros(micros: u128) -> (ts: u64)
    ensures
        ts as int == micros as int % 0x1_0000_0000_0000_0000,
{
    let ts = micros as u64;
    assert(ts == micros % 0x1_0000_0000_0000_0000) by (bit_vector)
        requires
            ts == micros as u64,
    ;
    ts
}

/// A later duration (more seconds, or as many and no fewer nanoseconds,
/// these below one billion) counts no fewer microseconds, and, while the
/// count stays below 2^64, no smaller timestamp.
pub proof fn lemma_timestamp_monotone(secs1: u64, nanos1: u32, secs2: u64, nanos2: u32)
    requires
        nanos1 < 1_000_000_000,
        nanos2 < 1_000_000_000,
        secs1 < secs2 || (secs1 == secs2 && nanos1 <= nanos2),
    ensures
        spec_micros(secs1, nanos1) <= spec_micros(secs2, nanos2),
        spec_micros(secs2, nanos2) < 0x1_0000_0000_0000_0000 ==> spec_micros(secs1, nanos1)
            % 0x1_0000_0000_0000_0000 <= spec_micros(secs2, nanos2) % 0x1_0000_0000_0000_0000,
{
    assert(nanos1 / 1000 < 1_000_000);
    if secs1 < secs2 {
        assert(secs1 * 1_000_000 + 1_000_000 <= secs2 * 1_000_000) by (nonlinear_arith)
            requires
                secs1 < secs2,
        ;
    } else {
        assert(nanos1 / 1000 <= nanos2 / 1000) by (nonlinear_arith)
            requires
                nanos1 <= nanos2,
        ;
    }
}

/// The system clock in microseconds since the Unix epoch (low 64 bits);
/// `None` when the clock reads a time before the epoch.
pub fn timestamp_us() -> (ts: Option<u64>)
    ensures
        ts matches Some(t) ==> exists|secs: u64, nanos: u32|
            nanos < 1_000_000_000 && t as int == #[trigger] spec_micros(secs, nanos)
                % 0x1_0000_0000_0000_0000,
{
    let now = system_now();
    match since_unix_epoch(&now) {
        Ok(d) => {
            let secs = duration_secs(&d);
            let nanos = duration_subsec_nanos(&d);
            let t = timestamp_from_micros(micros_from_parts(secs, nanos));
            assert(nanos < 1_000_000_000 && t as int == spec_micros(secs, nanos)
                % 0x1_0000_0000_0000_0000);
            Some(t)
        },
        Err(_) => None,
    }
}

} // verus!
