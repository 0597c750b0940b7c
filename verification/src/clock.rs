//! The native `clock()` function and the system clock it reads.

use vstd::prelude::*;
use crate::error::RuntimeError;
use crate::number::{ieee_add, ieee_div, ieee_from_u128, Number};
use crate::value::Value;

verus! {

#[verifier::external_type_specification]
#[verifier::external_body]
pub struct ExSystemTime(std::time::SystemTime);

/// The current time (`std::time::SystemTime::now`); nothing is known of it.
#[verifier::external_body]
fn system_now() -> (t: std::time::SystemTime) {
    std::time::SystemTime::now()
}

/// The time elapsed from the Unix epoch to `t`
/// (`SystemTime::duration_since(UNIX_EPOCH)`), or `None` where `t` is earlier.
#[verifier::external_body]
fn since_epoch(t: &std::time::SystemTime) -> (d: Option<core::time::Duration>) {
    match t.duration_since(std::time::UNIX_EPOCH) {
        Ok(d) => Some(d),
        Err(_) => None,
    }
}

/// The whole seconds of a duration (`Duration::as_secs`).
#[verifier::external_body]
fn duration_secs(d: &core::time::Duration) -> (s: u64) {
    d.as_secs()
}

/// The nanoseconds of a duration past its whole seconds
/// (`Duration::subsec_nanos`), documented to be below one billion.
#[verifier::external_body]
fn duration_subsec_nanos(d: &core::time::Duration) -> (n: u32)
    ensures
        n < 1_000_000_000,
{
    d.subsec_nanos()
}

/// The native `clock()` function: the seconds since the Unix epoch.
#[derive(Debug, Clone, Copy, PartialEq, Eq, Structural)]
pub struct ClockFunction;

impl ClockFunction {
    /// `clock()` takes no arguments.
    pub fn arity(&self) -> (r: usize)
        ensures
            r == 0,
    {
        0
    }

    /// The seconds since the Unix epoch, with their fraction. A clock set
    /// before the epoch is an error. The reading depends on the time; what
    /// is made of it is `seconds_since_epoch`.
    pub fn call(&self) -> (r: Result<Value, RuntimeError>)
        ensures
            r matches Ok(v) ==> (v matches Value::Num(n) && exists|s: u64, ns: u32| ns < 1_000_000_000
                && n.bits == epoch_seconds(s, ns)),
            r matches Err(e) ==> e.0@ == "system time is before the Unix epoch"@,
    {
        let now = system_now();
        match since_epoch(&now) {
            Some(d) => {
                let secs = duration_secs(&d);
                let nanos = duration_subsec_nanos(&d);
                Ok(Value::Num(seconds_since_epoch(secs, nanos)))
            },
            None => Err(RuntimeError(crate::text::text_of("system time is before the Unix epoch"))),
        }
    }
}

/// The number for `secs` whole seconds and `nanos` nanoseconds: the seconds,
/// plus the nanoseconds divided by one billion, each step rounded to nearest.
pub open spec fn epoch_seconds(secs: u64, nanos: u32) -> u64 {
    ieee_add(ieee_from_u128(secs as u128), ieee_div(ieee_from_u128(nanos as u128), ieee_from_u128(1_000_000_000u128)))
}

/// The number of seconds in a time read as whole seconds and nanoseconds.
pub fn seconds_since_epoch(secs: u64, nanos: u32) -> (r: Number)
    requires
        nanos < 1_000_000_000,
    ensures
        r.bits == epoch_seconds(secs, nanos),
{
    let whole = Number::from_u128(secs as u128);
    let part = Number::from_u128(nanos as u128).div(Number::from_u128(1_000_000_000u128));
    whole.add(part)
}

} // verus!
