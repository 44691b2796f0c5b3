//! The receiver's media clock. Moments are nanoseconds on the local monotonic clock, counted
//! from a fixed start.

use crate::failure::Failure;
use crate::text::{chars_of, parse_unsigned, unsigned_value};
use vstd::prelude::*;

verus! {

/// The number of values of a 64-bit counter.
pub open spec fn two_64() -> int {
    0x1_0000_0000_0000_0000
}

/// The receiver's time at one local moment, and the timeline that it belongs to.
#[derive(Clone, Copy, Debug, PartialEq, Eq, Structural)]
pub struct Clock {
    pub anchor: u64,
    pub nanos: u64,
    pub timeline: u64,
}

/// What the two timing headers of a response say, in nanoseconds of the receiver's clock.
pub open spec fn reported_nanos(received: Option<Seq<char>>, processing: Option<Seq<char>>) -> Result<
    nat,
    Failure,
> {
    match received {
        None => Err(Failure::NoTimestamp),
        Some(received) => match unsigned_value(received, u64::MAX as nat) {
            None => Err(Failure::Timestamp),
            Some(millis) => {
                let spent = match processing {
                    None => Some(0nat),
                    Some(processing) => unsigned_value(processing, u64::MAX as nat),
                };
                match spent {
                    None => Err(Failure::Timestamp),
                    Some(spent) => if (millis + spent) * 1_000_000 <= u64::MAX {
                        Ok((millis + spent) * 1_000_000)
                    } else {
                        Err(Failure::ClockOverflow)
                    },
                }
            },
        },
    }
}

pub open spec fn view_of(text: Option<&str>) -> Option<Seq<char>> {
    match text {
        None => None,
        Some(text) => Some(text@),
    }
}

impl Clock {
    /// The receiver's time at a local moment: never negative, and cut to 64 bits.
    pub open spec fn reading(self, time: int) -> int {
        if self.nanos + time - self.anchor < 0 {
            0
        } else {
            (self.nanos + time - self.anchor) % two_64()
        }
    }

    pub fn at(&self, time: u128) -> (r: u64)
        ensures
            r == self.reading(time as int),
    {
        let anchor = self.anchor as u128;
        if time >= anchor {
            let ahead = time - anchor;
            let sum = (self.nanos as u128).wrapping_add(ahead);
            proof {
                assert(sum as u64 == sum % 0x1_0000_0000_0000_0000) by (bit_vector);
                let exact = self.nanos + ahead;
                if exact > u128::MAX {
                    assert(sum == exact - 0x1_0000_0000_0000_0000_0000_0000_0000_0000int);
                    assert(0x1_0000_0000_0000_0000_0000_0000_0000_0000int == two_64() * two_64())
                        by (nonlinear_arith)
                        requires
                            two_64() == 0x1_0000_0000_0000_0000int,
                    ;
                    vstd::arithmetic::div_mod::lemma_mod_multiples_vanish(
                        -two_64(),
                        exact,
                        two_64(),
                    );
                }
            }
            sum as u64
        } else {
            let behind = (anchor - time) as u64;
            if behind >= self.nanos {
                0
            } else {
                self.nanos - behind
            }
        }
    }

    /// Sets the clock from the timing headers of a response that arrived at `now`.
    pub fn update(&mut self, received: Option<&str>, processing: Option<&str>, now: u64) -> (r:
        Result<(), Failure>)
        ensures
            match reported_nanos(view_of(received), view_of(processing)) {
                Ok(nanos) => r == Ok::<(), Failure>(()) && *final(self) == (Clock {
                    anchor: now,
                    nanos: nanos as u64,
                    timeline: old(self).timeline,
                }),
                Err(error) => r == Err::<(), Failure>(error) && *final(self) == *old(self),
            },
    {
        let received = match received {
            None => {
                return Err(Failure::NoTimestamp);
            },
            Some(text) => text,
        };
        let millis = match parse_unsigned(&chars_of(received), u64::MAX) {
            None => {
                return Err(Failure::Timestamp);
            },
            Some(millis) => millis,
        };
        let spent = match processing {
            None => 0,
            Some(text) => match parse_unsigned(&chars_of(text), u64::MAX) {
                None => {
                    return Err(Failure::Timestamp);
                },
                Some(spent) => spent,
            },
        };
        let total = match millis.checked_add(spent) {
            None => {
                return Err(Failure::ClockOverflow);
            },
            Some(total) => total,
        };
        match total.checked_mul(1_000_000) {
            None => Err(Failure::ClockOverflow),
            Some(nanos) => {
                self.nanos = nanos;
                self.anchor = now;
                Ok(())
            },
        }
    }
}

/// As local time passes, the receiver's time passes with it, nanosecond for nanosecond.
pub proof fn clock_runs_at_local_rate(clock: Clock, time: int, later: int)
    requires
        clock.nanos + time >= clock.anchor,
        time <= later,
        clock.nanos + later - clock.anchor < two_64(),
    ensures
        clock.reading(later) - clock.reading(time) == later - time,
{
    vstd::arithmetic::div_mod::lemma_small_mod(
        (clock.nanos + time - clock.anchor) as nat,
        two_64() as nat,
    );
    vstd::arithmetic::div_mod::lemma_small_mod(
        (clock.nanos + later - clock.anchor) as nat,
        two_64() as nat,
    );
}

/// A time in nanoseconds as seconds in 32.32 fixed point, rounded down and cut to 64 bits.
pub open spec fn fixed_point(nanos: int) -> int {
    (nanos * 0x1_0000_0000 / 1_000_000_000) % two_64()
}

pub fn fixed_time(nanos: u64) -> (r: u64)
    ensures
        r == fixed_point(nanos as int),
{
    let seconds: u64 = nanos / 1_000_000_000;
    let rest: u64 = nanos % 1_000_000_000;
    let fraction: u64 = (rest as u128 * 0x1_0000_0000u128 / 1_000_000_000u128) as u64;
    proof {
        assert(fraction < 0x1_0000_0000);
        assert(fraction == rest * 0x1_0000_0000 / 1_000_000_000);
        assert((seconds << 32) | fraction == (seconds % 0x1_0000_0000) * 0x1_0000_0000 + fraction)
            by (bit_vector)
            requires
                fraction < 0x1_0000_0000u64,
        ;
        assert(nanos == seconds * 1_000_000_000 + rest);
        let whole = seconds * 0x1_0000_0000 + fraction;
        assert(nanos * 0x1_0000_0000 / 1_000_000_000 == whole);
        assert(whole % two_64() == (seconds % 0x1_0000_0000) * 0x1_0000_0000 + fraction);
    }
    (seconds << 32) | fraction
}

/// The nanoseconds of a time in 32.32 fixed point, rounded up.
pub open spec fn nanos_of(fixed: int) -> int {
    (fixed * 1_000_000_000 + 0xffff_ffff) / 0x1_0000_0000
}

/// The fixed-point form of a time keeps every nanosecond, up to the largest time that it can hold.
pub proof fn fixed_time_keeps_nanoseconds(nanos: u64)
    requires
        nanos < 0x1_0000_0000 * 1_000_000_000,
    ensures
        nanos_of(fixed_point(nanos as int)) == nanos,
{
}

/// Later times have later fixed-point forms, up to the largest time that they can hold.
pub proof fn fixed_time_keeps_order(nanos: u64, later: u64)
    requires
        nanos < later,
        later < 0x1_0000_0000 * 1_000_000_000,
    ensures
        fixed_point(nanos as int) < fixed_point(later as int),
{
}

} // verus!
