//! The time at which the system was started.

use vstd::prelude::*;
use crate::decoder::{rest_after, value_of, Decoder, Endianness};
use crate::error::Error;

verus! {

/// Microseconds in a second.
pub const MICROS_PER_SECOND: u64 = 1_000_000;

/// The time of the start of the system, in microseconds since the epoch.
#[derive(Clone, Copy, Debug, PartialEq, Eq, Structural)]
pub struct BootTime {
    pub micros: u64,
}

/// A span of time in days, hours, minutes and seconds.
#[derive(Clone, Copy, Debug, PartialEq, Eq, Structural)]
pub struct Uptime {
    pub days: u64,
    pub hours: u64,
    pub minutes: u64,
    pub seconds: u64,
}

/// The start that the stream describes: seconds since the epoch and
/// microseconds beyond them, eight bytes each.
pub open spec fn boot_time_of(bytes: Seq<u8>, order: Endianness) -> Result<BootTime, Error> {
    if bytes.len() < 16 {
        Err(Error::CorruptBinaryStream)
    } else {
        let seconds = value_of(bytes.subrange(0, 8), order);
        let beyond = value_of(bytes.subrange(8, 16), order);
        if seconds * MICROS_PER_SECOND + beyond > u64::MAX {
            Err(Error::CounterOutOfRange)
        } else {
            Ok(BootTime { micros: (seconds * MICROS_PER_SECOND + beyond) as u64 })
        }
    }
}

/// `seconds` as days, hours below a day, minutes below an hour and seconds
/// below a minute.
pub open spec fn uptime_of(seconds: u64) -> Uptime {
    Uptime {
        days: seconds / 86400,
        hours: seconds % 86400 / 3600,
        minutes: seconds % 3600 / 60,
        seconds: seconds % 60,
    }
}

impl BootTime {
    /// Reads the time of the start.
    pub fn parse(decoder: &mut Decoder) -> (boot_time: Result<BootTime, Error>)
        requires
            old(decoder).wf(),
        ensures
            final(decoder).wf(),
            final(decoder).order() == old(decoder).order(),
            boot_time == boot_time_of(old(decoder).remaining(), old(decoder).order()),
            final(decoder).remaining() == rest_after(rest_after(old(decoder).remaining(), 8), 8),
    {
        let ghost bytes = decoder.remaining();
        let seconds = match decoder.read_u64() {
            Ok(value) => value,
            Err(error) => {
                return Err(error);
            },
        };
        let beyond = match decoder.read_u64() {
            Ok(value) => value,
            Err(error) => {
                return Err(error);
            },
        };
        proof {
            assert(bytes.skip(8).take(8) =~= bytes.subrange(8, 16));
        }
        let micros = match seconds.checked_mul(MICROS_PER_SECOND) {
            Some(micros) => micros,
            None => {
                return Err(Error::CounterOutOfRange);
            },
        };
        match micros.checked_add(beyond) {
            Some(micros) => Ok(BootTime { micros }),
            None => Err(Error::CounterOutOfRange),
        }
    }

    /// The time for which the system has been up at `now_micros`, which
    /// counts microseconds since the epoch. A start that lies after `now` is
    /// an error.
    pub fn uptime(&self, now_micros: u64) -> (uptime: Result<Uptime, Error>)
        ensures
            now_micros >= self.micros ==> uptime == Ok::<Uptime, Error>(
                uptime_of(((now_micros - self.micros) / MICROS_PER_SECOND as int) as u64),
            ),
            now_micros < self.micros ==> uptime == Err::<Uptime, Error>(Error::ClockWentBack),
    {
        if now_micros < self.micros {
            return Err(Error::ClockWentBack);
        }
        let seconds = (now_micros - self.micros) / MICROS_PER_SECOND;
        Ok(
            Uptime {
                days: seconds / 86400,
                hours: seconds % 86400 / 3600,
                minutes: seconds % 3600 / 60,
                seconds: seconds % 60,
            },
        )
    }
}

} // verus!
