//! Points in time, held as plain integers: whole seconds since the Unix
//! epoch and the nanoseconds within the second.

use vstd::prelude::*;

verus! {

/// The earliest second that the calendar can name: midnight of
/// 1 January of the year -262143.
pub const MIN_UNIX_SECS: i64 = -8_334_601_228_800;

/// The latest second that the calendar can name: the last second of
/// 31 December of the year 262142.
pub const MAX_UNIX_SECS: i64 = 8_210_266_876_799;

pub const NANOS_PER_SEC: u32 = 1_000_000_000;

pub const SECS_PER_DAY: i64 = 86_400;

/// The number of 100-nanosecond ticks between 1 January 1601, where the
/// volume's clock starts, and the Unix epoch.
pub const FILETIME_EPOCH_OFFSET: u64 = 116_444_736_000_000_000;

pub const TICKS_PER_SEC: u64 = 10_000_000;

/// A point in time. A value below `NANOS_PER_SEC` in `nanos` is the
/// fraction of the second; a larger one marks a leap second.
#[derive(Clone, Copy, Debug, PartialEq, Eq, Structural)]
pub struct Timestamp {
    pub secs: i64,
    pub nanos: u32,
}

/// Whether the calendar has a date and time for this count. A leap second
/// can only be the last second of a minute.
pub open spec fn representable(secs: int, nanos: int) -> bool {
    &&& MIN_UNIX_SECS <= secs <= MAX_UNIX_SECS
    &&& 0 <= nanos < 2 * NANOS_PER_SEC
    &&& (nanos >= NANOS_PER_SEC ==> secs % 60 == 59)
}

/// `a` is strictly earlier than `b`.
pub open spec fn earlier(a: Timestamp, b: Timestamp) -> bool {
    a.secs < b.secs || (a.secs == b.secs && a.nanos < b.nanos)
}

/// What a tick count of the volume's clock stands for: nothing below the
/// Unix epoch, else the second and the nanoseconds past it.
pub open spec fn filetime_value(ticks: u64) -> Option<Timestamp> {
    if ticks < FILETIME_EPOCH_OFFSET {
        None
    } else {
        let since = ticks - FILETIME_EPOCH_OFFSET;
        Some(
            Timestamp {
                secs: (since / TICKS_PER_SEC as int) as i64,
                nanos: ((since % TICKS_PER_SEC as int) * 100) as u32,
            },
        )
    }
}

/// `t` moved back by `days` whole days, where the calendar still reaches.
pub open spec fn days_before(t: Timestamp, days: int) -> Option<Timestamp> {
    let secs = t.secs - days * SECS_PER_DAY;
    if representable(secs, t.nanos as int) {
        Some(Timestamp { secs: secs as i64, nanos: t.nanos })
    } else {
        None
    }
}

impl Timestamp {
    pub open spec fn valid(self) -> bool {
        representable(self.secs as int, self.nanos as int)
    }

    /// The time `secs` seconds and `nanos` nanoseconds after the Unix
    /// epoch, if the calendar reaches it.
    pub fn from_unix(secs: i64, nanos: u32) -> (r: Option<Timestamp>)
        ensures
            r == if representable(secs as int, nanos as int) {
                Some(Timestamp { secs, nanos })
            } else {
                None
            },
    {
        if secs < MIN_UNIX_SECS || secs > MAX_UNIX_SECS || nanos >= 2 * NANOS_PER_SEC {
            return None;
        }
        if nanos >= NANOS_PER_SEC {
            // MIN_UNIX_SECS starts a minute, so the offset from it tells the second of the minute
            let offset: i64 = secs - MIN_UNIX_SECS;
            if offset % 60 != 59 {
                return None;
            }
        }
        Some(Timestamp { secs, nanos })
    }

    /// Converts a tick count of the volume's clock.
    pub fn from_filetime(ticks: u64) -> (r: Option<Timestamp>)
        ensures
            r == filetime_value(ticks),
            r matches Some(t) ==> t.valid() && t.nanos < NANOS_PER_SEC && t.secs >= 0,
    {
        if ticks < FILETIME_EPOCH_OFFSET {
            return None;
        }
        let since: u64 = ticks - FILETIME_EPOCH_OFFSET;
        let secs: u64 = since / TICKS_PER_SEC;
        let sub: u64 = since % TICKS_PER_SEC;
        Some(Timestamp { secs: secs as i64, nanos: (sub * 100) as u32 })
    }

    pub fn is_before(&self, other: &Timestamp) -> (r: bool)
        ensures
            r == earlier(*self, *other),
    {
        self.secs < other.secs || (self.secs == other.secs && self.nanos < other.nanos)
    }

    pub fn is_after(&self, other: &Timestamp) -> (r: bool)
        ensures
            r == earlier(*other, *self),
    {
        other.is_before(self)
    }

    /// This time moved back by `days` days (forward for a negative count).
    pub fn minus_days(&self, days: i64) -> (r: Option<Timestamp>)
        ensures
            r == days_before(*self, days as int),
    {
        let shift: i128 = SECS_PER_DAY as i128 * days as i128;
        let moved: i128 = self.secs as i128 - shift;
        if moved < MIN_UNIX_SECS as i128 || moved > MAX_UNIX_SECS as i128 {
            return None;
        }
        Timestamp::from_unix(moved as i64, self.nanos)
    }
}

} // verus!
