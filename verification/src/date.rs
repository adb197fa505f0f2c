//! Dates as the transport counts them: the signed number of nanoseconds
//! since the epoch. A date before the epoch has a negative number.

use vstd::prelude::*;

verus! {

/// How far a date lies from the epoch, and on which side.
#[derive(Debug, Clone, Copy, PartialEq, Eq, Structural)]
pub struct EpochOffset {
    /// Whether the date lies before the epoch.
    pub before_epoch: bool,
    /// The distance from the epoch in nanoseconds.
    pub nanos: u64,
}

/// The distance of a date from the epoch, and its side.
pub open spec fn offset_of(nanos: i64) -> EpochOffset {
    EpochOffset {
        before_epoch: nanos < 0,
        nanos: (if nanos < 0 {
            -nanos
        } else {
            nanos as int
        }) as u64,
    }
}

/// Whether a date at this distance and on this side can be counted.
pub open spec fn is_date(offset: EpochOffset) -> bool {
    if offset.before_epoch {
        0 < offset.nanos <= 0x8000_0000_0000_0000
    } else {
        offset.nanos <= 0x7fff_ffff_ffff_ffff
    }
}

/// The date at this distance from the epoch, on this side.
pub open spec fn date_at(offset: EpochOffset) -> int {
    if offset.before_epoch {
        -(offset.nanos as int)
    } else {
        offset.nanos as int
    }
}

/// Splits a date into its distance from the epoch and its side.
pub fn date_to_offset(nanos: i64) -> (offset: EpochOffset)
    ensures
        offset == offset_of(nanos),
        is_date(offset),
        date_at(offset) == nanos,
{
    if nanos < 0 {
        // The distance of the earliest date is one more than the latest
        // date's.
        let short: i64 = -(nanos + 1);
        EpochOffset { before_epoch: true, nanos: short as u64 + 1 }
    } else {
        EpochOffset { before_epoch: false, nanos: nanos as u64 }
    }
}

/// The date at the given distance from the epoch, on the given side, if it
/// can be counted. The epoch itself lies on the side after.
pub fn date_from_offset(offset: EpochOffset) -> (nanos: Option<i64>)
    ensures
        nanos is Some <==> is_date(offset),
        nanos matches Some(date) ==> date == date_at(offset),
{
    if offset.before_epoch {
        if offset.nanos == 0 || offset.nanos > 0x8000_0000_0000_0000 {
            None
        } else {
            let short: u64 = offset.nanos - 1;
            Some(-(short as i64) - 1)
        }
    } else if offset.nanos > 0x7fff_ffff_ffff_ffff {
        None
    } else {
        Some(offset.nanos as i64)
    }
}

/// Every date is found again from its distance and its side.
pub proof fn lemma_date_round_trip(nanos: i64)
    ensures
        is_date(offset_of(nanos)),
        date_at(offset_of(nanos)) == nanos,
{
}

} // verus!
