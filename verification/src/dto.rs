//! The `Day` entity and the transient references that name one.

use vstd::prelude::*;

use crate::date::Date;

verus! {

/// A persisted record pairing a store-assigned unique identifier with a
/// calendar date. Created lazily on first resolution request for its date;
/// never updated, never deleted.
#[derive(Clone, Copy, PartialEq, Eq, Structural, Debug)]
pub struct Day {
    /// Store-assigned identifier, unique across all `Day` rows.
    pub id: u64,
    /// The calendar date this record represents, unique across all rows.
    pub date: Date,
}

impl Day {
    /// Pairs an identifier with a date.
    pub fn new(id: u64, date: Date) -> (r: Day)
        ensures
            r.id == id,
            r.date == date,
    {
        Day { id, date }
    }
}

/// A transient, not-persisted handle on a `Day`: either a bare identifier,
/// which needs a store lookup to become a `Day`, or an already-resolved
/// value, which needs none.
#[derive(Clone, Copy, PartialEq, Eq, Structural, Debug)]
pub enum DayReference {
    /// Carries only an identifier.
    Id(u64),
    /// Carries a fully resolved `Day`.
    Value(Day),
}

impl DayReference {
    /// A reference by identifier.
    pub fn by_id(id: u64) -> (r: DayReference)
        ensures
            r == DayReference::Id(id),
    {
        DayReference::Id(id)
    }

    /// A reference by already-resolved value.
    pub fn by_value(day: Day) -> (r: DayReference)
        ensures
            r == DayReference::Value(day),
    {
        DayReference::Value(day)
    }
}

} // verus!
