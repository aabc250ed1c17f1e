//! Calendar dates as (year, month, day), ordered chronologically.

use core::cmp::Ordering;
use vstd::prelude::*;
use vstd::std_specs::cmp::PartialOrdSpecImpl;

verus! {

/// A date as (year, month, day).
#[derive(Debug, Clone, Copy, PartialEq, Eq, Structural, Ord)]
pub struct SimpleDate(pub u32, pub u32, pub u32);

/// Compares two numbers.
pub open spec fn compare_u32(a: u32, b: u32) -> Ordering {
    if a < b {
        Ordering::Less
    } else if a == b {
        Ordering::Equal
    } else {
        Ordering::Greater
    }
}

/// Dates compare by year, then month, then day.
pub open spec fn compare_dates(a: SimpleDate, b: SimpleDate) -> Ordering {
    if a.0 != b.0 {
        compare_u32(a.0, b.0)
    } else if a.1 != b.1 {
        compare_u32(a.1, b.1)
    } else {
        compare_u32(a.2, b.2)
    }
}

/// `a` comes before `b`.
pub open spec fn date_before(a: SimpleDate, b: SimpleDate) -> bool {
    ||| a.0 < b.0
    ||| a.0 == b.0 && a.1 < b.1
    ||| a.0 == b.0 && a.1 == b.1 && a.2 < b.2
}

impl PartialOrd for SimpleDate {
    fn partial_cmp(&self, other: &Self) -> (r: Option<Ordering>) {
        if self.0 < other.0 {
            Some(Ordering::Less)
        } else if self.0 > other.0 {
            Some(Ordering::Greater)
        } else if self.1 < other.1 {
            Some(Ordering::Less)
        } else if self.1 > other.1 {
            Some(Ordering::Greater)
        } else if self.2 < other.2 {
            Some(Ordering::Less)
        } else if self.2 > other.2 {
            Some(Ordering::Greater)
        } else {
            Some(Ordering::Equal)
        }
    }
}

impl PartialOrdSpecImpl for SimpleDate {
    open spec fn obeys_partial_cmp_spec() -> bool {
        true
    }

    open spec fn partial_cmp_spec(&self, other: &Self) -> Option<Ordering> {
        Some(compare_dates(*self, *other))
    }
}

/// Dates are ordered chronologically: `a < b` exactly when `a` has the
/// earlier year, or the same year and an earlier month, or the same year
/// and month and an earlier day; and the order is total.
pub proof fn law_date_order(a: SimpleDate, b: SimpleDate, c: SimpleDate)
    ensures
        compare_dates(a, b) == Ordering::Less <==> date_before(a, b),
        compare_dates(a, b) == Ordering::Equal <==> a == b,
        compare_dates(a, b) == Ordering::Greater <==> date_before(b, a),
        date_before(a, b) && date_before(b, c) ==> date_before(a, c),
        !(date_before(a, b) && date_before(b, a)),
{
}

} // verus!
