//! Calendar date-times as carried by the output application header:
//! `YYMMDDHHMM`, two-digit years mapped to 1969 through 2068, minute
//! precision, always UTC.

use vstd::prelude::*;

use crate::digits::all_digits;
use crate::digits::digits_val;
use crate::digits::lemma_digits_val_bound;
use crate::digits::parse_u32_digits;
use crate::strutil::chars_to_vec;

verus! {

/// A calendar date and wall-clock time, understood as UTC.
#[derive(Debug, Clone, Copy, PartialEq, Eq, Structural)]
pub struct UtcDateTime {
    pub year: u32,
    pub month: u32,
    pub day: u32,
    pub hour: u32,
    pub minute: u32,
}

pub open spec fn is_leap_year(y: int) -> bool {
    y % 4 == 0 && (y % 100 != 0 || y % 400 == 0)
}

pub open spec fn days_in_month(y: int, m: int) -> int {
    if m == 2 {
        if is_leap_year(y) {
            29
        } else {
            28
        }
    } else if m == 4 || m == 6 || m == 9 || m == 11 {
        30
    } else {
        31
    }
}

/// A value of `UtcDateTime` that names a real calendar instant.
pub open spec fn valid_datetime(d: UtcDateTime) -> bool {
    &&& 1969 <= d.year <= 2068
    &&& 1 <= d.month <= 12
    &&& 1 <= d.day <= days_in_month(d.year as int, d.month as int)
    &&& d.hour < 24
    &&& d.minute < 60
}

/// The century a two-digit year belongs to: 0 through 68 mean the 2000s,
/// 69 through 99 the 1900s.
pub open spec fn year_of_two_digit(y: int) -> int {
    if y <= 68 {
        2000 + y
    } else {
        1900 + y
    }
}

/// The instant denoted by ten digits `YYMMDDHHMM`, if they name a valid
/// calendar date and time.
pub open spec fn datetime_of(s: Seq<char>) -> Option<UtcDateTime> {
    if s.len() == 10 && all_digits(s) {
        let d = UtcDateTime {
            year: year_of_two_digit(digits_val(s.subrange(0, 2))) as u32,
            month: digits_val(s.subrange(2, 4)) as u32,
            day: digits_val(s.subrange(4, 6)) as u32,
            hour: digits_val(s.subrange(6, 8)) as u32,
            minute: digits_val(s.subrange(8, 10)) as u32,
        };
        if valid_datetime(d) {
            Some(d)
        } else {
            None
        }
    } else {
        None
    }
}

fn days_in_month_of(y: u32, m: u32) -> (r: u32)
    ensures
        r as int == days_in_month(y as int, m as int),
{
    if m == 2 {
        if y % 4 == 0 && (y % 100 != 0 || y % 400 == 0) {
            29
        } else {
            28
        }
    } else if m == 4 || m == 6 || m == 9 || m == 11 {
        30
    } else {
        31
    }
}

/// Parses ten characters `YYMMDDHHMM` as a calendar instant; `None`
/// exactly when a character is not a digit or the digits name no valid
/// date or time.
pub fn parse_yymmddhhmm(v: &Vec<char>) -> (r: Option<UtcDateTime>)
    ensures
        r == datetime_of(v@),
{
    if v.len() != 10 {
        return None;
    }
    let yy = match parse_u32_digits(&chars_to_vec(v, 0, 2)) {
        Some(n) => n,
        None => {
            proof {
                assert(!all_digits(v@)) by {
                    assert(exists|k: int|
                        0 <= k < 2 && !crate::digits::is_digit(v@.subrange(0, 2)[k]));
                    let k = choose|k: int|
                        0 <= k < 2 && !crate::digits::is_digit(v@.subrange(0, 2)[k]);
                    assert(v@.subrange(0, 2)[k] == v@[k]);
                }
            }
            return None;
        },
    };
    let mm = match parse_u32_digits(&chars_to_vec(v, 2, 4)) {
        Some(n) => n,
        None => {
            proof {
                assert(!all_digits(v@)) by {
                    let k = choose|k: int|
                        0 <= k < 2 && !crate::digits::is_digit(v@.subrange(2, 4)[k]);
                    assert(v@.subrange(2, 4)[k] == v@[k + 2]);
                }
            }
            return None;
        },
    };
    let dd = match parse_u32_digits(&chars_to_vec(v, 4, 6)) {
        Some(n) => n,
        None => {
            proof {
                assert(!all_digits(v@)) by {
                    let k = choose|k: int|
                        0 <= k < 2 && !crate::digits::is_digit(v@.subrange(4, 6)[k]);
                    assert(v@.subrange(4, 6)[k] == v@[k + 4]);
                }
            }
            return None;
        },
    };
    let hh = match parse_u32_digits(&chars_to_vec(v, 6, 8)) {
        Some(n) => n,
        None => {
            proof {
                assert(!all_digits(v@)) by {
                    let k = choose|k: int|
                        0 <= k < 2 && !crate::digits::is_digit(v@.subrange(6, 8)[k]);
                    assert(v@.subrange(6, 8)[k] == v@[k + 6]);
                }
            }
            return None;
        },
    };
    let mi = match parse_u32_digits(&chars_to_vec(v, 8, 10)) {
        Some(n) => n,
        None => {
            proof {
                assert(!all_digits(v@)) by {
                    let k = choose|k: int|
                        0 <= k < 2 && !crate::digits::is_digit(v@.subrange(8, 10)[k]);
                    assert(v@.subrange(8, 10)[k] == v@[k + 8]);
                }
            }
            return None;
        },
    };
    proof {
        assert(all_digits(v@)) by {
            assert forall|k: int| 0 <= k < 10 implies crate::digits::is_digit(v@[k]) by {
                if k < 2 {
                    assert(v@.subrange(0, 2)[k] == v@[k]);
                } else if k < 4 {
                    assert(v@.subrange(2, 4)[k - 2] == v@[k]);
                } else if k < 6 {
                    assert(v@.subrange(4, 6)[k - 4] == v@[k]);
                } else if k < 8 {
                    assert(v@.subrange(6, 8)[k - 6] == v@[k]);
                } else {
                    assert(v@.subrange(8, 10)[k - 8] == v@[k]);
                }
            }
        }
        lemma_digits_val_bound(v@.subrange(0, 2));
        assert(crate::digits::pow10(2) == 100) by {
            reveal_with_fuel(crate::digits::pow10, 3);
        }
    }
    let year: u32 = if yy <= 68 {
        2000 + yy
    } else {
        1900 + yy
    };
    let d = UtcDateTime { year, month: mm, day: dd, hour: hh, minute: mi };
    if 1 <= mm && mm <= 12 && 1 <= dd && dd <= days_in_month_of(year, mm) && hh < 24 && mi < 60 {
        Some(d)
    } else {
        None
    }
}

} // verus!
