//! Registration-secret lifetimes.
//!
//! The registration service reports the remaining lifetime of a registration
//! secret as a duration string in the form `[-][d.]hh:mm:ss[.fffffff]`.  A
//! negative duration counts as zero; the fractional part is ignored; the
//! string must contain at least three `:`-separated fields.

use vstd::prelude::*;

use crate::bytes::{digits_val, find_byte, is_digits, lemma_find_byte_bounds, parse_u64_digits};
use crate::query::find_byte_in_range;

verus! {

/// The digit run before the first `.` of `p`, or all of `p`.
pub open spec fn before_dot(p: Seq<u8>) -> Seq<u8> {
    match find_byte(p, 46) {
        Option::None => p,
        Option::Some(i) => p.take(i),
    }
}

/// The day and hour fields of the first `:`-separated part: `d.hh` carries
/// both, a part without `.` carries hours only.
pub open spec fn day_part(p: Seq<u8>) -> Option<Seq<u8>> {
    match find_byte(p, 46) {
        Option::None => Option::None,
        Option::Some(i) => Option::Some(p.take(i)),
    }
}

pub open spec fn hour_part(p: Seq<u8>) -> Seq<u8> {
    match find_byte(p, 46) {
        Option::None => p,
        Option::Some(i) => before_dot(p.skip(i + 1)),
    }
}

/// The value of one numeric field, when it is a digit run that fits 64 bits.
pub open spec fn field_val(p: Seq<u8>) -> Option<nat> {
    if is_digits(p) && digits_val(p) <= u64::MAX {
        Option::Some(digits_val(p))
    } else {
        Option::None
    }
}

/// The seconds a lifetime string denotes: zero for a negative duration, and
/// `days * 86400 + hours * 3600 + minutes * 60 + seconds` otherwise, where
/// the string provides the fields as `[d.]hh:mm:ss[.fffffff]`.  `None` when
/// a field is malformed, a `:` is missing, or the total exceeds 64 bits.
pub open spec fn lifetime_secs(s: Seq<u8>) -> Option<nat> {
    if s.len() > 0 && s[0] == 45 {
        Option::Some(0)
    } else {
        match find_byte(s, 58) {
            Option::None => Option::None,
            Option::Some(i) => {
                let rest1 = s.skip(i + 1);
                match find_byte(rest1, 58) {
                    Option::None => Option::None,
                    Option::Some(j) => {
                        let rest2 = rest1.skip(j + 1);
                        let part2 = match find_byte(rest2, 58) {
                            Option::None => rest2,
                            Option::Some(k) => rest2.take(k),
                        };
                        let days = match day_part(s.take(i)) {
                            Option::None => Option::Some(0nat),
                            Option::Some(d) => field_val(d),
                        };
                        let hours = field_val(hour_part(s.take(i)));
                        let minutes = field_val(rest1.take(j));
                        let seconds = field_val(before_dot(part2));
                        match (days, hours, minutes, seconds) {
                            (
                                Option::Some(d),
                                Option::Some(h),
                                Option::Some(m),
                                Option::Some(sec),
                            ) => {
                                let total = d * 86400 + h * 3600 + m * 60 + sec;
                                if total <= u64::MAX {
                                    Option::Some(total)
                                } else {
                                    Option::None
                                }
                            },
                            _ => Option::None,
                        }
                    },
                }
            },
        }
    }
}

/// A duration reported by the registration service, in whole seconds.
pub struct DurationWrapper {
    pub secs: u64,
}

impl DurationWrapper {
    /// The whole seconds of this duration.
    pub fn as_secs(&self) -> (r: u64)
        ensures
            r == self.secs,
    {
        self.secs
    }

    /// Parses a lifetime string, given as its UTF-8 bytes.
    pub fn parse(s: &[u8]) -> (r: Option<DurationWrapper>)
        ensures
            match lifetime_secs(s@) {
                Option::None => r is None,
                Option::Some(n) => r matches Some(w) && w.secs == n,
            },
    {
        if s.len() > 0 && s[0] == 45 {
            return Option::Some(DurationWrapper { secs: 0 });
        }
        let s_len = s.len();
        proof {
            lemma_find_byte_bounds(s@, 58);
        }
        let first = match find_byte_in_range(s, 58, 0, s_len) {
            Option::None => {
                proof {
                    assert(s@.subrange(0, s@.len() as int) =~= s@);
                }
                return Option::None;
            },
            Option::Some(i) => {
                proof {
                    assert(s@.subrange(0, s@.len() as int) =~= s@);
                }
                i
            },
        };
        let ghost rest1 = s@.skip(first as int + 1);
        proof {
            lemma_find_byte_bounds(rest1, 58);
            assert(s@.subrange(first as int + 1, s@.len() as int) =~= rest1);
        }
        let second = match find_byte_in_range(s, 58, first + 1, s_len) {
            Option::None => {
                return Option::None;
            },
            Option::Some(j) => j,
        };
        let ghost rest2 = rest1.skip(second - first);
        proof {
            lemma_find_byte_bounds(rest2, 58);
            assert(s@.subrange(second as int + 1, s@.len() as int) =~= rest2);
        }
        let part2_end = match find_byte_in_range(s, 58, second + 1, s_len) {
            Option::None => s_len,
            Option::Some(k) => k,
        };
        proof {
            match find_byte(rest2, 58) {
                Option::Some(third) => {
                    assert(rest2.take(third) =~= s@.subrange(
                        second as int + 1,
                        second + 1 + third,
                    ));
                },
                Option::None => {},
            }
        }
        // `s[second + 1 .. part2_end]` is the seconds field with its fraction.
        proof {
            assert(s@.take(first as int) =~= s@.subrange(0, first as int));
        }
        let (days, hours) = match Self::parse_day_hour(s, 0, first) {
            Option::None => {
                return Option::None;
            },
            Option::Some(dh) => dh,
        };
        let minutes = match parse_u64_digits(s, first + 1, second) {
            Option::None => {
                proof {
                    assert(rest1.take(second - first - 1) =~= s@.subrange(
                        first as int + 1,
                        second as int,
                    ));
                }
                return Option::None;
            },
            Option::Some(m) => {
                proof {
                    assert(rest1.take(second - first - 1) =~= s@.subrange(
                        first as int + 1,
                        second as int,
                    ));
                }
                m
            },
        };
        let seconds = match Self::parse_before_dot(s, second + 1, part2_end) {
            Option::None => {
                return Option::None;
            },
            Option::Some(v) => v,
        };
        let d_part = match days.checked_mul(86400) {
            Option::None => {
                return Option::None;
            },
            Option::Some(v) => v,
        };
        let h_part = match hours.checked_mul(3600) {
            Option::None => {
                return Option::None;
            },
            Option::Some(v) => v,
        };
        let m_part = match minutes.checked_mul(60) {
            Option::None => {
                return Option::None;
            },
            Option::Some(v) => v,
        };
        let dh = match d_part.checked_add(h_part) {
            Option::None => {
                return Option::None;
            },
            Option::Some(v) => v,
        };
        let dhm = match dh.checked_add(m_part) {
            Option::None => {
                return Option::None;
            },
            Option::Some(v) => v,
        };
        let total = match dhm.checked_add(seconds) {
            Option::None => {
                return Option::None;
            },
            Option::Some(v) => v,
        };
        Option::Some(DurationWrapper { secs: total })
    }

    /// Parses the `[d.]hh` field `s[from..to]` into days and hours.
    fn parse_day_hour(s: &[u8], from: usize, to: usize) -> (r: Option<(u64, u64)>)
        requires
            from <= to <= s@.len(),
        ensures
            ({
                let p = s@.subrange(from as int, to as int);
                let days = match day_part(p) {
                    Option::None => Option::Some(0nat),
                    Option::Some(d) => field_val(d),
                };
                let hours = field_val(hour_part(p));
                match (days, hours) {
                    (Option::Some(d), Option::Some(h)) => r matches Some(dh) && dh.0 == d && dh.1
                        == h,
                    _ => r is None,
                }
            }),
    {
        let ghost p = s@.subrange(from as int, to as int);
        proof {
            lemma_find_byte_bounds(p, 46);
        }
        match find_byte_in_range(s, 46, from, to) {
            Option::None => {
                match parse_u64_digits(s, from, to) {
                    Option::None => Option::None,
                    Option::Some(h) => Option::Some((0, h)),
                }
            },
            Option::Some(dot) => {
                proof {
                    assert(p.take(dot - from) =~= s@.subrange(from as int, dot as int));
                    assert(p.skip(dot - from + 1) =~= s@.subrange(dot as int + 1, to as int));
                }
                let days = match parse_u64_digits(s, from, dot) {
                    Option::None => {
                        return Option::None;
                    },
                    Option::Some(d) => d,
                };
                match Self::parse_before_dot(s, dot + 1, to) {
                    Option::None => Option::None,
                    Option::Some(h) => Option::Some((days, h)),
                }
            },
        }
    }

    /// Parses the digits before the first `.` of `s[from..to]`.
    fn parse_before_dot(s: &[u8], from: usize, to: usize) -> (r: Option<u64>)
        requires
            from <= to <= s@.len(),
        ensures
            ({
                let p = s@.subrange(from as int, to as int);
                match field_val(before_dot(p)) {
                    Option::None => r is None,
                    Option::Some(v) => r matches Some(u) && u == v,
                }
            }),
    {
        let ghost p = s@.subrange(from as int, to as int);
        proof {
            lemma_find_byte_bounds(p, 46);
        }
        match find_byte_in_range(s, 46, from, to) {
            Option::None => parse_u64_digits(s, from, to),
            Option::Some(dot) => {
                proof {
                    assert(p.take(dot - from) =~= s@.subrange(from as int, dot as int));
                }
                parse_u64_digits(s, from, dot)
            },
        }
    }
}

} // verus!
