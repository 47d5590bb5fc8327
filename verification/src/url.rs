//! Percent-encoding of topic property values.
//!
//! An outbound message's grouping identifiers travel in the publish topic as
//! `key=value` pairs, with each value percent-encoded: bytes that are ASCII
//! letters, digits or one of `-`, `.`, `_`, `~` stand for themselves, every
//! other byte becomes `%` and two upper-case hex digits.  Decoding reads `%XX`
//! back and leaves any malformed escape untouched.

use vstd::prelude::*;

verus! {

/// Bytes that a percent-encoded string keeps as they are.
pub open spec fn is_url_safe(b: u8) -> bool {
    (48 <= b <= 57) || (65 <= b <= 90) || (97 <= b <= 122) || b == 45 || b == 46 || b == 95 || b
        == 126
}

/// The upper-case hex digit of a value below 16.
pub open spec fn hex_upper(n: u8) -> u8 {
    if n < 10 {
        (48 + n) as u8
    } else {
        (55 + n) as u8
    }
}

/// The percent-encoding of `s`.
pub open spec fn url_encoded(s: Seq<u8>) -> Seq<u8>
    decreases s.len(),
{
    if s.len() == 0 {
        Seq::empty()
    } else if is_url_safe(s[0]) {
        seq![s[0]] + url_encoded(s.drop_first())
    } else {
        seq![37u8, hex_upper(s[0] / 16), hex_upper(s[0] % 16)] + url_encoded(s.drop_first())
    }
}

/// Whether `b` is a hex digit, and its value (0 where it is none).
pub open spec fn is_hex(b: u8) -> bool {
    (48 <= b <= 57) || (65 <= b <= 70) || (97 <= b <= 102)
}

pub open spec fn hex_val(b: u8) -> u8 {
    if 48 <= b <= 57 {
        (b - 48) as u8
    } else if 65 <= b <= 70 {
        (b - 55) as u8
    } else if 97 <= b <= 102 {
        (b - 87) as u8
    } else {
        0
    }
}

/// The percent-decoding of `s`: every `%` followed by two hex digits becomes
/// one byte; any other byte, including a malformed escape, stays as it is.
pub open spec fn url_decoded(s: Seq<u8>) -> Seq<u8>
    decreases s.len(),
{
    if s.len() == 0 {
        Seq::empty()
    } else if s[0] == 37 && s.len() >= 3 && is_hex(s[1]) && is_hex(s[2]) {
        seq![(16 * hex_val(s[1]) + hex_val(s[2])) as u8] + url_decoded(s.skip(3))
    } else {
        seq![s[0]] + url_decoded(s.drop_first())
    }
}

fn hex_upper_exec(n: u8) -> (r: u8)
    requires
        n < 16,
    ensures
        r == hex_upper(n),
{
    if n < 10 {
        48 + n
    } else {
        55 + n
    }
}

/// Percent-encodes `s`.
pub fn url_encode(s: &[u8]) -> (r: Vec<u8>)
    ensures
        r@ == url_encoded(s@),
{
    let mut out: Vec<u8> = Vec::new();
    proof {
        assert(s@.skip(0) =~= s@);
        assert(out@ + url_encoded(s@) =~= url_encoded(s@));
    }
    let mut k: usize = 0;
    while k < s.len()
        invariant
            k <= s@.len(),
            url_encoded(s@) == out@ + url_encoded(s@.skip(k as int)),
        decreases s@.len() - k,
    {
        proof {
            assert(s@.skip(k as int)[0] == s@[k as int]);
            assert(s@.skip(k as int).drop_first() =~= s@.skip(k as int + 1));
        }
        let ghost out0 = out@;
        let b = s[k];
        if (48 <= b && b <= 57) || (65 <= b && b <= 90) || (97 <= b && b <= 122) || b == 45 || b
            == 46 || b == 95 || b == 126 {
            out.push(b);
            proof {
                assert(out@ + url_encoded(s@.skip(k as int + 1)) =~= out0 + url_encoded(
                    s@.skip(k as int),
                ));
            }
        } else {
            out.push(37);
            out.push(hex_upper_exec(b / 16));
            out.push(hex_upper_exec(b % 16));
            proof {
                assert(out@ + url_encoded(s@.skip(k as int + 1)) =~= out0 + url_encoded(
                    s@.skip(k as int),
                ));
            }
        }
        k = k + 1;
    }
    proof {
        assert(s@.skip(k as int) =~= Seq::<u8>::empty());
        assert(out@ =~= out@ + url_encoded(s@.skip(k as int)));
    }
    out
}

fn is_hex_exec(b: u8) -> (r: bool)
    ensures
        r == is_hex(b),
{
    (48 <= b && b <= 57) || (65 <= b && b <= 70) || (97 <= b && b <= 102)
}

fn hex_val_exec(b: u8) -> (r: u8)
    ensures
        r == hex_val(b),
{
    if 48 <= b && b <= 57 {
        b - 48
    } else if 65 <= b && b <= 70 {
        b - 55
    } else if 97 <= b && b <= 102 {
        b - 87
    } else {
        0
    }
}

/// Percent-decodes `s`.
pub fn url_decode(s: &[u8]) -> (r: Vec<u8>)
    ensures
        r@ == url_decoded(s@),
{
    let mut out: Vec<u8> = Vec::new();
    proof {
        assert(s@.skip(0) =~= s@);
        assert(out@ + url_decoded(s@) =~= url_decoded(s@));
    }
    let mut k: usize = 0;
    while k < s.len()
        invariant
            k <= s@.len(),
            url_decoded(s@) == out@ + url_decoded(s@.skip(k as int)),
        decreases s@.len() - k,
    {
        proof {
            assert(s@.skip(k as int)[0] == s@[k as int]);
            assert(s@.skip(k as int).drop_first() =~= s@.skip(k as int + 1));
            if s@.skip(k as int).len() >= 3 {
                assert(s@.skip(k as int)[1] == s@[k as int + 1]);
                assert(s@.skip(k as int)[2] == s@[k as int + 2]);
                assert(s@.skip(k as int).skip(3) =~= s@.skip(k as int + 3));
            }
        }
        let ghost out0 = out@;
        let b = s[k];
        if b == 37 && s.len() - k > 2 && is_hex_exec(s[k + 1]) && is_hex_exec(s[k + 2]) {
            out.push(16 * hex_val_exec(s[k + 1]) + hex_val_exec(s[k + 2]));
            proof {
                assert(out@ + url_decoded(s@.skip(k as int + 3)) =~= out0 + url_decoded(
                    s@.skip(k as int),
                ));
            }
            k = k + 3;
        } else {
            out.push(b);
            proof {
                assert(out@ + url_decoded(s@.skip(k as int + 1)) =~= out0 + url_decoded(
                    s@.skip(k as int),
                ));
            }
            k = k + 1;
        }
    }
    proof {
        assert(s@.skip(k as int) =~= Seq::<u8>::empty());
        assert(out@ =~= out@ + url_decoded(s@.skip(k as int)));
    }
    out
}

} // verus!
