//! Byte-string helpers shared by the topic, query and duration code: first
//! occurrence of a byte, prefixes, decimal digits, and parsing unsigned
//! numbers written in decimal.

use vstd::prelude::*;
use vstd::string::{StrSliceExecFns, StringSliceAdditionalSpecFns};

verus! {

/// The index of the first occurrence of `b` in `s`.
pub open spec fn find_byte(s: Seq<u8>, b: u8) -> Option<int>
    decreases s.len(),
{
    if s.len() == 0 {
        Option::None
    } else if s[0] == b {
        Option::Some(0)
    } else {
        match find_byte(s.drop_first(), b) {
            Option::None => Option::None,
            Option::Some(i) => Option::Some(i + 1),
        }
    }
}

/// A found index lies in range and holds `b`.
pub proof fn lemma_find_byte_bounds(s: Seq<u8>, b: u8)
    ensures
        match find_byte(s, b) {
            Option::Some(i) => 0 <= i < s.len() && s[i] == b,
            Option::None => true,
        },
    decreases s.len(),
{
    if s.len() > 0 && s[0] != b {
        lemma_find_byte_bounds(s.drop_first(), b);
    }
}

/// When `b` first occurs at `i`, `find_byte` returns `i`.
pub proof fn lemma_find_byte_at(s: Seq<u8>, b: u8, i: int)
    requires
        0 <= i < s.len(),
        s[i] == b,
        forall|j: int| 0 <= j < i ==> s[j] != b,
    ensures
        find_byte(s, b) == Option::Some(i),
    decreases i,
{
    if i > 0 {
        assert forall|j: int| 0 <= j < i - 1 implies s.drop_first()[j] != b by {
            assert(s.drop_first()[j] == s[j + 1]);
        }
        assert(s.drop_first()[i - 1] == s[i]);
        lemma_find_byte_at(s.drop_first(), b, i - 1);
    }
}

/// When `b` does not occur, `find_byte` returns `None`.
pub proof fn lemma_find_byte_none(s: Seq<u8>, b: u8)
    requires
        forall|j: int| 0 <= j < s.len() ==> s[j] != b,
    ensures
        find_byte(s, b) is None,
    decreases s.len(),
{
    if s.len() > 0 {
        assert forall|j: int| 0 <= j < s.drop_first().len() implies s.drop_first()[j] != b by {
            assert(s.drop_first()[j] == s[j + 1]);
        }
        lemma_find_byte_none(s.drop_first(), b);
    }
}

/// Finds the first occurrence of `b` in `s` at or after `from`.
pub fn find_byte_from(s: &[u8], b: u8, from: usize) -> (r: Option<usize>)
    requires
        from <= s@.len(),
    ensures
        match find_byte(s@.skip(from as int), b) {
            Option::None => r is None,
            Option::Some(i) => r matches Some(u) && u == from + i,
        },
{
    let mut k = from;
    while k < s.len()
        invariant
            from <= k <= s@.len(),
            forall|j: int| from <= j < k ==> s@[j] != b,
        decreases s@.len() - k,
    {
        if s[k] == b {
            proof {
                assert forall|j: int| 0 <= j < k - from implies s@.skip(from as int)[j] != b by {
                    assert(s@.skip(from as int)[j] == s@[from + j]);
                }
                assert(s@.skip(from as int)[k - from] == b);
                lemma_find_byte_at(s@.skip(from as int), b, k - from);
            }
            return Option::Some(k);
        }
        k = k + 1;
    }
    proof {
        assert forall|j: int| 0 <= j < s@.skip(from as int).len() implies s@.skip(from as int)[j]
            != b by {
            assert(s@.skip(from as int)[j] == s@[from + j]);
        }
        lemma_find_byte_none(s@.skip(from as int), b);
    }
    Option::None
}

/// `p` is a prefix of `s`.
pub open spec fn has_prefix(s: Seq<u8>, p: Seq<u8>) -> bool {
    p.len() <= s.len() && s.take(p.len() as int) == p
}

/// Decides whether `p` is a prefix of `s`.
pub fn starts_with_bytes(s: &[u8], p: &[u8]) -> (r: bool)
    ensures
        r == has_prefix(s@, p@),
{
    if p.len() > s.len() {
        proof {
            assert(!has_prefix(s@, p@));
        }
        return false;
    }
    for k in 0..p.len()
        invariant
            p@.len() <= s@.len(),
            forall|j: int| 0 <= j < k ==> s@[j] == p@[j],
    {
        if s[k] != p[k] {
            proof {
                if has_prefix(s@, p@) {
                    assert(s@.take(p@.len() as int)[k as int] == p@[k as int]);
                }
            }
            return false;
        }
    }
    proof {
        assert(s@.take(p@.len() as int) =~= p@);
    }
    true
}

/// The decimal digits of `n`, most significant first.
pub open spec fn dec_digits(n: nat) -> Seq<u8>
    decreases n,
{
    if n < 10 {
        seq![(48 + n) as u8]
    } else {
        dec_digits(n / 10).push((48 + n % 10) as u8)
    }
}

/// Writes `n` in decimal.
pub fn u64_dec(n: u64) -> (r: Vec<u8>)
    ensures
        r@ == dec_digits(n as nat),
    decreases n,
{
    if n < 10 {
        let out = vec![48 + n as u8];
        proof {
            assert(out@ =~= dec_digits(n as nat));
        }
        out
    } else {
        let mut out = u64_dec(n / 10);
        out.push(48 + (n % 10) as u8);
        out
    }
}

/// The UTF-8 bytes of an owned string.
pub open spec fn string_bytes(s: String) -> Seq<u8> {
    vstd::utf8::encode_utf8(s@)
}

/// The UTF-8 bytes of a string slice.
pub fn str_bytes(s: &str) -> (r: Vec<u8>)
    ensures
        r@ == s.spec_bytes(),
{
    s.as_bytes_vec()
}

/// `s` is a non-empty run of decimal digits.
pub open spec fn is_digits(s: Seq<u8>) -> bool {
    s.len() > 0 && forall|i: int| 0 <= i < s.len() ==> 48 <= #[trigger] s[i] <= 57
}

/// The number the digit run `s` denotes.
pub open spec fn digits_val(s: Seq<u8>) -> nat
    decreases s.len(),
{
    if s.len() == 0 {
        0
    } else {
        digits_val(s.take(s.len() - 1)) * 10 + (s.last() - 48) as nat
    }
}

/// A digit run denotes at least as much as any of its prefixes.
proof fn lemma_digits_val_prefix(s: Seq<u8>, k: int)
    requires
        0 <= k <= s.len(),
        is_digits(s),
    ensures
        digits_val(s.take(k)) <= digits_val(s),
    decreases s.len(),
{
    if k == s.len() {
        assert(s.take(k) =~= s);
    } else {
        let shorter = s.take(s.len() - 1);
        if shorter.len() == 0 {
            assert(s.take(k) =~= Seq::<u8>::empty());
        } else {
            assert(is_digits(shorter)) by {
                assert(forall|i: int| 0 <= i < shorter.len() ==> shorter[i] == s[i]);
            }
            lemma_digits_val_prefix(shorter, k);
            assert(shorter.take(k) =~= s.take(k));
            assert(digits_val(s) >= digits_val(shorter)) by {
                assert(s.last() >= 48);
            }
        }
    }
}

/// Parses the digit run `s[from..to]` as a decimal number.  The result is
/// `None` exactly when the range is not a non-empty digit run or its value
/// does not fit in 64 bits.
pub fn parse_u64_digits(s: &[u8], from: usize, to: usize) -> (r: Option<u64>)
    requires
        from <= to <= s@.len(),
    ensures
        match r {
            Option::Some(v) => is_digits(s@.subrange(from as int, to as int)) && v == digits_val(
                s@.subrange(from as int, to as int),
            ),
            Option::None => !is_digits(s@.subrange(from as int, to as int)) || digits_val(
                s@.subrange(from as int, to as int),
            ) > u64::MAX,
        },
{
    let ghost whole = s@.subrange(from as int, to as int);
    if from == to {
        return Option::None;
    }
    let mut acc: u64 = 0;
    let mut k = from;
    while k < to
        invariant
            from <= k <= to <= s@.len(),
            forall|j: int| from <= j < k ==> 48 <= #[trigger] s@[j] <= 57,
            acc == digits_val(s@.subrange(from as int, k as int)),
            whole == s@.subrange(from as int, to as int),
        decreases to - k,
    {
        let d = s[k];
        if d < 48 || d > 57 {
            proof {
                assert(whole[k - from] == s@[k as int]);
            }
            return Option::None;
        }
        proof {
            assert(s@.subrange(from as int, k as int + 1).take(k - from) =~= s@.subrange(
                from as int,
                k as int,
            ));
            assert(s@.subrange(from as int, k as int + 1).last() == s@[k as int]);
        }
        let widened = acc.checked_mul(10);
        let step = match widened {
            Option::Some(x) => x.checked_add((d - 48) as u64),
            Option::None => Option::None,
        };
        match step {
            Option::Some(next) => {
                acc = next;
            },
            Option::None => {
                proof {
                    assert(digits_val(s@.subrange(from as int, k as int + 1)) > u64::MAX);
                    if is_digits(whole) {
                        lemma_digits_val_prefix(whole, k as int + 1 - from);
                        assert(whole.take(k as int + 1 - from) =~= s@.subrange(
                            from as int,
                            k as int + 1,
                        ));
                    }
                }
                return Option::None;
            },
        }
        k = k + 1;
    }
    proof {
        assert(s@.subrange(from as int, to as int) =~= whole);
        assert(is_digits(whole)) by {
            assert(forall|i: int| 0 <= i < whole.len() ==> whole[i] == s@[from + i]);
        }
    }
    Option::Some(acc)
}

} // verus!
