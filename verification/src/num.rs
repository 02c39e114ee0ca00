use vstd::prelude::*;
use vstd::slice::slice_index_get;

verus! {

/// True iff `b` is an ASCII decimal digit.
pub open spec fn is_digit(b: u8) -> bool {
    48 <= b <= 57
}

/// The numeric value of the ASCII digit `b`.
pub open spec fn digit_val(b: u8) -> int {
    b - 48
}

/// True iff every byte of `s` is an ASCII decimal digit.
pub open spec fn all_digits(s: Seq<u8>) -> bool {
    forall|i: int| 0 <= i < s.len() ==> is_digit(#[trigger] s[i])
}

/// The value of a big-endian run of decimal digits (0 when empty).
pub open spec fn digits_val(s: Seq<u8>) -> int
    decreases s.len(),
{
    if s.len() == 0 {
        0
    } else {
        digits_val(s.drop_last()) * 10 + digit_val(s.last())
    }
}

/// `v` clamped above at 2^64, a bound past every magnitude a record field
/// may take; accumulation below keeps exact values until they pass it.
pub open spec fn clip_mag(v: int) -> int {
    if v > 0x1_0000_0000_0000_0000 {
        0x1_0000_0000_0000_0000
    } else {
        v
    }
}

pub proof fn lemma_digits_val_nonneg(s: Seq<u8>)
    requires
        all_digits(s),
    ensures
        digits_val(s) >= 0,
    decreases s.len(),
{
    if s.len() > 0 {
        assert(all_digits(s.drop_last())) by {
            assert(forall|i: int|
                0 <= i < s.len() - 1 ==> is_digit(#[trigger] s.drop_last()[i]) == is_digit(s[i]));
        }
        lemma_digits_val_nonneg(s.drop_last());
    }
}

/// The magnitude of the digit run `s[from..to]`, clamped at 2^64, or `None`
/// where some byte is not a digit.
pub fn digits_mag(s: &[u8], from: usize, to: usize) -> (r: Option<u128>)
    requires
        from <= to <= s@.len(),
    ensures
        match r {
            Some(m) => all_digits(s@.subrange(from as int, to as int)) && m == clip_mag(
                digits_val(s@.subrange(from as int, to as int)),
            ),
            None => !all_digits(s@.subrange(from as int, to as int)),
        },
{
    let ghost whole = s@.subrange(from as int, to as int);
    let mut acc: u128 = 0;
    let mut i = from;
    while i < to
        invariant
            from <= i <= to <= s@.len(),
            whole == s@.subrange(from as int, to as int),
            all_digits(s@.subrange(from as int, i as int)),
            acc == clip_mag(digits_val(s@.subrange(from as int, i as int))),
            acc <= 0x1_0000_0000_0000_0000,
        decreases to - i,
    {
        let b = *slice_index_get(s, i);
        if b < 48 || b > 57 {
            proof {
                assert(whole[i - from] == b);
            }
            return None;
        }
        let ghost pre = s@.subrange(from as int, i as int);
        let ghost post = s@.subrange(from as int, i + 1);
        let d = (b - 48) as u128;
        let raw = acc * 10 + d;
        acc = if raw > 0x1_0000_0000_0000_0000 {
            0x1_0000_0000_0000_0000
        } else {
            raw
        };
        proof {
            assert(post.drop_last() =~= pre);
            assert(post.last() == b);
            assert(digits_val(post) == digits_val(pre) * 10 + digit_val(b));
            assert(forall|j: int| 0 <= j < post.len() ==> is_digit(#[trigger] post[j]));
            lemma_digits_val_nonneg(pre);
            if digits_val(pre) > 0x1_0000_0000_0000_0000 {
                assert(digits_val(pre) * 10 + digit_val(b) > 0x1_0000_0000_0000_0000) by (nonlinear_arith)
                    requires
                        digits_val(pre) > 0x1_0000_0000_0000_0000,
                        digit_val(b) >= 0,
                ;
            }
        }
        i = i + 1;
    }
    proof {
        assert(s@.subrange(from as int, i as int) =~= whole);
    }
    Some(acc)
}

/// The value of an optionally signed run of decimal digits, or `None` where
/// `s` is not of that shape (empty body, or a byte that is not a digit).
pub open spec fn int_literal_val(s: Seq<u8>) -> Option<int> {
    let neg = s.len() > 0 && s[0] == 45;
    let body = if s.len() > 0 && (s[0] == 43 || s[0] == 45) {
        s.skip(1)
    } else {
        s
    };
    if body.len() > 0 && all_digits(body) {
        Some(
            if neg {
                -digits_val(body)
            } else {
                digits_val(body)
            },
        )
    } else {
        None
    }
}

/// The epoch grammar: an optionally signed decimal integer that fits in
/// `i64`.
pub open spec fn spec_parse_i64(s: Seq<u8>) -> Option<int> {
    match int_literal_val(s) {
        Some(v) => if i64::MIN <= v <= i64::MAX {
            Some(v)
        } else {
            None
        },
        None => None,
    }
}

/// Parse an optionally signed decimal integer, exactly as `spec_parse_i64`
/// describes.
pub fn parse_i64(s: &[u8]) -> (r: Option<i64>)
    ensures
        match r {
            Some(v) => spec_parse_i64(s@) == Some(v as int),
            None => spec_parse_i64(s@) is None,
        },
{
    let len = s.len();
    let (neg, start): (bool, usize) = if len > 0 && (*slice_index_get(s, 0) == 43
        || *slice_index_get(s, 0) == 45) {
        (*slice_index_get(s, 0) == 45, 1)
    } else {
        (false, 0)
    };
    proof {
        assert(s@.subrange(start as int, len as int) =~= (if start == 1 {
            s@.skip(1)
        } else {
            s@
        }));
    }
    if start == len {
        return None;
    }
    let mag = match digits_mag(s, start, len) {
        Some(m) => m,
        None => {
            return None;
        },
    };
    proof {
        lemma_digits_val_nonneg(s@.subrange(start as int, len as int));
    }
    if neg {
        if mag > 0x8000_0000_0000_0000 {
            return None;
        }
        let wide: i128 = -(mag as i128);
        Some(wide as i64)
    } else {
        if mag > 0x7fff_ffff_ffff_ffff {
            return None;
        }
        Some(mag as i64)
    }
}

} // verus!
