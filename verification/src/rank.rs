use vstd::prelude::*;
use vstd::slice::slice_index_get;

use crate::bytes::find_first;
use crate::num::{all_digits, digit_val, digits_mag, digits_val, is_digit};

verus! {

/// `10^n`, for the fractional-digit bounds.
pub open spec fn pow10(n: nat) -> int
    decreases n,
{
    if n == 0 {
        1
    } else {
        10 * pow10((n - 1) as nat)
    }
}

/// What one fractional digit position is worth in millionths, for a
/// fraction of `flen` digits (at most six).
pub open spec fn frac_unit(flen: int) -> int {
    if flen <= 0 {
        1_000_000
    } else if flen == 1 {
        100_000
    } else if flen == 2 {
        10_000
    } else if flen == 3 {
        1_000
    } else if flen == 4 {
        100
    } else if flen == 5 {
        10
    } else {
        1
    }
}

pub proof fn lemma_digits_val_upper(s: Seq<u8>)
    requires
        all_digits(s),
    ensures
        0 <= digits_val(s) < pow10(s.len()),
    decreases s.len(),
{
    if s.len() > 0 {
        assert(all_digits(s.drop_last())) by {
            assert(forall|i: int|
                0 <= i < s.len() - 1 ==> is_digit(#[trigger] s.drop_last()[i]) == is_digit(s[i]));
        }
        lemma_digits_val_upper(s.drop_last());
        assert(digit_val(s.last()) <= 9);
        assert(digits_val(s.drop_last()) * 10 <= (pow10((s.len() - 1) as nat) - 1) * 10);
    }
}

/// A frecency rank: the accumulated visit weight of a directory. It is an
/// exact fixed-point decimal with six fractional digits, stored as a signed
/// count of millionths, so that merge arithmetic is exact and fully
/// specified.
#[derive(Clone, Copy, PartialEq, Eq, Structural, Debug)]
pub struct Rank {
    pub micros: i64,
}

/// Clamp a mathematical integer to the range of `i64`.
pub open spec fn clip_i64(v: int) -> int {
    if v > i64::MAX {
        i64::MAX as int
    } else if v < i64::MIN {
        i64::MIN as int
    } else {
        v
    }
}

impl Rank {
    /// The sum of two ranks, saturating at the representable bounds.
    pub fn add(self, other: Rank) -> (r: Rank)
        ensures
            r.micros == clip_i64(self.micros + other.micros),
    {
        let wide: i128 = self.micros as i128 + other.micros as i128;
        let m: i64 = if wide > i64::MAX as i128 {
            i64::MAX
        } else if wide < i64::MIN as i128 {
            i64::MIN
        } else {
            wide as i64
        };
        Rank { micros: m }
    }

    /// Parse a rank field, exactly as `spec_parse_rank` describes.
    pub fn parse(field: &[u8]) -> (r: Option<Rank>)
        ensures
            match r {
                Some(rk) => spec_parse_rank(field@) == Some(rk.micros as int),
                None => spec_parse_rank(field@) is None,
            },
    {
        let len = field.len();
        let (neg, start): (bool, usize) = if len > 0 && (*slice_index_get(field, 0) == 43
            || *slice_index_get(field, 0) == 45) {
            (*slice_index_get(field, 0) == 45, 1)
        } else {
            (false, 0)
        };
        let ghost body = if start == 1 {
            field@.skip(1)
        } else {
            field@
        };
        proof {
            assert(field@.skip(0) =~= field@);
        }
        let mag: u128 = match crate::bytes::find_byte_from(field, start, 46) {
            None => {
                if start == len {
                    return None;
                }
                proof {
                    assert(field@.subrange(start as int, len as int) =~= body);
                }
                match digits_mag(field, start, len) {
                    None => {
                        return None;
                    },
                    Some(m) => {
                        proof {
                            lemma_digits_val_upper(body);
                            if digits_val(body) > 0x1_0000_0000_0000_0000 {
                                assert(digits_val(body) * 1_000_000 >= digits_val(body)) by (nonlinear_arith)
                                    requires
                                        digits_val(body) >= 0,
                                ;
                            }
                        }
                        let raw = m * 1_000_000;
                        if raw > 0x1_0000_0000_0000_0000 {
                            0x1_0000_0000_0000_0000
                        } else {
                            raw
                        }
                    },
                }
            },
            Some(dot) => {
                let flen = len - (dot + 1);
                if flen > 6 {
                    return None;
                }
                if start == dot && flen == 0 {
                    return None;
                }
                let ghost ipart = body.take(dot - start);
                let ghost fpart = body.skip(dot - start + 1);
                proof {
                    assert(field@.subrange(start as int, dot as int) =~= ipart);
                    assert(field@.subrange(dot + 1, len as int) =~= fpart);
                }
                let mi = match digits_mag(field, start, dot) {
                    None => {
                        return None;
                    },
                    Some(m) => m,
                };
                let mf = match digits_mag(field, dot + 1, len) {
                    None => {
                        return None;
                    },
                    Some(m) => m,
                };
                let funit: u128 = if flen == 0 {
                    1_000_000
                } else if flen == 1 {
                    100_000
                } else if flen == 2 {
                    10_000
                } else if flen == 3 {
                    1_000
                } else if flen == 4 {
                    100
                } else if flen == 5 {
                    10
                } else {
                    1
                };
                proof {
                    lemma_digits_val_upper(fpart);
                    assert(pow10(0) == 1);
                    assert(pow10(1) == 10);
                    assert(pow10(2) == 100);
                    assert(pow10(3) == 1000);
                    assert(pow10(4) == 10000);
                    assert(pow10(5) == 100000);
                    assert(pow10(6) == 1000000);
                    assert(digits_val(fpart) < 1_000_000);
                    assert(mf == digits_val(fpart));
                    assert(funit == frac_unit(fpart.len() as int));
                    lemma_digits_val_upper(ipart);
                    if digits_val(ipart) > 0x1_0000_0000_0000_0000 {
                        assert(digits_val(ipart) * 1_000_000 >= digits_val(ipart)) by (nonlinear_arith)
                            requires
                                digits_val(ipart) >= 0,
                        ;
                    }
                    assert(digits_val(fpart) * frac_unit(fpart.len() as int) >= 0) by (nonlinear_arith)
                        requires
                            digits_val(fpart) >= 0,
                            frac_unit(fpart.len() as int) >= 1,
                    ;
                    assert(digits_val(fpart) * frac_unit(fpart.len() as int) <= 1_000_000
                        * 1_000_000) by (nonlinear_arith)
                        requires
                            0 <= digits_val(fpart) <= 1_000_000,
                            1 <= frac_unit(fpart.len() as int) <= 1_000_000,
                    ;
                }
                let raw = mi * 1_000_000 + mf * funit;
                if raw > 0x1_0000_0000_0000_0000 {
                    0x1_0000_0000_0000_0000
                } else {
                    raw
                }
            },
        };
        if neg {
            if mag > 0x8000_0000_0000_0000 {
                return None;
            }
            let wide: i128 = -(mag as i128);
            Some(Rank { micros: wide as i64 })
        } else {
            if mag > 0x7fff_ffff_ffff_ffff {
                return None;
            }
            Some(Rank { micros: mag as i64 })
        }
    }
}

/// The magnitude, in millionths, that the rank grammar gives `s`: an
/// optionally signed decimal number with an optional fraction of at most six
/// digits, with at least one digit in all.
pub open spec fn rank_micros_val(s: Seq<u8>) -> Option<int> {
    let neg = s.len() > 0 && s[0] == 45;
    let body = if s.len() > 0 && (s[0] == 43 || s[0] == 45) {
        s.skip(1)
    } else {
        s
    };
    match find_first(body, 46) {
        None => if body.len() > 0 && all_digits(body) {
            Some(
                if neg {
                    -(digits_val(body) * 1_000_000)
                } else {
                    digits_val(body) * 1_000_000
                },
            )
        } else {
            None
        },
        Some(d) => {
            let ipart = body.take(d);
            let fpart = body.skip(d + 1);
            if ipart.len() + fpart.len() > 0 && all_digits(ipart) && all_digits(fpart)
                && fpart.len() <= 6 {
                let mag = digits_val(ipart) * 1_000_000 + digits_val(fpart) * frac_unit(
                    fpart.len() as int,
                );
                Some(
                    if neg {
                        -mag
                    } else {
                        mag
                    },
                )
            } else {
                None
            }
        },
    }
}

/// The rank grammar, restricted to values whose count of millionths fits in
/// `i64`.
pub open spec fn spec_parse_rank(s: Seq<u8>) -> Option<int> {
    match rank_micros_val(s) {
        Some(v) => if i64::MIN <= v <= i64::MAX {
            Some(v)
        } else {
            None
        },
        None => None,
    }
}

} // verus!
