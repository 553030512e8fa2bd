//! The start offset of a dump, written `[+]offset[.][b]`: octal by default,
//! decimal when followed by `.`, and counted in blocks of 512 bytes when
//! followed by `b`.
use vstd::prelude::*;

use crate::getopt::chars_of;

verus! {

/// Why an offset could not be read.
#[derive(Clone, Copy, Debug, PartialEq, Eq, Structural)]
pub enum OffsetError {
    /// There is no number at all.
    Empty,
    /// A character is not a digit of the number's base.
    InvalidDigit,
    /// The offset does not fit in 64 bits.
    Overflow,
}

/// Whether `c` is a digit in base `radix` (eight or ten).
pub open spec fn is_digit(c: char, radix: nat) -> bool {
    '0' <= c && if radix == 8 {
        c <= '7'
    } else {
        c <= '9'
    }
}

/// The value of the digit `c`.
pub open spec fn digit_value(c: char) -> nat {
    ((c as int) - ('0' as int)) as nat
}

/// The value of the digits `s` in base `radix`.
pub open spec fn digits_value(s: Seq<char>, radix: nat) -> nat
    decreases s.len(),
{
    if s.len() == 0 {
        0
    } else {
        digits_value(s.drop_last(), radix) * radix + digit_value(s.last())
    }
}

/// Splits an offset into the text of its number, its base and its unit.
pub open spec fn offset_parts(s: Seq<char>) -> (Seq<char>, nat, nat) {
    if s.len() > 0 && s.last() == 'b' {
        let t = s.drop_last();
        if t.len() > 0 && t.last() == '.' {
            (t.drop_last(), 10, 512)
        } else {
            (t, 8, 512)
        }
    } else if s.len() > 0 && s.last() == '.' {
        (s.drop_last(), 10, 1)
    } else {
        (s, 8, 1)
    }
}

/// The digits of a number, after its optional leading `+`.
pub open spec fn unsigned_digits(t: Seq<char>) -> Seq<char> {
    if t.len() > 0 && t[0] == '+' {
        t.drop_first()
    } else {
        t
    }
}

/// What the offset `s` stands for, in bytes.
pub open spec fn offset_result(s: Seq<char>) -> Result<u64, OffsetError> {
    let (t, radix, mult) = offset_parts(s);
    let d = unsigned_digits(t);
    if t.len() == 0 {
        Err(OffsetError::Empty)
    } else if d.len() == 0 || exists|i: int| 0 <= i < d.len() && !is_digit(#[trigger] d[i], radix) {
        Err(OffsetError::InvalidDigit)
    } else if digits_value(d, radix) * mult > u64::MAX {
        Err(OffsetError::Overflow)
    } else {
        Ok((digits_value(d, radix) * mult) as u64)
    }
}

/// A prefix of a number is worth no more than the whole number.
proof fn lemma_prefix_value_le(d: Seq<char>, radix: nat, j: int)
    requires
        radix >= 1,
        0 <= j <= d.len(),
    ensures
        digits_value(d.subrange(0, j), radix) <= digits_value(d, radix),
    decreases d.len() - j,
{
    if j == d.len() {
        assert(d.subrange(0, j) =~= d);
    } else {
        let p = d.subrange(0, j);
        let q = d.subrange(0, j + 1);
        assert(q.drop_last() =~= p);
        let v = digits_value(p, radix);
        assert(v * radix >= v) by (nonlinear_arith)
            requires
                radix >= 1,
        ;
        lemma_prefix_value_le(d, radix, j + 1);
    }
}

/// Reads an offset of the form `[+]offset[.][b]`.
pub fn parse_offset(offstr: &str) -> (r: Result<u64, OffsetError>)
    ensures
        r == offset_result(offstr@),
{
    let chars = chars_of(offstr);
    let n = chars.len();
    let (end, radix, mult): (usize, u64, u64) = if n > 0 && chars[n - 1] == 'b' {
        if n > 1 && chars[n - 2] == '.' {
            (n - 2, 10, 512)
        } else {
            (n - 1, 8, 512)
        }
    } else if n > 0 && chars[n - 1] == '.' {
        (n - 1, 10, 1)
    } else {
        (n, 8, 1)
    };
    let ghost t = chars@.subrange(0, end as int);
    assert(offset_parts(offstr@) == (t, radix as nat, mult as nat)) by {
        assert(chars@ =~= chars@.subrange(0, n as int));
        if n > 0 {
            assert(chars@.drop_last() =~= chars@.subrange(0, n - 1));
        }
        if n > 1 {
            assert(chars@.drop_last().drop_last() =~= chars@.subrange(0, n - 2));
        }
    }
    if end == 0 {
        return Err(OffsetError::Empty);
    }
    let start: usize = if chars[0] == '+' {
        1
    } else {
        0
    };
    let ghost d = chars@.subrange(start as int, end as int);
    assert(unsigned_digits(t) =~= d);
    if start == end {
        return Err(OffsetError::InvalidDigit);
    }
    let mut i: usize = start;
    while i < end
        invariant
            start <= i <= end <= chars.len(),
            d == chars@.subrange(start as int, end as int),
            t == chars@.subrange(0, end as int),
            offset_parts(offstr@) == (t, radix as nat, mult as nat),
            unsigned_digits(t) == d,
            start < end,
            radix == 8 || radix == 10,
            forall|k: int| 0 <= k < i - start ==> is_digit(#[trigger] d[k], radix as nat),
        decreases end - i,
    {
        let c = chars[i];
        let top = if radix == 8 {
            '7'
        } else {
            '9'
        };
        assert(d[i - start] == c);
        if !('0' <= c && c <= top) {
            return Err(OffsetError::InvalidDigit);
        }
        i = i + 1;
    }
    let mut v: u64 = 0;
    i = start;
    while i < end
        invariant
            start <= i <= end <= chars.len(),
            d == chars@.subrange(start as int, end as int),
            t == chars@.subrange(0, end as int),
            offset_parts(offstr@) == (t, radix as nat, mult as nat),
            unsigned_digits(t) == d,
            start < end,
            radix == 8 || radix == 10,
            mult == 1 || mult == 512,
            forall|k: int| 0 <= k < d.len() ==> is_digit(#[trigger] d[k], radix as nat),
            v == digits_value(d.subrange(0, i - start), radix as nat),
        decreases end - i,
    {
        let ghost p = d.subrange(0, i - start + 1);
        assert(p.drop_last() =~= d.subrange(0, i - start));
        assert(is_digit(d[i - start], radix as nat));
        let digit = (chars[i] as u32 - '0' as u32) as u64;
        match v.checked_mul(radix) {
            None => {
                proof {
                    lemma_prefix_value_le(d, radix as nat, i - start + 1);
                    assert(digits_value(p, radix as nat) >= v * radix);
                    assert(digits_value(d, radix as nat) * mult >= digits_value(d, radix as nat))
                        by (nonlinear_arith)
                        requires
                            mult >= 1,
                    ;
                }
                return Err(OffsetError::Overflow);
            },
            Some(m) => match m.checked_add(digit) {
                None => {
                    proof {
                        lemma_prefix_value_le(d, radix as nat, i - start + 1);
                        assert(digits_value(d, radix as nat) * mult >= digits_value(
                            d,
                            radix as nat,
                        )) by (nonlinear_arith)
                            requires
                                mult >= 1,
                        ;
                    }
                    return Err(OffsetError::Overflow);
                },
                Some(x) => {
                    v = x;
                },
            },
        }
        i = i + 1;
    }
    assert(d.subrange(0, end - start) =~= d);
    match v.checked_mul(mult) {
        None => Err(OffsetError::Overflow),
        Some(x) => Ok(x),
    }
}

} // verus!
