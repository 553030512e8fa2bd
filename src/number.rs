//! Numbers written out in a base, padded to a width, as ASCII bytes.
use vstd::prelude::*;

verus! {

/// The ASCII digit for `d` (lower-case letters from ten on).
pub open spec fn digit_byte(d: nat) -> u8 {
    if d < 10 {
        (48 + d) as u8
    } else {
        (87 + d) as u8
    }
}

/// The digits of `n` in base `base`, most significant first, without
/// leading zeros (zero is the single digit `0`).
pub open spec fn digits(n: nat, base: nat) -> Seq<u8>
    decreases n,
    via digits_decreases
{
    if base < 2 || n < base {
        seq![digit_byte(n)]
    } else {
        digits(n / base, base).push(digit_byte(n % base))
    }
}

#[via_fn]
proof fn digits_decreases(n: nat, base: nat) {
    if !(base < 2 || n < base) {
        assert(n / base < n) by (nonlinear_arith)
            requires
                base >= 2,
                n >= base,
        ;
    }
}

/// `n` in base `base`, right-aligned in `width` bytes by `pad` bytes on the
/// left (a number wider than `width` is not cut).
pub open spec fn padded(n: nat, base: nat, width: nat, pad: u8) -> Seq<u8> {
    let d = digits(n, base);
    Seq::new(if d.len() < width { (width - d.len()) as nat } else { 0 }, |_i: int| pad) + d
}

/// The ASCII digit for `d`.
fn digit(d: u64) -> (r: u8)
    requires
        d < 16,
    ensures
        r == digit_byte(d as nat),
{
    if d < 10 {
        48 + d as u8
    } else {
        87 + d as u8
    }
}

/// Appends the digits of `n` in base `base` to `out`.
fn push_digits(out: &mut Vec<u8>, n: u64, base: u64)
    requires
        2 <= base <= 16,
    ensures
        final(out)@ == old(out)@ + digits(n as nat, base as nat),
    decreases n,
{
    if n < base {
        out.push(digit(n));
        assert(final(out)@ =~= old(out)@ + digits(n as nat, base as nat));
    } else {
        proof {
            assert(n / base < n) by (nonlinear_arith)
                requires
                    base >= 2,
                    n >= base,
            ;
        }
        push_digits(out, n / base, base);
        out.push(digit(n % base));
        assert(final(out)@ =~= old(out)@ + digits(n as nat, base as nat));
    }
}

/// Appends `n` in base `base`, right-aligned in `width` bytes by `pad`
/// bytes on the left, to `out`.
pub fn push_padded(out: &mut Vec<u8>, n: u64, base: u64, width: usize, pad: u8)
    requires
        2 <= base <= 16,
    ensures
        final(out)@ == old(out)@ + padded(n as nat, base as nat, width as nat, pad),
{
    let mut d: Vec<u8> = Vec::new();
    push_digits(&mut d, n, base);
    assert(d@ =~= digits(n as nat, base as nat));
    let mut k: usize = d.len();
    let ghost start = out@;
    while k < width
        invariant
            d@ == digits(n as nat, base as nat),
            d.len() <= k,
            k <= width || k == d.len(),
            out@ == start + Seq::new((k - d.len()) as nat, |_i: int| pad),
        decreases width - k,
    {
        out.push(pad);
        k = k + 1;
        assert(out@ =~= start + Seq::new((k - d.len()) as nat, |_i: int| pad));
    }
    let ghost pads = out@;
    let mut j: usize = 0;
    while j < d.len()
        invariant
            j <= d.len(),
            out@ == pads + d@.subrange(0, j as int),
        decreases d.len() - j,
    {
        out.push(d[j]);
        j = j + 1;
        assert(out@ =~= pads + d@.subrange(0, j as int));
    }
    assert(d@.subrange(0, d.len() as int) =~= d@);
    assert(Seq::new((k - d.len()) as nat, |_i: int| pad) =~= Seq::new(
        if d.len() < width { (width - d.len()) as nat } else { 0 },
        |_i: int| pad,
    ));
}

} // verus!
