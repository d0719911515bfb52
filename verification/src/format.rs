//! Fixed-point serialization of exact decimals.
//!
//! The MSI dialect prints every coordinate with exactly twelve digits after
//! the decimal point.  `format_fixed` renders a `Decimal` that way for any
//! digit count: the value rounded to the nearest multiple of `10^-places`,
//! ties away from zero, as `[-]<integer digits>.<places digits>`.
use vstd::prelude::*;
use vstd::arithmetic::div_mod::lemma_fundamental_div_mod_converse;
use vstd::arithmetic::div_mod::lemma_small_mod;
use crate::numeric::Decimal;
use crate::numeric::DIGIT_LIMIT;
use crate::numeric::EXP_LIMIT;
use crate::numeric::ascii_digits;
use crate::numeric::dec_digits;
use crate::numeric::digits_val;
use crate::numeric::fixed_digits;
use crate::numeric::lemma_dec_digits_of_seq;
use crate::numeric::lemma_digits_val_bound;
use crate::numeric::lemma_digits_val_leading_zeros;
use crate::numeric::lemma_digits_val_single;
use crate::numeric::lemma_digits_val_split;
use crate::numeric::lemma_digits_val_zeros;
use crate::numeric::lemma_first_digit_half;
use crate::numeric::lemma_fixed_digits_of_seq;
use crate::numeric::lemma_pow10_mono;
use crate::numeric::lemma_pow10_pos;
use crate::numeric::pow10;
use crate::scanner;

verus! {

/// `n / 10^k`, rounded to the nearest whole number, ties away from zero.
pub open spec fn round_div_pow10(n: nat, k: nat) -> nat {
    let p = pow10(k);
    if 2 * (n % p) >= p {
        n / p + 1
    } else {
        n / p
    }
}

/// The magnitude of `d`, scaled by `10^places` and rounded to the nearest
/// whole number, ties away from zero.
pub open spec fn fixed_mantissa(d: Decimal, places: nat) -> nat {
    if d.exp + places >= 0 {
        digits_val(d.digits@) * pow10((d.exp + places) as nat)
    } else {
        round_div_pow10(digits_val(d.digits@), (-(d.exp + places)) as nat)
    }
}

/// The fixed-point rendering of `d` with `places` digits after the point:
/// the sign, the integer digits of the rounded scaled magnitude, a dot, and
/// exactly `places` fraction digits.
pub open spec fn spec_format_fixed(d: Decimal, places: nat) -> Seq<u8> {
    let r = fixed_mantissa(d, places);
    let sign: Seq<u8> = if d.neg {
        seq![scanner::MINUS]
    } else {
        Seq::<u8>::empty()
    };
    sign + ascii_digits(dec_digits(r / pow10(places))) + seq![scanner::DOT] + ascii_digits(
        fixed_digits(r % pow10(places), places),
    )
}

/// Appends `k` zero digits.
fn push_zeros(v: &mut Vec<u8>, k: usize)
    requires
        old(v)@.len() + k <= usize::MAX,
    ensures
        final(v)@ == old(v)@ + Seq::new(k as nat, |i: int| 0u8),
{
    let mut i: usize = 0;
    while i < k
        invariant
            i <= k,
            v@ == old(v)@ + Seq::new(i as nat, |j: int| 0u8),
        decreases k - i,
    {
        v.push(0);
        proof {
            assert(old(v)@ + Seq::new((i + 1) as nat, |j: int| 0u8) =~= (old(v)@ + Seq::new(
                i as nat,
                |j: int| 0u8,
            )).push(0u8));
        }
        i = i + 1;
    }
}

/// A string of nine digits has the value just below the next power of ten.
proof fn lemma_digits_val_nines(ds: Seq<u8>)
    requires
        forall|i: int| 0 <= i < ds.len() ==> #[trigger] ds[i] == 9,
    ensures
        digits_val(ds) + 1 == pow10(ds.len() as nat),
    decreases ds.len(),
{
    if ds.len() > 0 {
        lemma_digits_val_nines(ds.drop_last());
    }
}

/// Adds one to a digit string, carrying as needed.
fn inc_digits(m: &Vec<u8>) -> (r: Vec<u8>)
    requires
        forall|i: int| 0 <= i < m@.len() ==> #[trigger] m@[i] < 10,
        m@.len() < usize::MAX,
    ensures
        digits_val(r@) == digits_val(m@) + 1,
        forall|i: int| 0 <= i < r@.len() ==> #[trigger] r@[i] < 10,
        m@.len() <= r@.len() <= m@.len() + 1,
{
    let n = m.len();
    // Find the last digit below nine; everything after it is a nine.
    let mut j: usize = n;
    while j > 0 && m[j - 1] == 9
        invariant
            j <= n,
            n == m@.len(),
            forall|i: int| j <= i < n ==> #[trigger] m@[i] == 9,
        decreases j,
    {
        j = j - 1;
    }
    if j == 0 {
        // All nines: the value is one below a power of ten.
        let mut r: Vec<u8> = Vec::new();
        r.push(1);
        push_zeros(&mut r, n);
        proof {
            lemma_digits_val_nines(m@);
            let rs = seq![1u8] + Seq::new(n as nat, |i: int| 0u8);
            assert(r@ =~= rs);
            lemma_digits_val_split(rs, 1);
            lemma_digits_val_single(rs);
            assert(digits_val(rs.take(1)) == 1);
            assert(forall|i: int| 0 <= i < rs.skip(1).len() ==> #[trigger] rs.skip(1)[i] == 0);
            lemma_digits_val_zeros(rs.skip(1));
        }
        r
    } else {
        let mut r: Vec<u8> = Vec::new();
        let mut i: usize = 0;
        while i < j - 1
            invariant
                i <= j - 1,
                j <= n == m@.len(),
                r@ == m@.take(i as int),
            decreases j - i,
        {
            r.push(m[i]);
            proof {
                assert(m@.take(i + 1) =~= m@.take(i as int).push(m@[i as int]));
            }
            i = i + 1;
        }
        r.push(m[j - 1] + 1);
        push_zeros(&mut r, n - j);
        proof {
            let k = (n - j) as nat;
            let pre = m@.take(j - 1);
            let rs = pre.push((m@[j - 1] + 1) as u8) + Seq::new(k, |i: int| 0u8);
            assert(r@ =~= rs);
            // Value of the result: (digits_val(pre) * 10 + d + 1) * 10^k.
            lemma_digits_val_split(rs, j as int);
            assert(rs.take(j as int) =~= pre.push((m@[j - 1] + 1) as u8));
            assert(rs.skip(j as int) =~= Seq::new(k, |i: int| 0u8));
            lemma_digits_val_zeros(rs.skip(j as int));
            assert(rs.take(j as int).drop_last() =~= pre);
            // Value of the input: (digits_val(pre) * 10 + d) * 10^k + (10^k - 1).
            lemma_digits_val_split(m@, j as int);
            assert(m@.take(j as int).drop_last() =~= pre);
            assert(m@.take(j as int).last() == m@[j - 1]);
            assert(forall|i: int| 0 <= i < m@.skip(j as int).len() ==> #[trigger] m@.skip(
                j as int,
            )[i] == 9);
            lemma_digits_val_nines(m@.skip(j as int));
            let a = digits_val(pre);
            let dv = m@[j - 1] as nat;
            let p = pow10(k);
            assert(digits_val(rs) == (a * 10 + dv + 1) * p);
            assert(digits_val(m@) == (a * 10 + dv) * p + (p - 1));
            assert((a * 10 + dv + 1) * p == (a * 10 + dv) * p + p) by (nonlinear_arith);
        }
        r
    }
}

/// Digit string of the rounded scaled magnitude `fixed_mantissa(d, places)`.
fn scaled_digits(d: &Decimal, places: usize) -> (r: Vec<u8>)
    requires
        d.wf(),
        places <= 100,
    ensures
        digits_val(r@) == fixed_mantissa(*d, places as nat),
        forall|i: int| 0 <= i < r@.len() ==> #[trigger] r@[i] < 10,
        1 <= r@.len() <= d.digits@.len() + 2 * EXP_LIMIT + 101,
{
    let l = d.digits.len();
    let e: i64 = d.exp + places as i64;
    if e >= 0 {
        let z = e as usize;
        let mut m: Vec<u8> = Vec::new();
        let mut i: usize = 0;
        while i < l
            invariant
                i <= l,
                l == d.digits@.len(),
                m@ == d.digits@.take(i as int),
            decreases l - i,
        {
            m.push(d.digits[i]);
            proof {
                assert(d.digits@.take(i + 1) =~= d.digits@.take(i as int).push(
                    d.digits@[i as int],
                ));
            }
            i = i + 1;
        }
        proof {
            assert(m@ =~= d.digits@);
        }
        push_zeros(&mut m, z);
        proof {
            let rs = d.digits@ + Seq::new(z as nat, |i: int| 0u8);
            assert(m@ =~= rs);
            lemma_digits_val_split(rs, l as int);
            assert(rs.take(l as int) =~= d.digits@);
            assert(rs.skip(l as int) =~= Seq::new(z as nat, |i: int| 0u8));
            lemma_digits_val_zeros(rs.skip(l as int));
            assert(digits_val(rs) == digits_val(d.digits@) * pow10(z as nat));
            assert(forall|i: int| 0 <= i < rs.len() ==> #[trigger] rs[i] < 10);
        }
        m
    } else {
        let k = (0 - e) as usize;
        proof {
            lemma_digits_val_bound(d.digits@);
            lemma_pow10_pos(k as nat);
        }
        if k >= l {
            // The whole mantissa is below the rounding position; only a
            // leading digit of five or more can round the value up to one.
            let up = k == l && d.digits[0] >= 5;
            let mut r: Vec<u8> = Vec::new();
            if up {
                r.push(1);
            } else {
                r.push(0);
            }
            proof {
                let nv = digits_val(d.digits@);
                let p = pow10(k as nat);
                lemma_pow10_mono(l as nat, k as nat);
                lemma_small_mod(nv, p);
                assert(nv / p == 0) by (nonlinear_arith)
                    requires
                        0 <= nv < p,
                ;
                if k == l {
                    lemma_first_digit_half(d.digits@);
                } else {
                    lemma_pow10_mono((l + 1) as nat, k as nat);
                    assert(pow10((l + 1) as nat) == 10 * pow10(l as nat));
                    assert(2 * nv < pow10((l + 1) as nat));
                }
                assert(r@.len() == 1);
                lemma_digits_val_single(r@);
                assert(r@.take(1) =~= r@);
                assert(digits_val(r@) == r@[0] as nat);
                assert(digits_val(r@) == fixed_mantissa(*d, places as nat));
                assert(forall|i: int| 0 <= i < r@.len() ==> #[trigger] r@[i] < 10);
            }
            r
        } else {
            let keep = l - k;
            let mut r: Vec<u8> = Vec::new();
            let mut i: usize = 0;
            while i < keep
                invariant
                    i <= keep <= l,
                    l == d.digits@.len(),
                    r@ == d.digits@.take(i as int),
                decreases keep - i,
            {
                r.push(d.digits[i]);
                proof {
                    assert(d.digits@.take(i + 1) =~= d.digits@.take(i as int).push(
                        d.digits@[i as int],
                    ));
                }
                i = i + 1;
            }
            let round_up = d.digits[keep] >= 5;
            proof {
                let nv = digits_val(d.digits@);
                let p = pow10(k as nat);
                let hi = digits_val(d.digits@.take(keep as int));
                let lo = digits_val(d.digits@.skip(keep as int));
                lemma_digits_val_split(d.digits@, keep as int);
                assert(forall|i: int| 0 <= i < d.digits@.skip(keep as int).len()
                    ==> #[trigger] d.digits@.skip(keep as int)[i] < 10);
                lemma_digits_val_bound(d.digits@.skip(keep as int));
                lemma_fundamental_div_mod_converse(nv as int, p as int, hi as int, lo as int);
                lemma_first_digit_half(d.digits@.skip(keep as int));
                assert(d.digits@.skip(keep as int)[0] == d.digits@[keep as int]);
                assert(forall|i: int| 0 <= i < r@.len() ==> #[trigger] r@[i] < 10);
                assert(digits_val(r@) == hi);
                assert(round_up <==> 2 * (nv % p) >= p);
            }
            if round_up {
                let r2 = inc_digits(&r);
                proof {
                    assert(digits_val(r2@) == fixed_mantissa(*d, places as nat));
                }
                r2
            } else {
                proof {
                    assert(digits_val(r@) == fixed_mantissa(*d, places as nat));
                }
                r
            }
        }
    }
}

/// Renders `d` with exactly `places` digits after the decimal point,
/// rounding to the nearest representable value, ties away from zero.
pub fn format_fixed(d: &Decimal, places: usize) -> (r: Vec<u8>)
    requires
        d.wf(),
        1 <= places <= 100,
    ensures
        r@ == spec_format_fixed(*d, places as nat),
{
    let m = scaled_digits(d, places);
    let l = m.len();
    proof {
        lemma_pow10_pos(places as nat);
    }
    let mut out: Vec<u8> = Vec::new();
    if d.neg {
        out.push(scanner::MINUS);
    }
    let ghost r_val = fixed_mantissa(*d, places as nat);
    let ghost p = pow10(places as nat);
    if l <= places {
        // No integer digits: the value is below one.
        out.push(scanner::DIGIT_ZERO);
        out.push(scanner::DOT);
        let pad = places - l;
        push_zeros_ascii(&mut out, pad);
        push_ascii(&mut out, &m, 0, l);
        proof {
            lemma_digits_val_bound(m@);
            lemma_pow10_mono(l as nat, places as nat);
            lemma_small_mod(r_val, p);
            assert(r_val / p == 0) by (nonlinear_arith)
                requires
                    0 <= r_val < p,
            ;
            assert(dec_digits(0) =~= seq![0u8]);
            let padded = Seq::new(pad as nat, |i: int| 0u8) + m@;
            assert(padded.skip(pad as int) =~= m@);
            lemma_digits_val_leading_zeros(padded, pad as int);
            lemma_fixed_digits_of_seq(padded);
            assert(fixed_digits(r_val % p, places as nat) == padded);
            assert(ascii_digits(padded) =~= ascii_digits(Seq::new(pad as nat, |i: int| 0u8))
                + ascii_digits(m@));
            assert(ascii_digits(Seq::new(pad as nat, |i: int| 0u8)) =~= Seq::new(
                pad as nat,
                |i: int| scanner::DIGIT_ZERO,
            ));
            assert(ascii_digits(seq![0u8]) =~= seq![scanner::DIGIT_ZERO]);
            assert(out@ =~= spec_format_fixed(*d, places as nat));
        }
        out
    } else {
        // Split the digits at the decimal point and strip the leading zeros
        // of the integer part.
        let split = l - places;
        let mut z: usize = 0;
        while z < split - 1 && m[z] == 0
            invariant
                z < split <= l,
                l == m@.len(),
                forall|i: int| 0 <= i < z ==> #[trigger] m@[i] == 0,
            decreases split - z,
        {
            z = z + 1;
        }
        push_ascii(&mut out, &m, z, split);
        out.push(scanner::DOT);
        push_ascii(&mut out, &m, split, l);
        proof {
            let hi = digits_val(m@.take(split as int));
            let lo = digits_val(m@.skip(split as int));
            lemma_digits_val_split(m@, split as int);
            assert(forall|i: int| 0 <= i < m@.skip(split as int).len() ==> #[trigger] m@.skip(
                split as int,
            )[i] < 10);
            lemma_digits_val_bound(m@.skip(split as int));
            lemma_fundamental_div_mod_converse(r_val as int, p as int, hi as int, lo as int);
            lemma_fixed_digits_of_seq(m@.skip(split as int));
            // The stripped integer part is canonical.
            let ip = m@.subrange(z as int, split as int);
            assert(m@.take(split as int).skip(z as int) =~= ip);
            lemma_digits_val_leading_zeros(m@.take(split as int), z as int);
            assert(forall|i: int| 0 <= i < ip.len() ==> #[trigger] ip[i] < 10);
            lemma_dec_digits_of_seq(ip);
            assert(dec_digits(r_val / p) == ip);
            assert(fixed_digits(r_val % p, places as nat) == m@.skip(split as int));
            assert(ascii_digits(m@.skip(split as int)) =~= ascii_digits(
                m@.subrange(split as int, l as int),
            ));
            assert(out@ =~= spec_format_fixed(*d, places as nat));
        }
        out
    }
}

/// Appends `k` ASCII zeros.
fn push_zeros_ascii(v: &mut Vec<u8>, k: usize)
    requires
        old(v)@.len() + k <= usize::MAX,
    ensures
        final(v)@ == old(v)@ + Seq::new(k as nat, |i: int| scanner::DIGIT_ZERO),
{
    let mut i: usize = 0;
    while i < k
        invariant
            i <= k,
            v@ == old(v)@ + Seq::new(i as nat, |j: int| scanner::DIGIT_ZERO),
        decreases k - i,
    {
        v.push(scanner::DIGIT_ZERO);
        proof {
            assert(old(v)@ + Seq::new((i + 1) as nat, |j: int| scanner::DIGIT_ZERO) =~= (old(v)@
                + Seq::new(i as nat, |j: int| scanner::DIGIT_ZERO)).push(scanner::DIGIT_ZERO));
        }
        i = i + 1;
    }
}

/// Appends the digit values `m[from..to)` as ASCII digits.
fn push_ascii(v: &mut Vec<u8>, m: &Vec<u8>, from: usize, to: usize)
    requires
        from <= to <= m@.len(),
        forall|i: int| 0 <= i < m@.len() ==> #[trigger] m@[i] < 10,
    ensures
        final(v)@ == old(v)@ + ascii_digits(m@.subrange(from as int, to as int)),
{
    let mut i: usize = from;
    while i < to
        invariant
            from <= i <= to <= m@.len(),
            forall|k: int| 0 <= k < m@.len() ==> #[trigger] m@[k] < 10,
            v@ == old(v)@ + ascii_digits(m@.subrange(from as int, i as int)),
        decreases to - i,
    {
        v.push(m[i] + scanner::DIGIT_ZERO);
        proof {
            assert(ascii_digits(m@.subrange(from as int, i + 1)) =~= ascii_digits(
                m@.subrange(from as int, i as int),
            ).push((m@[i as int] + scanner::DIGIT_ZERO) as u8));
        }
        i = i + 1;
    }
}

} // verus!
