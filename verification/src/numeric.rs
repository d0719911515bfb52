//! Exact decimal numbers.
//!
//! A coordinate or tolerance in the text formats is a decimal literal.  The
//! library keeps such a number exactly as its decimal digits and a power of
//! ten, so that parsing, comparison and re-serialization are exact and free
//! of binary rounding.  The value of a `Decimal` is
//! `(-1)^neg * digits * 10^exp`, where `digits` is read as a base-10 number.
use vstd::prelude::*;
use crate::scanner;

verus! {

/// Largest exponent magnitude a literal may carry.
pub const EXP_LIMIT: u64 = 1000000;

/// Largest number of mantissa digits a literal may carry.
pub const DIGIT_LIMIT: usize = 1000000;

/// An exact decimal number: `(-1)^neg * digits * 10^exp`.
#[derive(Debug, Clone)]
pub struct Decimal {
    /// Sign: `true` for a negative literal.
    pub neg: bool,
    /// Base-10 digits of the mantissa, most significant first, each `0..=9`.
    pub digits: Vec<u8>,
    /// Power of ten scaling the mantissa.
    pub exp: i64,
}

/// The mantissa digits read as a base-10 natural number.
pub open spec fn digits_val(ds: Seq<u8>) -> nat
    decreases ds.len(),
{
    if ds.len() == 0 {
        0
    } else {
        digits_val(ds.drop_last()) * 10 + ds.last() as nat
    }
}

/// `10^e`.
pub open spec fn pow10(e: nat) -> nat
    decreases e,
{
    if e == 0 {
        1
    } else {
        10 * pow10((e - 1) as nat)
    }
}

impl Decimal {
    /// Well-formed: at least one digit, every digit below ten, and the sizes
    /// within the bounds the parser enforces.
    pub open spec fn wf(self) -> bool {
        &&& self.digits@.len() >= 1
        &&& self.digits@.len() <= DIGIT_LIMIT + 1
        &&& forall|i: int| 0 <= i < self.digits@.len() ==> #[trigger] self.digits@[i] < 10
        &&& -2 * (EXP_LIMIT as int) <= self.exp <= 2 * (EXP_LIMIT as int)
    }

    /// Sign as a mathematical factor.
    pub open spec fn sign(self) -> int {
        if self.neg {
            -1
        } else {
            1
        }
    }

    /// Numerator of the value as a fraction in lowest-effort form:
    /// the value equals `num() / den()`.
    pub open spec fn num(self) -> int {
        if self.exp >= 0 {
            self.sign() * digits_val(self.digits@) * pow10(self.exp as nat)
        } else {
            self.sign() * digits_val(self.digits@)
        }
    }

    /// Denominator of the value: `1` or a positive power of ten.
    pub open spec fn den(self) -> int {
        if self.exp >= 0 {
            1
        } else {
            pow10((-self.exp) as nat) as int
        }
    }

    /// Two decimals denote the same rational value.
    pub open spec fn same_value(self, other: Decimal) -> bool {
        self.num() * other.den() == other.num() * self.den()
    }

    /// Is the value exactly zero?
    pub open spec fn is_zero(self) -> bool {
        digits_val(self.digits@) == 0
    }

    /// Executable zero test.
    pub fn check_zero(&self) -> (r: bool)
        ensures
            r == self.is_zero(),
    {
        let mut i: usize = 0;
        while i < self.digits.len()
            invariant
                0 <= i <= self.digits@.len(),
                digits_val(self.digits@.take(i as int)) == 0,
            decreases self.digits@.len() - i,
        {
            proof {
                assert(self.digits@.take(i + 1).drop_last() =~= self.digits@.take(i as int));
            }
            if self.digits[i] != 0 {
                proof {
                    lemma_digits_val_take_le(self.digits@, i + 1);
                }
                return false;
            }
            i = i + 1;
        }
        proof {
            assert(self.digits@.take(self.digits@.len() as int) =~= self.digits@);
        }
        true
    }

    /// The value is strictly positive: non-zero and not negative.
    pub open spec fn is_positive(self) -> bool {
        !self.neg && !self.is_zero()
    }

    /// An explicit copy, field for field.
    pub fn dup(&self) -> (r: Decimal)
        ensures
            dec_eqv(*self, r),
            r.neg == self.neg,
            r.digits@ == self.digits@,
            r.exp == self.exp,
    {
        Decimal { neg: self.neg, digits: clone_bytes(&self.digits), exp: self.exp }
    }
}

/// Copies a byte vector, element for element.
pub fn clone_bytes(v: &Vec<u8>) -> (r: Vec<u8>)
    ensures
        r@ == v@,
{
    let r = v.clone();
    proof {
        assert forall|i: int| 0 <= i < v@.len() implies r@[i] == v@[i] by {
            assert(cloned::<u8>(v@[i], r@[i]));
        }
        assert(r@ =~= v@);
    }
    r
}

/// Field-by-field equality of two decimals, digit strings compared as
/// sequences.
pub open spec fn dec_eqv(a: Decimal, b: Decimal) -> bool {
    a.neg == b.neg && a.digits@ == b.digits@ && a.exp == b.exp
}

/// A longer digit prefix never has a smaller value.
pub proof fn lemma_digits_val_take_le(ds: Seq<u8>, n: int)
    requires
        0 <= n <= ds.len(),
    ensures
        digits_val(ds.take(n)) <= digits_val(ds),
    decreases ds.len(),
{
    if n < ds.len() {
        assert(ds.drop_last().take(n) =~= ds.take(n));
        lemma_digits_val_take_le(ds.drop_last(), n);
    } else {
        assert(ds.take(n) =~= ds);
    }
}

/// `pow10` splits over a sum of exponents.
pub proof fn lemma_pow10_add(a: nat, b: nat)
    ensures
        pow10(a + b) == pow10(a) * pow10(b),
    decreases a,
{
    if a == 0 {
        assert(pow10(0) == 1);
        assert(pow10(a + b) == pow10(b));
    } else {
        lemma_pow10_add((a - 1) as nat, b);
        let x = pow10((a - 1) as nat);
        let y = pow10(b);
        assert(pow10(a + b) == 10 * pow10((a + b - 1) as nat));
        assert(pow10((a + b - 1) as nat) == pow10((a - 1) as nat + b));
        assert(10 * (x * y) == (10 * x) * y) by (nonlinear_arith);
        assert(pow10(a) == 10 * x);
        assert(pow10(a + b) == 10 * (x * y));
        assert(pow10(a) * pow10(b) == (10 * x) * y);
    }
}

/// `pow10` is at least one.
pub proof fn lemma_pow10_pos(e: nat)
    ensures
        pow10(e) >= 1,
    decreases e,
{
    if e > 0 {
        lemma_pow10_pos((e - 1) as nat);
    }
}

/// `pow10` does not decrease as the exponent grows.
pub proof fn lemma_pow10_mono(a: nat, b: nat)
    requires
        a <= b,
    ensures
        pow10(a) <= pow10(b),
    decreases b,
{
    if a < b {
        lemma_pow10_mono(a, (b - 1) as nat);
        lemma_pow10_pos((b - 1) as nat);
    }
}

/// Splitting a digit string splits its value at a power of ten.
pub proof fn lemma_digits_val_split(ds: Seq<u8>, m: int)
    requires
        0 <= m <= ds.len(),
    ensures
        digits_val(ds) == digits_val(ds.take(m)) * pow10((ds.len() - m) as nat) + digits_val(
            ds.skip(m),
        ),
    decreases ds.len(),
{
    if m == ds.len() {
        assert(ds.take(m) =~= ds);
        assert(ds.skip(m) =~= Seq::<u8>::empty());
        assert(digits_val(ds.skip(m)) == 0);
        assert(pow10((ds.len() - m) as nat) == 1);
        assert(digits_val(ds.take(m)) * 1 == digits_val(ds));
    } else {
        let dl = ds.drop_last();
        lemma_digits_val_split(dl, m);
        assert(dl.take(m) =~= ds.take(m));
        assert(ds.skip(m).drop_last() =~= dl.skip(m));
        assert(ds.skip(m).last() == ds.last());
        let a = digits_val(ds.take(m));
        let b = digits_val(dl.skip(m));
        let c = ds.last() as nat;
        let p = pow10((ds.len() - 1 - m) as nat);
        assert(pow10((ds.len() - m) as nat) == 10 * p);
        assert(digits_val(dl) == a * p + b);
        assert(digits_val(ds) == digits_val(dl) * 10 + c);
        assert(digits_val(ds.skip(m)) == b * 10 + c);
        assert((a * p + b) * 10 + c == a * (10 * p) + (b * 10 + c)) by (nonlinear_arith);
        assert(digits_val(ds) == (a * p + b) * 10 + c);
        assert(digits_val(ds) == a * (10 * p) + (b * 10 + c));
        assert(digits_val(ds) == a * pow10((ds.len() - m) as nat) + digits_val(ds.skip(m)));
    }
}

/// A string of `n` digits has value below `10^n`.
pub proof fn lemma_digits_val_bound(ds: Seq<u8>)
    requires
        forall|i: int| 0 <= i < ds.len() ==> #[trigger] ds[i] < 10,
    ensures
        digits_val(ds) < pow10(ds.len() as nat),
    decreases ds.len(),
{
    if ds.len() > 0 {
        lemma_digits_val_bound(ds.drop_last());
    }
}

/// A string of zero digits has value zero.
pub proof fn lemma_digits_val_zeros(ds: Seq<u8>)
    requires
        forall|i: int| 0 <= i < ds.len() ==> #[trigger] ds[i] == 0,
    ensures
        digits_val(ds) == 0,
    decreases ds.len(),
{
    if ds.len() > 0 {
        lemma_digits_val_zeros(ds.drop_last());
    }
}

/// Leading zeros do not change the value.
pub proof fn lemma_digits_val_leading_zeros(ds: Seq<u8>, j: int)
    requires
        0 <= j <= ds.len(),
        forall|i: int| 0 <= i < j ==> #[trigger] ds[i] == 0,
    ensures
        digits_val(ds.skip(j)) == digits_val(ds),
{
    lemma_digits_val_split(ds, j);
    assert(forall|i: int| 0 <= i < ds.take(j).len() ==> #[trigger] ds.take(j)[i] == 0);
    lemma_digits_val_zeros(ds.take(j));
}

/// A one-digit prefix has the first digit as its value.
pub proof fn lemma_digits_val_single(ds: Seq<u8>)
    requires
        ds.len() >= 1,
    ensures
        digits_val(ds.take(1)) == ds[0] as nat,
{
    assert(ds.take(1).drop_last() =~= Seq::<u8>::empty());
    assert(ds.take(1).last() == ds[0]);
    assert(digits_val(ds.take(1)) == digits_val(Seq::<u8>::empty()) * 10 + ds[0] as nat);
}

/// The canonical digit string of a value is the string itself, once leading
/// zeros are gone.
pub proof fn lemma_dec_digits_of_seq(ds: Seq<u8>)
    requires
        ds.len() >= 1,
        forall|i: int| 0 <= i < ds.len() ==> #[trigger] ds[i] < 10,
        ds[0] != 0 || ds.len() == 1,
    ensures
        dec_digits(digits_val(ds)) == ds,
    decreases ds.len(),
{
    if ds.len() == 1 {
        assert(digits_val(ds.drop_last()) == 0);
        assert(dec_digits(digits_val(ds)) =~= ds);
    } else {
        let dl = ds.drop_last();
        lemma_dec_digits_of_seq(dl);
        lemma_digits_val_split(ds, 1);
        lemma_pow10_pos((ds.len() - 1) as nat);
        lemma_digits_val_single(ds);
        assert(digits_val(ds) >= ds[0] as nat * pow10((ds.len() - 1) as nat));
        assert(ds[0] as nat * pow10((ds.len() - 1) as nat) >= pow10((ds.len() - 1) as nat)) by (
        nonlinear_arith)
            requires
                ds[0] >= 1,
                pow10((ds.len() - 1) as nat) >= 1,
        ;
        lemma_pow10_mono(1, (ds.len() - 1) as nat);
        assert(digits_val(ds) >= 10);
        let n = digits_val(ds);
        assert(n == digits_val(dl) * 10 + ds.last() as nat);
        assert(n / 10 == digits_val(dl) && n % 10 == ds.last() as nat) by (nonlinear_arith)
            requires
                n == digits_val(dl) * 10 + ds.last() as nat,
                ds.last() < 10,
        ;
        assert(dec_digits(n) =~= ds);
    }
}

/// The `k`-digit string of a value below `10^k` is the string itself.
pub proof fn lemma_fixed_digits_of_seq(ds: Seq<u8>)
    requires
        forall|i: int| 0 <= i < ds.len() ==> #[trigger] ds[i] < 10,
    ensures
        fixed_digits(digits_val(ds), ds.len() as nat) == ds,
    decreases ds.len(),
{
    if ds.len() == 0 {
        assert(fixed_digits(digits_val(ds), 0) =~= ds);
    } else {
        let dl = ds.drop_last();
        lemma_fixed_digits_of_seq(dl);
        let n = digits_val(ds);
        assert(n == digits_val(dl) * 10 + ds.last() as nat);
        assert(n / 10 == digits_val(dl) && n % 10 == ds.last() as nat) by (nonlinear_arith)
            requires
                n == digits_val(dl) * 10 + ds.last() as nat,
                ds.last() < 10,
        ;
        assert(fixed_digits(n, ds.len() as nat) =~= ds);
    }
}

/// A non-empty digit string reaches half of its range exactly when its first
/// digit is five or more.
pub proof fn lemma_first_digit_half(ds: Seq<u8>)
    requires
        ds.len() >= 1,
        forall|i: int| 0 <= i < ds.len() ==> #[trigger] ds[i] < 10,
    ensures
        2 * digits_val(ds) >= pow10(ds.len() as nat) <==> ds[0] >= 5,
{
    lemma_digits_val_split(ds, 1);
    lemma_digits_val_single(ds);
    let p = pow10((ds.len() - 1) as nat);
    let rest = digits_val(ds.skip(1));
    assert(forall|i: int| 0 <= i < ds.skip(1).len() ==> #[trigger] ds.skip(1)[i] < 10);
    lemma_digits_val_bound(ds.skip(1));
    lemma_pow10_pos((ds.len() - 1) as nat);
    assert(pow10(ds.len() as nat) == 10 * p);
    assert(digits_val(ds) == ds[0] as nat * p + rest);
    if ds[0] >= 5 {
        assert(2 * (ds[0] as nat * p + rest) >= 10 * p) by (nonlinear_arith)
            requires
                ds[0] >= 5,
                p >= 1,
                rest >= 0,
        ;
    } else {
        assert(2 * (ds[0] as nat * p + rest) < 10 * p) by (nonlinear_arith)
            requires
                ds[0] <= 4,
                p >= 1,
                rest < p,
        ;
    }
}

/// The canonical digit string of `n`: most significant first, no leading
/// zeros (a single zero for `n == 0`).
pub open spec fn dec_digits(n: nat) -> Seq<u8>
    decreases n,
{
    if n < 10 {
        seq![n as u8]
    } else {
        dec_digits(n / 10).push((n % 10) as u8)
    }
}

/// The low `k` digits of `n`, zero padded, most significant first.
pub open spec fn fixed_digits(n: nat, k: nat) -> Seq<u8>
    decreases k,
{
    if k == 0 {
        Seq::<u8>::empty()
    } else {
        fixed_digits(n / 10, (k - 1) as nat).push((n % 10) as u8)
    }
}

/// Digit values rendered as ASCII bytes.
pub open spec fn ascii_digits(ds: Seq<u8>) -> Seq<u8> {
    ds.map_values(|v: u8| (v + scanner::DIGIT_ZERO) as u8)
}

/// Structure of a well-formed decimal literal `[sign] digits ['.' digits]
/// [e|E [sign] digits]`, with at least one mantissa digit and nothing left
/// over: the sign, the mantissa digit values, and the unscaled exponent.
/// `None` when the bytes are not such a literal.
pub open spec fn dec_of_literal(s: Seq<u8>) -> Option<(bool, Seq<u8>, int)> {
    let i0: int = if s.len() > 0 && scanner::is_sign(s[0]) {
        1
    } else {
        0
    };
    let neg = s.len() > 0 && s[0] == scanner::MINUS;
    let d1 = scanner::digit_run_end(s, i0);
    let fs: int = if d1 < s.len() && s[d1] == scanner::DOT {
        d1 + 1
    } else {
        d1
    };
    let d2 = scanner::digit_run_end(s, fs);
    if d1 == i0 && d2 == fs {
        None
    } else {
        let mantissa = s.subrange(i0, d1).add(s.subrange(fs, d2)).map_values(
            |c: u8| (c - scanner::DIGIT_ZERO) as u8,
        );
        let frac_len = d2 - fs;
        if d2 == s.len() {
            Some((neg, mantissa, -frac_len))
        } else if scanner::is_exp_marker(s[d2]) {
            let j: int = if d2 + 1 < s.len() && scanner::is_sign(s[d2 + 1]) {
                d2 + 2
            } else {
                d2 + 1
            };
            let eneg = d2 + 1 < s.len() && s[d2 + 1] == scanner::MINUS;
            if j < s.len() && scanner::is_digit(s[j]) && scanner::digit_run_end(s, j) == s.len() {
                let ev = digits_val(s.subrange(j, s.len() as int).map_values(
                    |c: u8| (c - scanner::DIGIT_ZERO) as u8,
                )) as int;
                if eneg {
                    Some((neg, mantissa, -ev - frac_len))
                } else {
                    Some((neg, mantissa, ev - frac_len))
                }
            } else {
                None
            }
        } else {
            None
        }
    }
}

/// Magnitude of the exponent sub-literal, `0` when there is none.
pub open spec fn literal_exp_mag(s: Seq<u8>) -> nat {
    let i0: int = if s.len() > 0 && scanner::is_sign(s[0]) {
        1
    } else {
        0
    };
    let d1 = scanner::digit_run_end(s, i0);
    let fs: int = if d1 < s.len() && s[d1] == scanner::DOT {
        d1 + 1
    } else {
        d1
    };
    let d2 = scanner::digit_run_end(s, fs);
    if d2 < s.len() && scanner::is_exp_marker(s[d2]) {
        let j: int = if d2 + 1 < s.len() && scanner::is_sign(s[d2 + 1]) {
            d2 + 2
        } else {
            d2 + 1
        };
        digits_val(s.subrange(j, s.len() as int).map_values(
            |c: u8| (c - scanner::DIGIT_ZERO) as u8,
        ))
    } else {
        0
    }
}

/// Does the literal stay inside the parser's size bounds?
pub open spec fn literal_within_limits(s: Seq<u8>) -> bool {
    match dec_of_literal(s) {
        Some((neg, mantissa, exp)) => mantissa.len() <= DIGIT_LIMIT && literal_exp_mag(s)
            <= EXP_LIMIT,
        None => false,
    }
}

/// Copies the digit run `s[from..to)` as digit values onto `out`.
fn push_digit_values(out: &mut Vec<u8>, s: &[u8], from: usize, to: usize)
    requires
        from <= to <= s@.len(),
        forall|i: int| from <= i < to ==> scanner::is_digit(#[trigger] s@[i]),
    ensures
        final(out)@ == old(out)@.add(
            s@.subrange(from as int, to as int).map_values(
                |c: u8| (c - scanner::DIGIT_ZERO) as u8,
            ),
        ),
{
    let mut i: usize = from;
    while i < to
        invariant
            from <= i <= to <= s@.len(),
            forall|k: int| from <= k < to ==> scanner::is_digit(#[trigger] s@[k]),
            out@ == old(out)@.add(
                s@.subrange(from as int, i as int).map_values(
                    |c: u8| (c - scanner::DIGIT_ZERO) as u8,
                ),
            ),
        decreases to - i,
    {
        out.push(s[i] - scanner::DIGIT_ZERO);
        proof {
            assert(s@.subrange(from as int, i + 1).map_values(
                |c: u8| (c - scanner::DIGIT_ZERO) as u8,
            ) =~= s@.subrange(from as int, i as int).map_values(
                |c: u8| (c - scanner::DIGIT_ZERO) as u8,
            ).push((s@[i as int] - scanner::DIGIT_ZERO) as u8));
        }
        i = i + 1;
    }
    proof {
        assert(out@ =~= old(out)@.add(
            s@.subrange(from as int, to as int).map_values(
                |c: u8| (c - scanner::DIGIT_ZERO) as u8,
            ),
        ));
    }
}

/// Reads the digit run `s[from..to)` as a number, capped just above `cap`.
pub fn read_capped(s: &[u8], from: usize, to: usize, cap: u64) -> (v: u64)
    requires
        from <= to <= s@.len(),
        forall|i: int| from <= i < to ==> scanner::is_digit(#[trigger] s@[i]),
        cap < u64::MAX / 16,
    ensures
        ({
            let exact = digits_val(
                s@.subrange(from as int, to as int).map_values(
                    |c: u8| (c - scanner::DIGIT_ZERO) as u8,
                ),
            );
            (exact <= cap ==> v == exact) && (exact > cap ==> v == cap + 1)
        }),
{
    let ghost m = s@.subrange(from as int, to as int).map_values(
        |c: u8| (c - scanner::DIGIT_ZERO) as u8,
    );
    let mut v: u64 = 0;
    let mut i: usize = from;
    while i < to
        invariant
            from <= i <= to <= s@.len(),
            forall|k: int| from <= k < to ==> scanner::is_digit(#[trigger] s@[k]),
            cap < u64::MAX / 16,
            ({
                let pre = s@.subrange(from as int, i as int).map_values(
                    |c: u8| (c - scanner::DIGIT_ZERO) as u8,
                );
                (digits_val(pre) <= cap ==> v == digits_val(pre)) && (digits_val(pre) > cap ==> v
                    == cap + 1)
            }),
        decreases to - i,
    {
        let ghost pre = s@.subrange(from as int, i as int).map_values(
            |c: u8| (c - scanner::DIGIT_ZERO) as u8,
        );
        let ghost post = s@.subrange(from as int, i + 1).map_values(
            |c: u8| (c - scanner::DIGIT_ZERO) as u8,
        );
        proof {
            assert(post.drop_last() =~= pre);
            assert(digits_val(post) == digits_val(pre) * 10 + post.last());
        }
        let d: u64 = (s[i] - scanner::DIGIT_ZERO) as u64;
        v = v * 10 + d;
        if v > cap {
            v = cap + 1;
        }
        i = i + 1;
    }
    proof {
        assert(s@.subrange(from as int, to as int).map_values(
            |c: u8| (c - scanner::DIGIT_ZERO) as u8,
        ) =~= m);
    }
    v
}

/// Parses a complete decimal literal into an exact `Decimal`.
///
/// Returns `None` exactly when the bytes are not a well-formed literal, or
/// when the literal exceeds the size bounds (`DIGIT_LIMIT` mantissa digits,
/// exponent magnitude `EXP_LIMIT`); the scanner's spans can carry a dangling
/// exponent marker, which is malformed here.
#[verifier::rlimit(100)]
pub fn parse_decimal(s: &[u8]) -> (r: Option<Decimal>)
    ensures
        match r {
            Some(d) => {
                &&& d.wf()
                &&& dec_of_literal(s@) == Some((d.neg, d.digits@, d.exp as int))
                &&& literal_within_limits(s@)
            },
            None => !literal_within_limits(s@),
        },
{
    let n = s.len();
    let has_sign = n > 0 && (s[0] == scanner::PLUS || s[0] == scanner::MINUS);
    let i0: usize = if has_sign {
        1
    } else {
        0
    };
    let neg = n > 0 && s[0] == scanner::MINUS;
    let d1 = scanner::skip_digits(s, i0);
    let has_dot = d1 < n && s[d1] == scanner::DOT;
    let fs: usize = if has_dot {
        d1 + 1
    } else {
        d1
    };
    let d2 = scanner::skip_digits(s, fs);
    if d1 == i0 && d2 == fs {
        return None;
    }
    proof {
        scanner::lemma_digit_run_end_bounds(s@, i0 as int);
        scanner::lemma_digit_run_end_bounds(s@, fs as int);
    }
    let frac_len = d2 - fs;
    let mant_len = (d1 - i0) + frac_len;
    if mant_len > DIGIT_LIMIT {
        return None;
    }
    let mut mantissa: Vec<u8> = Vec::new();
    push_digit_values(&mut mantissa, s, i0, d1);
    push_digit_values(&mut mantissa, s, fs, d2);
    proof {
        assert(mantissa@ =~= s@.subrange(i0 as int, d1 as int).add(
            s@.subrange(fs as int, d2 as int),
        ).map_values(|c: u8| (c - scanner::DIGIT_ZERO) as u8));
    }
    let exp_scaled: i64;
    if d2 == n {
        exp_scaled = 0 - (frac_len as i64);
    } else if s[d2] == scanner::LOWER_E || s[d2] == scanner::UPPER_E {
        let has_esign = d2 + 1 < n && (s[d2 + 1] == scanner::PLUS || s[d2 + 1] == scanner::MINUS);
        let j: usize = if has_esign {
            d2 + 2
        } else {
            d2 + 1
        };
        let eneg = d2 + 1 < n && s[d2 + 1] == scanner::MINUS;
        if j < n && scanner::DIGIT_ZERO <= s[j] && s[j] <= scanner::DIGIT_NINE {
            let e_end = scanner::skip_digits(s, j);
            if e_end != n {
                return None;
            }
            proof {
                scanner::lemma_digit_run_end_bounds(s@, j as int);
            }
            let ev = read_capped(s, j, n, EXP_LIMIT);
            if ev > EXP_LIMIT {
                return None;
            }
            if eneg {
                exp_scaled = 0 - (ev as i64) - (frac_len as i64);
            } else {
                exp_scaled = (ev as i64) - (frac_len as i64);
            }
        } else {
            return None;
        }
    } else {
        return None;
    }
    proof {
        assert forall|i: int| 0 <= i < mantissa@.len() implies #[trigger] mantissa@[i]
            < 10 by {
            let raw = s@.subrange(i0 as int, d1 as int).add(s@.subrange(fs as int, d2 as int));
            assert(mantissa@[i] == (raw[i] - scanner::DIGIT_ZERO) as u8);
            if i < d1 - i0 {
                assert(raw[i] == s@[i0 + i]);
            } else {
                assert(raw[i] == s@[fs + (i - (d1 - i0))]);
            }
        }
    }
    Some(Decimal { neg, digits: mantissa, exp: exp_scaled })
}

} // verus!
