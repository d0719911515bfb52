//! Literal scanner: recognises unsigned-integer and floating-point literal
//! spans embedded in free text, working on raw bytes.
//!
//! The scanners return the end position of the matched span, or `None` when
//! the position does not start a valid literal; on failure no input is
//! consumed (the caller's position is unchanged).
use vstd::prelude::*;

verus! {

/// Byte value of `'0'`.
pub const DIGIT_ZERO: u8 = 48;
/// Byte value of `'9'`.
pub const DIGIT_NINE: u8 = 57;

/// Is `c` an ASCII decimal digit?
pub open spec fn is_digit(c: u8) -> bool {
    DIGIT_ZERO <= c <= DIGIT_NINE
}

/// End of the maximal run of decimal digits starting at `i`.
pub open spec fn digit_run_end(s: Seq<u8>, i: int) -> int
    decreases s.len() - i,
{
    if 0 <= i < s.len() && is_digit(s[i]) {
        digit_run_end(s, i + 1)
    } else {
        i
    }
}

/// The digit run never moves backwards and stays within the input.
pub proof fn lemma_digit_run_end_bounds(s: Seq<u8>, i: int)
    requires
        0 <= i <= s.len(),
    ensures
        i <= digit_run_end(s, i) <= s.len(),
        forall|j: int| i <= j < digit_run_end(s, i) ==> is_digit(#[trigger] s[j]),
        digit_run_end(s, i) < s.len() ==> !is_digit(s[digit_run_end(s, i)]),
    decreases s.len() - i,
{
    if i < s.len() && is_digit(s[i]) {
        lemma_digit_run_end_bounds(s, i + 1);
    }
}

/// Executable form of `digit_run_end`: skip the digits from `pos` on.
pub fn skip_digits(s: &[u8], pos: usize) -> (end: usize)
    requires
        pos <= s@.len(),
    ensures
        end == digit_run_end(s@, pos as int),
        pos <= end <= s@.len(),
{
    let mut i: usize = pos;
    proof {
        lemma_digit_run_end_bounds(s@, pos as int);
    }
    while i < s.len() && DIGIT_ZERO <= s[i] && s[i] <= DIGIT_NINE
        invariant
            pos <= i <= s@.len(),
            digit_run_end(s@, pos as int) == digit_run_end(s@, i as int),
        decreases s@.len() - i,
    {
        i = i + 1;
    }
    proof {
        lemma_digit_run_end_bounds(s@, i as int);
    }
    i
}

/// A digit run reaching exactly to `j` has `j` as its end.
pub proof fn lemma_digit_run_end_exact(s: Seq<u8>, i: int, j: int)
    requires
        0 <= i <= j <= s.len(),
        forall|k: int| i <= k < j ==> is_digit(#[trigger] s[k]),
        j == s.len() || !is_digit(s[j]),
    ensures
        digit_run_end(s, i) == j,
    decreases j - i,
{
    if i < j {
        lemma_digit_run_end_exact(s, i + 1, j);
    }
}

/// Byte value of `' '`.
pub const SPACE: u8 = 32;
/// Byte value of `'\t'`.
pub const TAB: u8 = 9;
/// Byte value of `'\n'`.
pub const LF: u8 = 10;
/// Byte value of `'\r'`.
pub const CR: u8 = 13;

/// Is `c` a space or a tab (the in-line blank characters)?
pub open spec fn is_space(c: u8) -> bool {
    c == SPACE || c == TAB
}

/// Is `c` an ASCII letter?
pub open spec fn is_alpha(c: u8) -> bool {
    (65 <= c <= 90) || (97 <= c <= 122)
}

/// Is `c` a letter, a digit, or `'/'` (the characters of an attribute key)?
pub open spec fn is_key_char(c: u8) -> bool {
    is_alpha(c) || is_digit(c) || c == 47
}

/// End of the maximal run of blanks starting at `i`.
pub open spec fn space_run_end(s: Seq<u8>, i: int) -> int
    decreases s.len() - i,
{
    if 0 <= i < s.len() && is_space(s[i]) {
        space_run_end(s, i + 1)
    } else {
        i
    }
}

/// The blank run never moves backwards and stays within the input.
pub proof fn lemma_space_run_end_bounds(s: Seq<u8>, i: int)
    requires
        0 <= i <= s.len(),
    ensures
        i <= space_run_end(s, i) <= s.len(),
        forall|j: int| i <= j < space_run_end(s, i) ==> is_space(#[trigger] s[j]),
        space_run_end(s, i) < s.len() ==> !is_space(s[space_run_end(s, i)]),
    decreases s.len() - i,
{
    if i < s.len() && is_space(s[i]) {
        lemma_space_run_end_bounds(s, i + 1);
    }
}

/// Executable form of `space_run_end`: skip the blanks from `pos` on.
pub fn skip_spaces(s: &[u8], pos: usize) -> (end: usize)
    requires
        pos <= s@.len(),
    ensures
        end == space_run_end(s@, pos as int),
        pos <= end <= s@.len(),
{
    let mut i: usize = pos;
    proof {
        lemma_space_run_end_bounds(s@, pos as int);
    }
    while i < s.len() && (s[i] == SPACE || s[i] == TAB)
        invariant
            pos <= i <= s@.len(),
            space_run_end(s@, pos as int) == space_run_end(s@, i as int),
        decreases s@.len() - i,
    {
        i = i + 1;
    }
    proof {
        lemma_space_run_end_bounds(s@, i as int);
    }
    i
}

/// A blank run reaching exactly to `j` has `j` as its end.
pub proof fn lemma_space_run_end_exact(s: Seq<u8>, i: int, j: int)
    requires
        0 <= i <= j <= s.len(),
        forall|k: int| i <= k < j ==> is_space(#[trigger] s[k]),
        j == s.len() || !is_space(s[j]),
    ensures
        space_run_end(s, i) == j,
    decreases j - i,
{
    if i < j {
        lemma_space_run_end_exact(s, i + 1, j);
    }
}

/// End of the maximal run of letters starting at `i`.
pub open spec fn alpha_run_end(s: Seq<u8>, i: int) -> int
    decreases s.len() - i,
{
    if 0 <= i < s.len() && is_alpha(s[i]) {
        alpha_run_end(s, i + 1)
    } else {
        i
    }
}

/// The letter run never moves backwards and stays within the input.
pub proof fn lemma_alpha_run_end_bounds(s: Seq<u8>, i: int)
    requires
        0 <= i <= s.len(),
    ensures
        i <= alpha_run_end(s, i) <= s.len(),
        forall|j: int| i <= j < alpha_run_end(s, i) ==> is_alpha(#[trigger] s[j]),
        alpha_run_end(s, i) < s.len() ==> !is_alpha(s[alpha_run_end(s, i)]),
    decreases s.len() - i,
{
    if i < s.len() && is_alpha(s[i]) {
        lemma_alpha_run_end_bounds(s, i + 1);
    }
}

/// Executable form of `alpha_run_end`: skip the letters from `pos` on.
pub fn skip_alpha(s: &[u8], pos: usize) -> (end: usize)
    requires
        pos <= s@.len(),
    ensures
        end == alpha_run_end(s@, pos as int),
        pos <= end <= s@.len(),
{
    let mut i: usize = pos;
    proof {
        lemma_alpha_run_end_bounds(s@, pos as int);
    }
    while i < s.len() && ((65 <= s[i] && s[i] <= 90) || (97 <= s[i] && s[i] <= 122))
        invariant
            pos <= i <= s@.len(),
            alpha_run_end(s@, pos as int) == alpha_run_end(s@, i as int),
        decreases s@.len() - i,
    {
        i = i + 1;
    }
    proof {
        lemma_alpha_run_end_bounds(s@, i as int);
    }
    i
}

/// End of the maximal run of attribute-key characters starting at `i`.
pub open spec fn key_run_end(s: Seq<u8>, i: int) -> int
    decreases s.len() - i,
{
    if 0 <= i < s.len() && is_key_char(s[i]) {
        key_run_end(s, i + 1)
    } else {
        i
    }
}

/// The key run never moves backwards and stays within the input.
pub proof fn lemma_key_run_end_bounds(s: Seq<u8>, i: int)
    requires
        0 <= i <= s.len(),
    ensures
        i <= key_run_end(s, i) <= s.len(),
        forall|j: int| i <= j < key_run_end(s, i) ==> is_key_char(#[trigger] s[j]),
        key_run_end(s, i) < s.len() ==> !is_key_char(s[key_run_end(s, i)]),
    decreases s.len() - i,
{
    if i < s.len() && is_key_char(s[i]) {
        lemma_key_run_end_bounds(s, i + 1);
    }
}

/// Executable form of `key_run_end`: skip the key characters from `pos` on.
pub fn skip_key_chars(s: &[u8], pos: usize) -> (end: usize)
    requires
        pos <= s@.len(),
    ensures
        end == key_run_end(s@, pos as int),
        pos <= end <= s@.len(),
{
    let mut i: usize = pos;
    proof {
        lemma_key_run_end_bounds(s@, pos as int);
    }
    while i < s.len() && ((65 <= s[i] && s[i] <= 90) || (97 <= s[i] && s[i] <= 122) || (48 <= s[i]
        && s[i] <= 57) || s[i] == 47)
        invariant
            pos <= i <= s@.len(),
            key_run_end(s@, pos as int) == key_run_end(s@, i as int),
        decreases s@.len() - i,
    {
        i = i + 1;
    }
    proof {
        lemma_key_run_end_bounds(s@, i as int);
    }
    i
}

/// First position at or after `from` where `pat` occurs in `s`.
pub open spec fn find_seq(s: Seq<u8>, from: int, pat: Seq<u8>) -> Option<int>
    decreases s.len() - from,
{
    if 0 <= from && from + pat.len() <= s.len() && pat.len() >= 1 {
        if s.subrange(from, from + pat.len() as int) == pat {
            Some(from)
        } else {
            find_seq(s, from + 1, pat)
        }
    } else {
        None
    }
}

/// A found position is in range, and earlier positions do not match.
pub proof fn lemma_find_seq_bounds(s: Seq<u8>, from: int, pat: Seq<u8>)
    requires
        0 <= from <= s.len(),
    ensures
        match find_seq(s, from, pat) {
            Some(q) => from <= q && q + pat.len() <= s.len() && s.subrange(
                q,
                q + pat.len() as int,
            ) == pat,
            None => true,
        },
    decreases s.len() - from,
{
    if from + pat.len() <= s.len() && pat.len() >= 1 && s.subrange(
        from,
        from + pat.len() as int,
    ) != pat {
        lemma_find_seq_bounds(s, from + 1, pat);
    }
}

/// A pattern that matches at `q0` and nowhere earlier is found at `q0`.
pub proof fn lemma_find_seq_first(s: Seq<u8>, from: int, pat: Seq<u8>, q0: int)
    requires
        0 <= from <= q0,
        q0 + pat.len() <= s.len(),
        pat.len() >= 1,
        s.subrange(q0, q0 + pat.len() as int) == pat,
        forall|q: int|
            from <= q < q0 ==> #[trigger] s.subrange(q, q + pat.len() as int) != pat,
    ensures
        find_seq(s, from, pat) == Some(q0),
    decreases q0 - from,
{
    if from < q0 {
        lemma_find_seq_first(s, from + 1, pat, q0);
    }
}

/// A pattern holding a byte that the text does not hold is never found.
pub proof fn lemma_find_seq_none_without_byte(s: Seq<u8>, from: int, pat: Seq<u8>, idx: int)
    requires
        0 <= from <= s.len(),
        0 <= idx < pat.len(),
        forall|i: int| from <= i < s.len() ==> #[trigger] s[i] != pat[idx],
    ensures
        find_seq(s, from, pat) is None,
    decreases s.len() - from,
{
    if from + pat.len() <= s.len() && pat.len() >= 1 {
        assert(s.subrange(from, from + pat.len() as int)[idx] == s[from + idx]);
        assert(s.subrange(from, from + pat.len() as int) != pat);
        lemma_find_seq_none_without_byte(s, from + 1, pat, idx);
    }
}

/// Does `pat` occur at position `q`?
pub fn match_at(s: &[u8], q: usize, pat: &Vec<u8>) -> (r: bool)
    requires
        q + pat@.len() <= s@.len(),
    ensures
        r <==> s@.subrange(q as int, q + pat@.len()) == pat@,
{
    let n = s.len();
    let mut j: usize = 0;
    while j < pat.len()
        invariant
            j <= pat@.len(),
            n == s@.len(),
            q + pat@.len() <= s@.len(),
            forall|k: int| 0 <= k < j ==> s@[q + k] == pat@[k],
        decreases pat@.len() - j,
    {
        if s[q + j] != pat[j] {
            proof {
                assert(s@.subrange(q as int, q + pat@.len())[j as int] != pat@[j as int]);
            }
            return false;
        }
        j = j + 1;
    }
    proof {
        assert(s@.subrange(q as int, q + pat@.len()) =~= pat@);
    }
    true
}

/// Scans forward from `from` for the first occurrence of `pat`.
pub fn find_pat(s: &[u8], from: usize, pat: &Vec<u8>) -> (r: Option<usize>)
    requires
        from <= s@.len(),
        pat@.len() >= 1,
    ensures
        match r {
            Some(q) => find_seq(s@, from as int, pat@) == Some(q as int) && from <= q && q
                + pat@.len() <= s@.len(),
            None => find_seq(s@, from as int, pat@) is None,
        },
{
    let n = s.len();
    let m = pat.len();
    if n < m || from > n - m {
        return None;
    }
    let mut q: usize = from;
    while q <= n - m
        invariant
            from <= q <= n - m + 1,
            m == pat@.len() >= 1,
            n == s@.len(),
            m <= n,
            find_seq(s@, from as int, pat@) == find_seq(s@, q as int, pat@),
        decreases n - q,
    {
        if match_at(s, q, pat) {
            proof {
                lemma_find_seq_bounds(s@, q as int, pat@);
            }
            return Some(q);
        }
        q = q + 1;
    }
    None
}

/// Span of an unsigned decimal integer at `pos`: the maximal non-empty digit
/// run, as the format defines a bare index or count.
pub open spec fn decimal_end(s: Seq<u8>, i: int) -> Option<int> {
    if 0 <= i < s.len() && is_digit(s[i]) {
        Some(digit_run_end(s, i))
    } else {
        None
    }
}

/// Scanner for an unsigned decimal integer literal.
pub fn decimal(s: &[u8], pos: usize) -> (r: Option<usize>)
    requires
        pos <= s@.len(),
    ensures
        match r {
            Some(end) => decimal_end(s@, pos as int) == Some(end as int) && pos < end <= s@.len(),
            None => decimal_end(s@, pos as int) is None,
        },
{
    if pos < s.len() && DIGIT_ZERO <= s[pos] && s[pos] <= DIGIT_NINE {
        proof {
            lemma_digit_run_end_bounds(s@, pos as int);
            assert(digit_run_end(s@, pos as int) == digit_run_end(s@, pos + 1));
            lemma_digit_run_end_bounds(s@, pos + 1);
        }
        Some(skip_digits(s, pos))
    } else {
        None
    }
}

/// Byte value of `'.'`.
pub const DOT: u8 = 46;
/// Byte value of `'+'`.
pub const PLUS: u8 = 43;
/// Byte value of `'-'`.
pub const MINUS: u8 = 45;
/// Byte value of `'e'`.
pub const LOWER_E: u8 = 101;
/// Byte value of `'E'`.
pub const UPPER_E: u8 = 69;

/// Is `c` an exponent marker?
pub open spec fn is_exp_marker(c: u8) -> bool {
    c == LOWER_E || c == UPPER_E
}

/// Is `c` a sign?
pub open spec fn is_sign(c: u8) -> bool {
    c == PLUS || c == MINUS
}

/// An optional exponent suffix: `e`/`E`, an optional sign, then a mandatory
/// digit run.  When the digits are missing the whole suffix is left
/// unconsumed, so the scan position stays at `i`.
pub open spec fn opt_exponent_end(s: Seq<u8>, i: int) -> int {
    if 0 <= i < s.len() && is_exp_marker(s[i]) {
        let j = if i + 1 < s.len() && is_sign(s[i + 1]) {
            i + 2
        } else {
            i + 1
        };
        if j < s.len() && is_digit(s[j]) {
            digit_run_end(s, j)
        } else {
            i
        }
    } else {
        i
    }
}

/// Form `.42`, with an optional exponent: a dot, a mandatory digit run, then
/// an optional exponent suffix.
pub open spec fn float_frac_form_end(s: Seq<u8>, i: int) -> Option<int> {
    if 0 <= i < s.len() && s[i] == DOT && i + 1 < s.len() && is_digit(s[i + 1]) {
        Some(opt_exponent_end(s, digit_run_end(s, i + 1)))
    } else {
        None
    }
}

/// Form `42e42` or `42.42e42`: a digit run, an optional dot-and-digit-run,
/// then a mandatory exponent (marker, optional sign, digit run).
pub open spec fn float_exp_form_end(s: Seq<u8>, i: int) -> Option<int> {
    if 0 <= i < s.len() && is_digit(s[i]) {
        let d1 = digit_run_end(s, i);
        let d2 = if d1 < s.len() && s[d1] == DOT && d1 + 1 < s.len() && is_digit(s[d1 + 1]) {
            digit_run_end(s, d1 + 1)
        } else {
            d1
        };
        if d2 < s.len() && is_exp_marker(s[d2]) {
            let j = if d2 + 1 < s.len() && is_sign(s[d2 + 1]) {
                d2 + 2
            } else {
                d2 + 1
            };
            if j < s.len() && is_digit(s[j]) {
                Some(digit_run_end(s, j))
            } else {
                None
            }
        } else {
            None
        }
    } else {
        None
    }
}

/// Form `42.`, `+42.`, `42.42`, `-42.e-05`: an optional sign, a mandatory
/// digit run, a mandatory dot, an optional digit run, then an optional
/// exponent marker, optional sign and optional digit run, each consumed
/// independently when present.
pub open spec fn float_dot_form_end(s: Seq<u8>, i: int) -> Option<int> {
    if 0 <= i <= s.len() {
        let j = if i < s.len() && is_sign(s[i]) {
            i + 1
        } else {
            i
        };
        if j < s.len() && is_digit(s[j]) {
            let d1 = digit_run_end(s, j);
            if d1 < s.len() && s[d1] == DOT {
                let d2 = digit_run_end(s, d1 + 1);
                let k = if d2 < s.len() && is_exp_marker(s[d2]) {
                    d2 + 1
                } else {
                    d2
                };
                let k2 = if k < s.len() && is_sign(s[k]) {
                    k + 1
                } else {
                    k
                };
                Some(digit_run_end(s, k2))
            } else {
                None
            }
        } else {
            None
        }
    } else {
        None
    }
}

/// Span of a floating-point literal at `i`: the first of the three forms
/// that matches, in the order the format defines them.
pub open spec fn float_end(s: Seq<u8>, i: int) -> Option<int> {
    if float_frac_form_end(s, i) is Some {
        float_frac_form_end(s, i)
    } else if float_exp_form_end(s, i) is Some {
        float_exp_form_end(s, i)
    } else {
        float_dot_form_end(s, i)
    }
}

/// Scanner for a floating-point literal, tolerant of a missing integer part
/// before the dot, of a missing fractional part after it, and of an optional
/// sign and exponent.
pub fn float(s: &[u8], pos: usize) -> (r: Option<usize>)
    requires
        pos <= s@.len(),
    ensures
        match r {
            Some(end) => float_end(s@, pos as int) == Some(end as int) && pos <= end <= s@.len(),
            None => float_end(s@, pos as int) is None,
        },
{
    if let Some(end) = float_frac_form(s, pos) {
        Some(end)
    } else if let Some(end) = float_exp_form(s, pos) {
        Some(end)
    } else {
        float_dot_form(s, pos)
    }
}

/// Executable form of `opt_exponent_end`.
fn opt_exponent(s: &[u8], pos: usize) -> (end: usize)
    requires
        pos <= s@.len(),
    ensures
        end == opt_exponent_end(s@, pos as int),
        pos <= end <= s@.len(),
{
    if pos < s.len() && (s[pos] == LOWER_E || s[pos] == UPPER_E) {
        let j: usize = if pos + 1 < s.len() && (s[pos + 1] == PLUS || s[pos + 1] == MINUS) {
            pos + 2
        } else {
            pos + 1
        };
        if j < s.len() && DIGIT_ZERO <= s[j] && s[j] <= DIGIT_NINE {
            skip_digits(s, j)
        } else {
            pos
        }
    } else {
        pos
    }
}

/// Executable form of `float_frac_form_end`.
fn float_frac_form(s: &[u8], pos: usize) -> (r: Option<usize>)
    requires
        pos <= s@.len(),
    ensures
        match r {
            Some(end) => float_frac_form_end(s@, pos as int) == Some(end as int) && pos <= end
                <= s@.len(),
            None => float_frac_form_end(s@, pos as int) is None,
        },
{
    if pos < s.len() && s[pos] == DOT && pos + 1 < s.len() && DIGIT_ZERO <= s[pos + 1] && s[pos + 1]
        <= DIGIT_NINE {
        let d = skip_digits(s, pos + 1);
        Some(opt_exponent(s, d))
    } else {
        None
    }
}

/// Executable form of `float_exp_form_end`.
fn float_exp_form(s: &[u8], pos: usize) -> (r: Option<usize>)
    requires
        pos <= s@.len(),
    ensures
        match r {
            Some(end) => float_exp_form_end(s@, pos as int) == Some(end as int) && pos <= end
                <= s@.len(),
            None => float_exp_form_end(s@, pos as int) is None,
        },
{
    if pos < s.len() && DIGIT_ZERO <= s[pos] && s[pos] <= DIGIT_NINE {
        let d1 = skip_digits(s, pos);
        let d2: usize = if d1 < s.len() && s[d1] == DOT && d1 + 1 < s.len() && DIGIT_ZERO <= s[d1
            + 1] && s[d1 + 1] <= DIGIT_NINE {
            skip_digits(s, d1 + 1)
        } else {
            d1
        };
        if d2 < s.len() && (s[d2] == LOWER_E || s[d2] == UPPER_E) {
            let j: usize = if d2 + 1 < s.len() && (s[d2 + 1] == PLUS || s[d2 + 1] == MINUS) {
                d2 + 2
            } else {
                d2 + 1
            };
            if j < s.len() && DIGIT_ZERO <= s[j] && s[j] <= DIGIT_NINE {
                Some(skip_digits(s, j))
            } else {
                None
            }
        } else {
            None
        }
    } else {
        None
    }
}

/// Executable form of `float_dot_form_end`.
fn float_dot_form(s: &[u8], pos: usize) -> (r: Option<usize>)
    requires
        pos <= s@.len(),
    ensures
        match r {
            Some(end) => float_dot_form_end(s@, pos as int) == Some(end as int) && pos <= end
                <= s@.len(),
            None => float_dot_form_end(s@, pos as int) is None,
        },
{
    let j: usize = if pos < s.len() && (s[pos] == PLUS || s[pos] == MINUS) {
        pos + 1
    } else {
        pos
    };
    if j < s.len() && DIGIT_ZERO <= s[j] && s[j] <= DIGIT_NINE {
        let d1 = skip_digits(s, j);
        if d1 < s.len() && s[d1] == DOT {
            let d2 = skip_digits(s, d1 + 1);
            let k: usize = if d2 < s.len() && (s[d2] == LOWER_E || s[d2] == UPPER_E) {
                d2 + 1
            } else {
                d2
            };
            let k2: usize = if k < s.len() && (s[k] == PLUS || s[k] == MINUS) {
                k + 1
            } else {
                k
            };
            Some(skip_digits(s, k2))
        } else {
            None
        }
    } else {
        None
    }
}

} // verus!
