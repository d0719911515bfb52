//! Semantic extractors over accumulated blocks.
//!
//! After the structural walk, each bucket holds raw field contents.  The
//! extractors pull typed values out of them: the species pair, the
//! coordinate triple and the identifier of an atom block; the lattice
//! vectors, the periodicity, the space group and the tolerance from the
//! attribute bucket, which is first keyed into a last-wins lookup table.
use vstd::prelude::*;
use crate::atom::AtomCollection;
use crate::atom::Coord3;
use crate::lattice::LatticeModel;
use crate::lattice::LatticeVectors;
use crate::model_type::MsiModel;
use crate::model_type::Settings;
use crate::numeric;
use crate::numeric::Decimal;
use crate::numeric::digits_val;
use crate::scanner;
use crate::state_machine::RPAREN;
use crate::state_machine::byte_views;

verus! {

/// Byte value of `'"'`.
pub const QUOTE: u8 = 34;

/// The digits of `s[i..j)` read as a number.
pub open spec fn span_val(s: Seq<u8>, i: int, j: int) -> nat {
    digits_val(s.subrange(i, j).map_values(|c: u8| (c - scanner::DIGIT_ZERO) as u8))
}

/// Does the literal `lit` denote exactly the decimal `d`?
pub open spec fn dec_matches(lit: Seq<u8>, d: Decimal) -> bool {
    numeric::dec_of_literal(lit) == Some((d.neg, d.digits@, d.exp as int))
}

/// The attribute key of a content: the run of letters, digits and slashes
/// after the first letter word, both followed by at least one blank.
/// Yields the key span.
pub open spec fn attr_key_spec(c: Seq<u8>) -> Option<(int, int)> {
    let a = scanner::alpha_run_end(c, 0);
    if a > 0 {
        let s1 = scanner::space_run_end(c, a);
        if s1 > a {
            let k = scanner::key_run_end(c, s1);
            if k > s1 {
                let s2 = scanner::space_run_end(c, k);
                if s2 > k {
                    Some((s1, k))
                } else {
                    None
                }
            } else {
                None
            }
        } else {
            None
        }
    } else {
        None
    }
}

/// Extracts the attribute key span of a content, without consuming it.
pub fn get_attribute_type(c: &[u8]) -> (r: Option<(usize, usize)>)
    ensures
        match r {
            Some((k0, k1)) => attr_key_spec(c@) == Some((k0 as int, k1 as int)) && k0 <= k1
                <= c@.len(),
            None => attr_key_spec(c@) is None,
        },
{
    let a = scanner::skip_alpha(c, 0);
    if a > 0 {
        let s1 = scanner::skip_spaces(c, a);
        if s1 > a {
            let k = scanner::skip_key_chars(c, s1);
            if k > s1 {
                let s2 = scanner::skip_spaces(c, k);
                if s2 > k {
                    Some((s1, k))
                } else {
                    None
                }
            } else {
                None
            }
        } else {
            None
        }
    } else {
        None
    }
}

/// Does `pat` stand at `q` in `s`?
pub fn tag_at(s: &[u8], q: usize, pat: &Vec<u8>) -> (r: bool)
    requires
        q <= s@.len(),
    ensures
        r <==> (q + pat@.len() <= s@.len() && s@.subrange(q as int, q + pat@.len()) == pat@),
{
    if pat.len() <= s.len() - q {
        scanner::match_at(s, q, pat)
    } else {
        false
    }
}

/// The species pair of an atom block line `C ACL "<number> <symbol>"`:
/// the spans of the atomic number and of the symbol.
pub open spec fn acl_spec(c: Seq<u8>) -> Option<(int, int, int, int)> {
    if c.len() > 0 && c[0] == 67 {
        let s1 = scanner::space_run_end(c, 1);
        if s1 > 1 && s1 + 3 <= c.len() && c.subrange(s1, s1 + 3) == seq![65u8, 67u8, 76u8] {
            let s2 = scanner::space_run_end(c, s1 + 3);
            if s2 > s1 + 3 && s2 < c.len() && c[s2] == QUOTE {
                let d = scanner::digit_run_end(c, s2 + 1);
                if d > s2 + 1 {
                    let s3 = scanner::space_run_end(c, d);
                    if s3 > d {
                        let a = scanner::alpha_run_end(c, s3);
                        if a > s3 && a < c.len() && c[a] == QUOTE {
                            Some((s2 + 1, d, s3, a))
                        } else {
                            None
                        }
                    } else {
                        None
                    }
                } else {
                    None
                }
            } else {
                None
            }
        } else {
            None
        }
    } else {
        None
    }
}

/// Extracts the species pair of an atom block line: the atomic number and
/// the element symbol.  `Ok(None)` when the line is not a species line;
/// `Err` exactly when it is one whose number does not fit the periodic
/// table range.
pub fn parse_acl(c: &[u8]) -> (r: Result<Option<(u8, Vec<u8>)>, ()>)
    ensures
        match r {
            Ok(Some((num, sym))) => {
                &&& acl_spec(c@) matches Some((n0, n1, s0, s1)) && num as nat == span_val(
                    c@,
                    n0,
                    n1,
                ) && sym@ == c@.subrange(s0, s1)
            },
            Ok(None) => acl_spec(c@) is None,
            Err(e) => acl_spec(c@) matches Some((n0, n1, s0, s1)) && span_val(c@, n0, n1) > 255,
        },
{
    if !(c.len() > 0 && c[0] == 67) {
        return Ok(None);
    }
    let s1 = scanner::skip_spaces(c, 1);
    let acl_pat: Vec<u8> = vec![65, 67, 76];
    if !(s1 > 1 && tag_at(c, s1, &acl_pat)) {
        return Ok(None);
    }
    let s2 = scanner::skip_spaces(c, s1 + 3);
    if !(s2 > s1 + 3 && s2 < c.len() && c[s2] == QUOTE) {
        return Ok(None);
    }
    let d = scanner::skip_digits(c, s2 + 1);
    if !(d > s2 + 1) {
        return Ok(None);
    }
    let s3 = scanner::skip_spaces(c, d);
    if !(s3 > d) {
        return Ok(None);
    }
    let a = scanner::skip_alpha(c, s3);
    if !(a > s3 && a < c.len() && c[a] == QUOTE) {
        return Ok(None);
    }
    proof {
        scanner::lemma_digit_run_end_bounds(c@, s2 + 1);
    }
    let num = numeric::read_capped(c, s2 + 1, d, 255);
    if num > 255 {
        return Err(());
    }
    let sym = crate::state_machine::copy_range(c, s3, a);
    Ok(Some((num as u8, sym)))
}

/// The end of a numeric literal at `i`: a floating form if one matches,
/// else a bare digit run.
pub open spec fn lit_end(s: Seq<u8>, i: int) -> Option<int> {
    match scanner::float_end(s, i) {
        Some(e) => Some(e),
        None => scanner::decimal_end(s, i),
    }
}

/// Scans one numeric literal.
pub fn scan_lit(s: &[u8], pos: usize) -> (r: Option<usize>)
    requires
        pos <= s@.len(),
    ensures
        match r {
            Some(e) => lit_end(s@, pos as int) == Some(e as int) && pos <= e <= s@.len(),
            None => lit_end(s@, pos as int) is None,
        },
{
    if let Some(e) = scanner::float(s, pos) {
        Some(e)
    } else {
        scanner::decimal(s, pos)
    }
}

/// Further literals after one, each separated by at least one blank:
/// the spans and the position after the last.
pub open spec fn lit_more(s: Seq<u8>, i: int) -> (Seq<(int, int)>, int)
    decreases s.len() - i,
{
    if 0 <= i <= s.len() {
        let sp = scanner::space_run_end(s, i);
        if sp > i {
            match lit_end(s, sp) {
                Some(e) => if sp < e <= s.len() {
                    let (more, fin) = lit_more(s, e);
                    (seq![(sp, e)] + more, fin)
                } else {
                    (Seq::<(int, int)>::empty(), i)
                },
                None => (Seq::<(int, int)>::empty(), i),
            }
        } else {
            (Seq::<(int, int)>::empty(), i)
        }
    } else {
        (Seq::<(int, int)>::empty(), i)
    }
}

/// A list of one or more blank-separated literals at `i`: the spans and
/// the position after the last.
pub open spec fn lit_list(s: Seq<u8>, i: int) -> Option<(Seq<(int, int)>, int)> {
    match lit_end(s, i) {
        Some(e) => if 0 <= i < e <= s.len() {
            let (more, fin) = lit_more(s, e);
            Some((seq![(i, e)] + more, fin))
        } else {
            None
        },
        None => None,
    }
}

/// Collects the blank-separated literals at `pos`, returning their spans
/// and the scan end.
fn scan_lit_list(s: &[u8], pos: usize) -> (r: Option<(Vec<(usize, usize)>, usize)>)
    requires
        pos <= s@.len(),
    ensures
        match r {
            Some((spans, fin)) => lit_list(s@, pos as int) matches Some((sp, f)) && f == fin as int
                && sp.len() == spans@.len() && fin <= s@.len() && (forall|k: int|
                0 <= k < sp.len() ==> sp[k].0 == (#[trigger] spans@[k]).0 as int && sp[k].1
                    == spans@[k].1 as int && spans@[k].0 <= spans@[k].1 <= s@.len()),
            None => lit_list(s@, pos as int) is None,
        },
{
    let first_end = scan_lit(s, pos);
    if first_end.is_none() {
        return None;
    }
    let e0 = first_end.unwrap();
    if !(pos < e0) {
        return None;
    }
    let mut spans: Vec<(usize, usize)> = Vec::new();
    spans.push((pos, e0));
    let mut cur = e0;
    let ghost mut done: Seq<(int, int)> = Seq::empty();
    loop
        invariant
            cur <= s@.len(),
            spans@.len() == 1 + done.len(),
            spans@[0] == (pos, e0),
            pos < e0 <= s@.len(),
            lit_more(s@, e0 as int) == {
                let (m, f) = lit_more(s@, cur as int);
                (done + m, f)
            },
            forall|k: int|
                0 <= k < done.len() ==> done[k].0 == (#[trigger] spans@[k + 1]).0 as int
                    && done[k].1 == spans@[k + 1].1 as int && spans@[k + 1].0 <= spans@[k + 1].1
                    <= s@.len(),
        ensures
            cur <= s@.len(),
            spans@.len() == 1 + done.len(),
            spans@[0] == (pos, e0),
            pos < e0 <= s@.len(),
            lit_more(s@, e0 as int) == (done, cur as int),
            forall|k: int|
                0 <= k < done.len() ==> done[k].0 == (#[trigger] spans@[k + 1]).0 as int
                    && done[k].1 == spans@[k + 1].1 as int && spans@[k + 1].0 <= spans@[k + 1].1
                    <= s@.len(),
        decreases s@.len() - cur,
    {
        let sp = scanner::skip_spaces(s, cur);
        if sp == cur {
            proof {
                assert(lit_more(s@, cur as int) == (Seq::<(int, int)>::empty(), cur as int));
                assert(done + Seq::<(int, int)>::empty() =~= done);
            }
            break;
        }
        let lit = scan_lit(s, sp);
        if lit.is_none() {
            proof {
                assert(lit_more(s@, cur as int) == (Seq::<(int, int)>::empty(), cur as int));
                assert(done + Seq::<(int, int)>::empty() =~= done);
            }
            break;
        }
        let e = lit.unwrap();
        if !(sp < e) {
            proof {
                assert(lit_more(s@, cur as int) == (Seq::<(int, int)>::empty(), cur as int));
                assert(done + Seq::<(int, int)>::empty() =~= done);
            }
            break;
        }
        proof {
            let m_cur = lit_more(s@, cur as int).0;
            let m_e = lit_more(s@, e as int).0;
            assert(m_cur == seq![(sp as int, e as int)] + m_e && lit_more(s@, cur as int).1
                == lit_more(s@, e as int).1);
            assert(done + m_cur =~= (done + seq![(sp as int, e as int)]) + m_e);
            assert(done.push((sp as int, e as int)) =~= done + seq![(sp as int, e as int)]);
        }
        spans.push((sp, e));
        proof {
            done = done.push((sp as int, e as int));
        }
        cur = e;
    }
    proof {
        assert(lit_list(s@, pos as int) matches Some((sp, f)) && sp == seq![
            (pos as int, e0 as int),
        ] + done && f == cur as int);
        assert forall|k: int| 0 <= k < 1 + done.len() implies (seq![(pos as int, e0 as int)]
            + done)[k].0 == (#[trigger] spans@[k]).0 as int && (seq![(pos as int, e0 as int)]
            + done)[k].1 == spans@[k].1 as int && spans@[k].0 <= spans@[k].1 <= s@.len() by {
            if k > 0 {
                assert((seq![(pos as int, e0 as int)] + done)[k] == done[k - 1]);
                assert(spans@[(k - 1) + 1] == spans@[k]);
                assert(done[k - 1].0 == spans@[(k - 1) + 1].0 as int && done[k - 1].1 == spans@[(
                k - 1) + 1].1 as int);
            } else {
                assert((seq![(pos as int, e0 as int)] + done)[0] == (pos as int, e0 as int));
            }
        }
    }
    Some((spans, cur))
}

/// The coordinate triple of an atom block line `D XYZ (<literals>)`: the
/// spans of the blank-separated literals between the parens.
pub open spec fn xyz_spec(c: Seq<u8>) -> Option<Seq<(int, int)>> {
    if c.len() > 0 && c[0] == 68 {
        let s1 = scanner::space_run_end(c, 1);
        if s1 > 1 && s1 + 3 <= c.len() && c.subrange(s1, s1 + 3) == seq![88u8, 89u8, 90u8] {
            let s2 = scanner::space_run_end(c, s1 + 3);
            if s2 > s1 + 3 && s2 < c.len() && c[s2] == crate::state_machine::LPAREN {
                match lit_list(c, s2 + 1) {
                    Some((spans, fin)) => if fin < c.len() && c[fin] == RPAREN {
                        Some(spans)
                    } else {
                        None
                    },
                    None => None,
                }
            } else {
                None
            }
        } else {
            None
        }
    } else {
        None
    }
}

/// Do the first three literal spans all parse within the size bounds?
pub open spec fn xyz_within_limits(c: Seq<u8>, spans: Seq<(int, int)>) -> bool {
    &&& spans.len() >= 3
    &&& numeric::literal_within_limits(c.subrange(spans[0].0, spans[0].1))
    &&& numeric::literal_within_limits(c.subrange(spans[1].0, spans[1].1))
    &&& numeric::literal_within_limits(c.subrange(spans[2].0, spans[2].1))
}

/// Extracts the cartesian coordinate triple of an atom block line.
/// `Ok(None)` when the line is not a coordinate line; `Err` exactly when it
/// is one with fewer than three literals or a literal out of bounds.
pub fn parse_xyz(c: &[u8]) -> (r: Result<Option<crate::atom::Coord3>, ()>)
    ensures
        match r {
            Ok(Some(coord)) => {
                &&& xyz_spec(c@) matches Some(spans) && xyz_within_limits(c@, spans)
                    && dec_matches(c@.subrange(spans[0].0, spans[0].1), coord.x) && dec_matches(
                    c@.subrange(spans[1].0, spans[1].1),
                    coord.y,
                ) && dec_matches(c@.subrange(spans[2].0, spans[2].1), coord.z)
                &&& coord.wf()
            },
            Ok(None) => xyz_spec(c@) is None,
            Err(e) => xyz_spec(c@) matches Some(spans) && !xyz_within_limits(c@, spans),
        },
{
    if !(c.len() > 0 && c[0] == 68) {
        return Ok(None);
    }
    let s1 = scanner::skip_spaces(c, 1);
    let xyz_pat: Vec<u8> = vec![88, 89, 90];
    if !(s1 > 1 && tag_at(c, s1, &xyz_pat)) {
        return Ok(None);
    }
    let s2 = scanner::skip_spaces(c, s1 + 3);
    if !(s2 > s1 + 3 && s2 < c.len() && c[s2] == crate::state_machine::LPAREN) {
        return Ok(None);
    }
    let lits = scan_lit_list(c, s2 + 1);
    if lits.is_none() {
        return Ok(None);
    }
    let (spans, fin) = lits.unwrap();
    if !(fin < c.len() && c[fin] == RPAREN) {
        return Ok(None);
    }
    if spans.len() < 3 {
        return Err(());
    }
    let (x0, x1) = spans[0];
    let (y0, y1) = spans[1];
    let (z0, z1) = spans[2];
    let x = parse_lit_decimal(c, x0, x1);
    let y = parse_lit_decimal(c, y0, y1);
    let z = parse_lit_decimal(c, z0, z1);
    match (x, y, z) {
        (Some(x), Some(y), Some(z)) => Ok(Some(crate::atom::Coord3 { x, y, z })),
        _ => Err(()),
    }
}

/// Parses the literal `c[i..j)` into an exact decimal.
fn parse_lit_decimal(c: &[u8], i: usize, j: usize) -> (r: Option<Decimal>)
    requires
        i <= j <= c@.len(),
    ensures
        match r {
            Some(d) => d.wf() && dec_matches(c@.subrange(i as int, j as int), d)
                && numeric::literal_within_limits(c@.subrange(i as int, j as int)),
            None => !numeric::literal_within_limits(c@.subrange(i as int, j as int)),
        },
{
    let lit = crate::state_machine::copy_range(c, i, j);
    numeric::parse_decimal(lit.as_slice())
}

/// The identifier of an atom block line `I Id <digits>`: the digit span.
pub open spec fn id_spec(c: Seq<u8>) -> Option<(int, int)> {
    if c.len() > 0 && c[0] == 73 {
        let s1 = scanner::space_run_end(c, 1);
        if s1 > 1 && s1 + 2 <= c.len() && c.subrange(s1, s1 + 2) == seq![73u8, 100u8] {
            let s2 = scanner::space_run_end(c, s1 + 2);
            if s2 > s1 + 2 && s2 < c.len() && scanner::is_digit(c[s2]) {
                Some((s2, scanner::digit_run_end(c, s2)))
            } else {
                None
            }
        } else {
            None
        }
    } else {
        None
    }
}

/// Extracts the identifier of an atom block line.  `Ok(None)` when the
/// line is not an identifier line; `Err` exactly when the number does not
/// fit the id range.
pub fn parse_id(c: &[u8]) -> (r: Result<Option<u32>, ()>)
    ensures
        match r {
            Ok(Some(id)) => id_spec(c@) matches Some((i0, i1)) && id as nat == span_val(
                c@,
                i0,
                i1,
            ),
            Ok(None) => id_spec(c@) is None,
            Err(e) => id_spec(c@) matches Some((i0, i1)) && span_val(c@, i0, i1) > u32::MAX,
        },
{
    if !(c.len() > 0 && c[0] == 73) {
        return Ok(None);
    }
    let s1 = scanner::skip_spaces(c, 1);
    let id_pat: Vec<u8> = vec![73, 100];
    if !(s1 > 1 && tag_at(c, s1, &id_pat)) {
        return Ok(None);
    }
    let s2 = scanner::skip_spaces(c, s1 + 2);
    if !(s2 > s1 + 2 && s2 < c.len() && scanner::DIGIT_ZERO <= c[s2] && c[s2]
        <= scanner::DIGIT_NINE) {
        return Ok(None);
    }
    let d = scanner::skip_digits(c, s2);
    proof {
        scanner::lemma_digit_run_end_bounds(c@, s2 as int);
    }
    let v = numeric::read_capped(c, s2, d, 4294967295);
    if v > 4294967295 {
        return Err(());
    }
    Ok(Some(v as u32))
}

/// The label of an atom block line `C Label "<word>"`: the span of the
/// word, or nothing when the line is no label line (a label is optional,
/// so its absence is never a failure).
pub open spec fn label_spec(c: Seq<u8>) -> Option<(int, int)> {
    if c.len() > 0 && c[0] == 67 {
        let s1 = scanner::space_run_end(c, 1);
        if s1 > 1 && s1 + 5 <= c.len() && c.subrange(s1, s1 + 5) == seq![
            76u8,
            97u8,
            98u8,
            101u8,
            108u8,
        ] {
            let s2 = scanner::space_run_end(c, s1 + 5);
            if s2 > s1 + 5 && s2 < c.len() && c[s2] == QUOTE {
                let a = alnum_run_end(c, s2 + 1);
                if a > s2 + 1 && a < c.len() && c[a] == QUOTE {
                    Some((s2 + 1, a))
                } else {
                    None
                }
            } else {
                None
            }
        } else {
            None
        }
    } else {
        None
    }
}

/// End of the maximal run of letters and digits starting at `i`.
pub open spec fn alnum_run_end(s: Seq<u8>, i: int) -> int
    decreases s.len() - i,
{
    if 0 <= i < s.len() && (scanner::is_alpha(s[i]) || scanner::is_digit(s[i])) {
        alnum_run_end(s, i + 1)
    } else {
        i
    }
}

/// The run of letters and digits never moves backwards.
proof fn lemma_alnum_run_end_bounds(s: Seq<u8>, i: int)
    requires
        0 <= i <= s.len(),
    ensures
        i <= alnum_run_end(s, i) <= s.len(),
    decreases s.len() - i,
{
    if i < s.len() && (scanner::is_alpha(s[i]) || scanner::is_digit(s[i])) {
        lemma_alnum_run_end_bounds(s, i + 1);
    }
}

/// Extracts the optional label span of an atom block line.
pub fn parse_label(c: &[u8]) -> (r: Option<(usize, usize)>)
    ensures
        match r {
            Some((l0, l1)) => label_spec(c@) == Some((l0 as int, l1 as int)),
            None => label_spec(c@) is None,
        },
{
    if !(c.len() > 0 && c[0] == 67) {
        return None;
    }
    let s1 = scanner::skip_spaces(c, 1);
    let label_pat: Vec<u8> = vec![76, 97, 98, 101, 108];
    if !(s1 > 1 && tag_at(c, s1, &label_pat)) {
        return None;
    }
    let s2 = scanner::skip_spaces(c, s1 + 5);
    if !(s2 > s1 + 5 && s2 < c.len() && c[s2] == QUOTE) {
        return None;
    }
    let mut a: usize = s2 + 1;
    proof {
        lemma_alnum_run_end_bounds(c@, s2 + 1);
    }
    while a < c.len() && ((65 <= c[a] && c[a] <= 90) || (97 <= c[a] && c[a] <= 122) || (48 <= c[a]
        && c[a] <= 57))
        invariant
            s2 + 1 <= a <= c@.len(),
            alnum_run_end(c@, s2 + 1) == alnum_run_end(c@, a as int),
        decreases c@.len() - a,
    {
        a = a + 1;
    }
    proof {
        lemma_alnum_run_end_bounds(c@, a as int);
    }
    if a > s2 + 1 && a < c.len() && c[a] == QUOTE {
        Some((s2 + 1, a))
    } else {
        None
    }
}

/// A lattice vector attribute `D <A3|B3|C3> (<lit> <lit> <lit>)`: the
/// spans of the three literals.
pub open spec fn vector_spec(c: Seq<u8>) -> Option<((int, int), (int, int), (int, int))> {
    if c.len() > 0 && c[0] == 68 {
        let s1 = scanner::space_run_end(c, 1);
        if s1 > 1 && s1 + 2 <= c.len() && (c[s1] == 65 || c[s1] == 66 || c[s1] == 67) && c[s1 + 1]
            == 51 {
            let s2 = scanner::space_run_end(c, s1 + 2);
            if s2 > s1 + 2 && s2 < c.len() && c[s2] == crate::state_machine::LPAREN {
                match lit_end(c, s2 + 1) {
                    Some(e1) => {
                        let p1 = scanner::space_run_end(c, e1);
                        match lit_end(c, p1) {
                            Some(e2) => {
                                let p2 = scanner::space_run_end(c, e2);
                                match lit_end(c, p2) {
                                    Some(e3) => if e3 < c.len() && c[e3] == RPAREN {
                                        Some(((s2 + 1, e1), (p1, e2), (p2, e3)))
                                    } else {
                                        None
                                    },
                                    None => None,
                                }
                            },
                            None => None,
                        }
                    },
                    None => None,
                }
            } else {
                None
            }
        } else {
            None
        }
    } else {
        None
    }
}

/// Do the three spans of a vector attribute all parse within bounds?
pub open spec fn vector_within_limits(
    c: Seq<u8>,
    spans: ((int, int), (int, int), (int, int)),
) -> bool {
    &&& numeric::literal_within_limits(c.subrange(spans.0.0, spans.0.1))
    &&& numeric::literal_within_limits(c.subrange(spans.1.0, spans.1.1))
    &&& numeric::literal_within_limits(c.subrange(spans.2.0, spans.2.1))
}

/// Extracts a lattice basis vector from an attribute content.  `Ok(None)`
/// when the content is not a vector attribute; `Err` exactly when a
/// literal is out of bounds.
pub fn parse_vector(c: &[u8]) -> (r: Result<Option<crate::atom::Coord3>, ()>)
    ensures
        match r {
            Ok(Some(coord)) => {
                &&& vector_spec(c@) matches Some(spans) && vector_within_limits(c@, spans)
                    && dec_matches(c@.subrange(spans.0.0, spans.0.1), coord.x) && dec_matches(
                    c@.subrange(spans.1.0, spans.1.1),
                    coord.y,
                ) && dec_matches(c@.subrange(spans.2.0, spans.2.1), coord.z)
                &&& coord.wf()
            },
            Ok(None) => vector_spec(c@) is None,
            Err(e) => vector_spec(c@) matches Some(spans) && !vector_within_limits(c@, spans),
        },
{
    if !(c.len() > 0 && c[0] == 68) {
        return Ok(None);
    }
    let s1 = scanner::skip_spaces(c, 1);
    if !(s1 > 1 && s1 < c.len() && s1 + 1 < c.len() && (c[s1] == 65 || c[s1] == 66 || c[s1]
        == 67) && c[s1 + 1] == 51) {
        return Ok(None);
    }
    let s2 = scanner::skip_spaces(c, s1 + 2);
    if !(s2 > s1 + 2 && s2 < c.len() && c[s2] == crate::state_machine::LPAREN) {
        return Ok(None);
    }
    let l1 = scan_lit(c, s2 + 1);
    if l1.is_none() {
        return Ok(None);
    }
    let e1 = l1.unwrap();
    let p1 = scanner::skip_spaces(c, e1);
    let l2 = scan_lit(c, p1);
    if l2.is_none() {
        return Ok(None);
    }
    let e2 = l2.unwrap();
    let p2 = scanner::skip_spaces(c, e2);
    let l3 = scan_lit(c, p2);
    if l3.is_none() {
        return Ok(None);
    }
    let e3 = l3.unwrap();
    if !(e3 < c.len() && c[e3] == RPAREN) {
        return Ok(None);
    }
    let x = parse_lit_decimal(c, s2 + 1, e1);
    let y = parse_lit_decimal(c, p1, e2);
    let z = parse_lit_decimal(c, p2, e3);
    match (x, y, z) {
        (Some(x), Some(y), Some(z)) => Ok(Some(crate::atom::Coord3 { x, y, z })),
        _ => Err(()),
    }
}

/// A periodicity attribute `I PeriodicType <digits>`: the digit span.
pub open spec fn periodic_spec(c: Seq<u8>) -> Option<(int, int)> {
    if c.len() > 0 && c[0] == 73 {
        let s1 = scanner::space_run_end(c, 1);
        if s1 > 1 && s1 + 12 <= c.len() && c.subrange(s1, s1 + 12) == spec_periodic_tag() {
            let s2 = scanner::space_run_end(c, s1 + 12);
            if s2 > s1 + 12 && s2 < c.len() && scanner::is_digit(c[s2]) {
                Some((s2, scanner::digit_run_end(c, s2)))
            } else {
                None
            }
        } else {
            None
        }
    } else {
        None
    }
}

/// The bytes of `PeriodicType`.
pub open spec fn spec_periodic_tag() -> Seq<u8> {
    seq![80u8, 101u8, 114u8, 105u8, 111u8, 100u8, 105u8, 99u8, 84u8, 121u8, 112u8, 101u8]
}

/// Extracts the periodicity flag from an attribute content.
pub fn parse_periodic_type(c: &[u8]) -> (r: Result<Option<u8>, ()>)
    ensures
        match r {
            Ok(Some(v)) => periodic_spec(c@) matches Some((i0, i1)) && v as nat == span_val(
                c@,
                i0,
                i1,
            ),
            Ok(None) => periodic_spec(c@) is None,
            Err(e) => periodic_spec(c@) matches Some((i0, i1)) && span_val(c@, i0, i1) > 255,
        },
{
    if !(c.len() > 0 && c[0] == 73) {
        return Ok(None);
    }
    let s1 = scanner::skip_spaces(c, 1);
    let pat: Vec<u8> = vec![80, 101, 114, 105, 111, 100, 105, 99, 84, 121, 112, 101];
    proof {
        assert(pat@ =~= spec_periodic_tag());
    }
    if !(s1 > 1 && tag_at(c, s1, &pat)) {
        return Ok(None);
    }
    let s2 = scanner::skip_spaces(c, s1 + 12);
    if !(s2 > s1 + 12 && s2 < c.len() && scanner::DIGIT_ZERO <= c[s2] && c[s2]
        <= scanner::DIGIT_NINE) {
        return Ok(None);
    }
    let d = scanner::skip_digits(c, s2);
    proof {
        scanner::lemma_digit_run_end_bounds(c@, s2 as int);
    }
    let v = numeric::read_capped(c, s2, d, 255);
    if v > 255 {
        return Err(());
    }
    Ok(Some(v as u8))
}

/// A space group attribute `C SpaceGroup "<digits> <digits>"`: the span of
/// the quoted pair, kept as written.
pub open spec fn space_group_spec(c: Seq<u8>) -> Option<(int, int)> {
    if c.len() > 0 && c[0] == 67 {
        let s1 = scanner::space_run_end(c, 1);
        if s1 > 1 && s1 + 10 <= c.len() && c.subrange(s1, s1 + 10) == spec_space_group_tag() {
            let s2 = scanner::space_run_end(c, s1 + 10);
            if s2 > s1 + 10 && s2 < c.len() && c[s2] == QUOTE {
                let d1 = scanner::digit_run_end(c, s2 + 1);
                if d1 > s2 + 1 {
                    let p = scanner::space_run_end(c, d1);
                    if p > d1 {
                        let d2 = scanner::digit_run_end(c, p);
                        if d2 > p && d2 < c.len() && c[d2] == QUOTE {
                            Some((s2 + 1, d2))
                        } else {
                            None
                        }
                    } else {
                        None
                    }
                } else {
                    None
                }
            } else {
                None
            }
        } else {
            None
        }
    } else {
        None
    }
}

/// The bytes of `SpaceGroup`.
pub open spec fn spec_space_group_tag() -> Seq<u8> {
    seq![83u8, 112u8, 97u8, 99u8, 101u8, 71u8, 114u8, 111u8, 117u8, 112u8]
}

/// Extracts the space group label, kept exactly as written.
pub fn parse_space_group(c: &[u8]) -> (r: Option<Vec<u8>>)
    ensures
        match r {
            Some(v) => space_group_spec(c@) matches Some((i0, i1)) && v@ == c@.subrange(i0, i1),
            None => space_group_spec(c@) is None,
        },
{
    if !(c.len() > 0 && c[0] == 67) {
        return None;
    }
    let s1 = scanner::skip_spaces(c, 1);
    let pat: Vec<u8> = vec![83, 112, 97, 99, 101, 71, 114, 111, 117, 112];
    proof {
        assert(pat@ =~= spec_space_group_tag());
    }
    if !(s1 > 1 && tag_at(c, s1, &pat)) {
        return None;
    }
    let s2 = scanner::skip_spaces(c, s1 + 10);
    if !(s2 > s1 + 10 && s2 < c.len() && c[s2] == QUOTE) {
        return None;
    }
    let d1 = scanner::skip_digits(c, s2 + 1);
    if !(d1 > s2 + 1) {
        return None;
    }
    let p = scanner::skip_spaces(c, d1);
    if !(p > d1) {
        return None;
    }
    let d2 = scanner::skip_digits(c, p);
    if !(d2 > p && d2 < c.len() && c[d2] == QUOTE) {
        return None;
    }
    Some(crate::state_machine::copy_range(c, s2 + 1, d2))
}

/// A tolerance attribute `D CRY/TOLERANCE <float>`: the literal span.
pub open spec fn tolerance_spec(c: Seq<u8>) -> Option<(int, int)> {
    if c.len() > 0 && c[0] == 68 {
        let s1 = scanner::space_run_end(c, 1);
        if s1 > 1 && s1 + 13 <= c.len() && c.subrange(s1, s1 + 13) == spec_tolerance_tag() {
            let s2 = scanner::space_run_end(c, s1 + 13);
            if s2 > s1 + 13 {
                match scanner::float_end(c, s2) {
                    Some(e) => Some((s2, e)),
                    None => None,
                }
            } else {
                None
            }
        } else {
            None
        }
    } else {
        None
    }
}

/// The bytes of `CRY/TOLERANCE`.
pub open spec fn spec_tolerance_tag() -> Seq<u8> {
    seq![67u8, 82u8, 89u8, 47u8, 84u8, 79u8, 76u8, 69u8, 82u8, 65u8, 78u8, 67u8, 69u8]
}

/// Extracts the symmetry tolerance from an attribute content.  `Err`
/// exactly when the literal is present but out of bounds.
pub fn parse_cry_tolerance(c: &[u8]) -> (r: Result<Option<Decimal>, ()>)
    ensures
        match r {
            Ok(Some(d)) => {
                &&& tolerance_spec(c@) matches Some((i0, i1)) && dec_matches(
                    c@.subrange(i0, i1),
                    d,
                ) && numeric::literal_within_limits(c@.subrange(i0, i1))
                &&& d.wf()
            },
            Ok(None) => tolerance_spec(c@) is None,
            Err(e) => tolerance_spec(c@) matches Some((i0, i1))
                && !numeric::literal_within_limits(c@.subrange(i0, i1)),
        },
{
    if !(c.len() > 0 && c[0] == 68) {
        return Ok(None);
    }
    let s1 = scanner::skip_spaces(c, 1);
    let pat: Vec<u8> = vec![67, 82, 89, 47, 84, 79, 76, 69, 82, 65, 78, 67, 69];
    proof {
        assert(pat@ =~= spec_tolerance_tag());
    }
    if !(s1 > 1 && tag_at(c, s1, &pat)) {
        return Ok(None);
    }
    let s2 = scanner::skip_spaces(c, s1 + 13);
    if !(s2 > s1 + 13) {
        return Ok(None);
    }
    let fe = scanner::float(c, s2);
    if fe.is_none() {
        return Ok(None);
    }
    let e = fe.unwrap();
    match parse_lit_decimal(c, s2, e) {
        Some(d) => Ok(Some(d)),
        None => Err(()),
    }
}

/// A display attribute `I CRY/DISPLAY (<digits> <digits>)`: the two digit
/// spans.
pub open spec fn cry_display_spec(c: Seq<u8>) -> Option<((int, int), (int, int))> {
    if c.len() > 0 && c[0] == 73 {
        let s1 = scanner::space_run_end(c, 1);
        if s1 > 1 && s1 + 11 <= c.len() && c.subrange(s1, s1 + 11) == spec_cry_display_tag() {
            let s2 = scanner::space_run_end(c, s1 + 11);
            if s2 > s1 + 11 && s2 < c.len() && c[s2] == crate::state_machine::LPAREN {
                let d1 = scanner::digit_run_end(c, s2 + 1);
                if d1 > s2 + 1 {
                    let p = scanner::space_run_end(c, d1);
                    if p > d1 {
                        let d2 = scanner::digit_run_end(c, p);
                        if d2 > p && d2 < c.len() && c[d2] == RPAREN {
                            Some(((s2 + 1, d1), (p, d2)))
                        } else {
                            None
                        }
                    } else {
                        None
                    }
                } else {
                    None
                }
            } else {
                None
            }
        } else {
            None
        }
    } else {
        None
    }
}

/// The bytes of `CRY/DISPLAY`.
pub open spec fn spec_cry_display_tag() -> Seq<u8> {
    seq![67u8, 82u8, 89u8, 47u8, 68u8, 73u8, 83u8, 80u8, 76u8, 65u8, 89u8]
}

/// Extracts the two display sizes from an attribute content.  `Ok(None)`
/// when the content is not a display attribute; `Err` exactly when a
/// number does not fit its range.
pub fn parse_cry_display(c: &[u8]) -> (r: Result<Option<crate::model_type::CryDisplay>, ()>)
    ensures
        match r {
            Ok(Some(v)) => cry_display_spec(c@) matches Some((a, b)) && v.first as nat
                == span_val(c@, a.0, a.1) && v.second as nat == span_val(c@, b.0, b.1),
            Ok(None) => cry_display_spec(c@) is None,
            Err(e) => cry_display_spec(c@) matches Some((a, b)) && (span_val(c@, a.0, a.1)
                > u32::MAX || span_val(c@, b.0, b.1) > u32::MAX),
        },
{
    if !(c.len() > 0 && c[0] == 73) {
        return Ok(None);
    }
    let s1 = scanner::skip_spaces(c, 1);
    let pat: Vec<u8> = vec![67, 82, 89, 47, 68, 73, 83, 80, 76, 65, 89];
    proof {
        assert(pat@ =~= spec_cry_display_tag());
    }
    if !(s1 > 1 && tag_at(c, s1, &pat)) {
        return Ok(None);
    }
    let s2 = scanner::skip_spaces(c, s1 + 11);
    if !(s2 > s1 + 11 && s2 < c.len() && c[s2] == crate::state_machine::LPAREN) {
        return Ok(None);
    }
    let d1 = scanner::skip_digits(c, s2 + 1);
    if !(d1 > s2 + 1) {
        return Ok(None);
    }
    let p = scanner::skip_spaces(c, d1);
    if !(p > d1) {
        return Ok(None);
    }
    let d2 = scanner::skip_digits(c, p);
    if !(d2 > p && d2 < c.len() && c[d2] == RPAREN) {
        return Ok(None);
    }
    proof {
        scanner::lemma_digit_run_end_bounds(c@, s2 + 1);
        scanner::lemma_digit_run_end_bounds(c@, p as int);
    }
    let first = numeric::read_capped(c, s2 + 1, d1, 4294967295);
    let second = numeric::read_capped(c, p, d2, 4294967295);
    if first > 4294967295 || second > 4294967295 {
        return Err(());
    }
    Ok(
        Some(
            crate::model_type::CryDisplay { first: first as u32, second: second as u32 },
        ),
    )
}

/// The views of a list of owned key-content pairs.
pub open spec fn pair_views(t: Seq<(Vec<u8>, Vec<u8>)>) -> Seq<(Seq<u8>, Seq<u8>)> {
    t.map_values(|p: (Vec<u8>, Vec<u8>)| (p.0@, p.1@))
}

/// The lookup table built from the attribute bucket: each content keyed by
/// its attribute key, in order; `None` when some content has no key.
pub open spec fn spec_attr_pairs(attrs: Seq<Seq<u8>>) -> Option<Seq<(Seq<u8>, Seq<u8>)>>
    decreases attrs.len(),
{
    if attrs.len() == 0 {
        Some(Seq::<(Seq<u8>, Seq<u8>)>::empty())
    } else {
        match spec_attr_pairs(attrs.drop_last()) {
            Some(pre) => match attr_key_spec(attrs.last()) {
                Some((k0, k1)) => Some(pre.push((attrs.last().subrange(k0, k1), attrs.last()))),
                None => None,
            },
            None => None,
        }
    }
}

/// Last-wins lookup: the content of the latest pair carrying `key`.
pub open spec fn table_lookup(t: Seq<(Seq<u8>, Seq<u8>)>, key: Seq<u8>) -> Option<Seq<u8>>
    decreases t.len(),
{
    if t.len() == 0 {
        None
    } else if t.last().0 == key {
        Some(t.last().1)
    } else {
        table_lookup(t.drop_last(), key)
    }
}

/// Keys every attribute content by its attribute-name token into a lookup
/// table; later duplicate keys shadow earlier ones under `lookup_attr`.
/// Fails exactly when some content carries no recognisable key.
pub fn hashmap_attrs(attributes: &Vec<Vec<u8>>) -> (r: Result<
    Vec<(Vec<u8>, Vec<u8>)>,
    crate::error::ParseError,
>)
    ensures
        match r {
            Ok(t) => spec_attr_pairs(byte_views(attributes@)) == Some(pair_views(t@)),
            Err(e) => spec_attr_pairs(byte_views(attributes@)) is None && e is Semantic,
        },
{
    let mut out: Vec<(Vec<u8>, Vec<u8>)> = Vec::new();
    let mut i: usize = 0;
    proof {
        assert(byte_views(attributes@.take(0)) =~= Seq::<Seq<u8>>::empty());
        assert(pair_views(out@) =~= Seq::<(Seq<u8>, Seq<u8>)>::empty());
    }
    while i < attributes.len()
        invariant
            i <= attributes@.len(),
            spec_attr_pairs(byte_views(attributes@.take(i as int))) == Some(pair_views(out@)),
        decreases attributes@.len() - i,
    {
        let item = &attributes[i];
        proof {
            assert(byte_views(attributes@.take(i + 1)).drop_last() =~= byte_views(
                attributes@.take(i as int),
            ));
            assert(byte_views(attributes@.take(i + 1)).last() == attributes@[i as int]@);
        }
        match get_attribute_type(item.as_slice()) {
            Some((k0, k1)) => {
                let key = crate::state_machine::copy_range(item.as_slice(), k0, k1);
                let content = numeric::clone_bytes(item);
                out.push((key, content));
                proof {
                    assert(pair_views(out@) =~= pair_views(out@.drop_last()).push(
                        (out@.last().0@, out@.last().1@),
                    ));
                }
            },
            None => {
                proof {
                    lemma_attr_pairs_prefix_none(byte_views(attributes@), i as int);
                }
                return Err(
                    crate::error::ParseError::Semantic {
                        kind: crate::error::SemanticKind::AttributeKey,
                    },
                );
            },
        }
        i = i + 1;
    }
    proof {
        assert(attributes@.take(attributes@.len() as int) =~= attributes@);
    }
    Ok(out)
}

/// When a content in the bucket has no key, the whole table is refused.
proof fn lemma_attr_pairs_prefix_none(attrs: Seq<Seq<u8>>, i: int)
    requires
        0 <= i < attrs.len(),
        attr_key_spec(attrs[i]) is None,
    ensures
        spec_attr_pairs(attrs) is None,
    decreases attrs.len(),
{
    if i == attrs.len() - 1 {
        assert(attrs.last() == attrs[i]);
    } else {
        lemma_attr_pairs_prefix_none(attrs.drop_last(), i);
    }
}

/// Are two byte strings equal?
pub fn bytes_eq(a: &Vec<u8>, b: &Vec<u8>) -> (r: bool)
    ensures
        r <==> a@ == b@,
{
    if a.len() != b.len() {
        proof {
            assert(a@ != b@);
        }
        return false;
    }
    let r = scanner::match_at(a.as_slice(), 0, b);
    proof {
        assert(a@.subrange(0, a@.len() as int) =~= a@);
    }
    r
}

/// Finds the content that `key` maps to, the latest entry winning.
pub fn lookup_attr(table: &Vec<(Vec<u8>, Vec<u8>)>, key: &Vec<u8>) -> (r: Option<Vec<u8>>)
    ensures
        match r {
            Some(v) => table_lookup(pair_views(table@), key@) == Some(v@),
            None => table_lookup(pair_views(table@), key@) is None,
        },
{
    let mut i: usize = table.len();
    proof {
        assert(table@.take(table@.len() as int) =~= table@);
    }
    while i > 0
        invariant
            i <= table@.len(),
            table_lookup(pair_views(table@), key@) == table_lookup(
                pair_views(table@.take(i as int)),
                key@,
            ),
        decreases i,
    {
        proof {
            assert(pair_views(table@.take(i as int)).drop_last() =~= pair_views(
                table@.take(i - 1),
            ));
            assert(pair_views(table@.take(i as int)).last() == (
                table@[i - 1].0@,
                table@[i - 1].1@,
            ));
        }
        if bytes_eq(&table[i - 1].0, key) {
            return Some(numeric::clone_bytes(&table[i - 1].1));
        }
        i = i - 1;
    }
    proof {
        assert(pair_views(table@.take(0)) =~= Seq::<(Seq<u8>, Seq<u8>)>::empty());
    }
    None
}

/// Does a settings value of the MSI dialect keep the defaults?
pub open spec fn default_msi_settings_shape(s: Settings<MsiModel>) -> bool {
    &&& s.periodic_type == 100
    &&& s.space_group@ == crate::model_type::spec_default_space_group()
    &&& s.cry_tolerance.digits@ == seq![5u8]
    &&& s.cry_tolerance.exp == -2
    &&& !s.cry_tolerance.neg
    &&& untouched_settings_shape(s)
}

/// The fields no MSI attribute fills keep their default values.
pub open spec fn untouched_settings_shape(s: Settings<MsiModel>) -> bool {
    &&& s.fix_all_cell == true
    &&& s.fix_com == false
    &&& s.kpoints_list@.len() == 1
    &&& s.cry_display == (crate::model_type::CryDisplay { first: 192, second: 256 })
}

/// Can settings be extracted from the attribute bucket?  An empty bucket
/// falls back to the defaults; otherwise every content must carry a key,
/// and the periodicity, tolerance and space group must be present and
/// well-formed.
pub open spec fn settings_parse_ok(attrs: Seq<Seq<u8>>) -> bool {
    if attrs.len() == 0 {
        true
    } else {
        match spec_attr_pairs(attrs) {
            Some(t) => {
                &&& match table_lookup(t, spec_periodic_tag()) {
                    Some(pc) => match periodic_spec(pc) {
                        Some((i0, i1)) => span_val(pc, i0, i1) <= 255,
                        None => false,
                    },
                    None => false,
                }
                &&& match table_lookup(t, spec_tolerance_tag()) {
                    Some(tc) => match tolerance_spec(tc) {
                        Some((j0, j1)) => numeric::literal_within_limits(tc.subrange(j0, j1)),
                        None => false,
                    },
                    None => false,
                }
                &&& match table_lookup(t, spec_space_group_tag()) {
                    Some(sc) => space_group_spec(sc) is Some,
                    None => false,
                }
            },
            None => false,
        }
    }
}

/// The settings extracted from the attribute bucket: defaults when the
/// bucket is empty, else the parsed periodicity, space group and tolerance
/// over the defaults.
pub open spec fn spec_settings_result(attrs: Seq<Seq<u8>>, s: Settings<MsiModel>) -> bool {
    if attrs.len() == 0 {
        default_msi_settings_shape(s)
    } else {
        match spec_attr_pairs(attrs) {
            Some(t) => {
                &&& untouched_settings_shape(s)
                &&& match table_lookup(t, spec_periodic_tag()) {
                    Some(pc) => match periodic_spec(pc) {
                        Some((i0, i1)) => s.periodic_type as nat == span_val(pc, i0, i1),
                        None => false,
                    },
                    None => false,
                }
                &&& match table_lookup(t, spec_tolerance_tag()) {
                    Some(tc) => match tolerance_spec(tc) {
                        Some((j0, j1)) => dec_matches(tc.subrange(j0, j1), s.cry_tolerance),
                        None => false,
                    },
                    None => false,
                }
                &&& match table_lookup(t, spec_space_group_tag()) {
                    Some(sc) => match space_group_spec(sc) {
                        Some((g0, g1)) => s.space_group@ == sc.subrange(g0, g1),
                        None => false,
                    },
                    None => false,
                }
            },
            None => false,
        }
    }
}

/// Is an attribute content a well-formed lattice vector within bounds?
pub open spec fn vec_content_ok(cv: Seq<u8>) -> bool {
    match vector_spec(cv) {
        Some(sp) => vector_within_limits(cv, sp),
        None => false,
    }
}

/// Does `coord` hold exactly the three literals of the vector content?
pub open spec fn vec_result(cv: Seq<u8>, coord: Coord3) -> bool {
    match vector_spec(cv) {
        Some(sp) => dec_matches(cv.subrange(sp.0.0, sp.0.1), coord.x) && dec_matches(
            cv.subrange(sp.1.0, sp.1.1),
            coord.y,
        ) && dec_matches(cv.subrange(sp.2.0, sp.2.1), coord.z),
        None => false,
    }
}

/// Can lattice vectors be extracted?  With an empty bucket, or with none
/// of the three basis keys present, the model is simply non-periodic;
/// otherwise all three must be present and well-formed.
pub open spec fn lattice_parse_ok(attrs: Seq<Seq<u8>>) -> bool {
    if attrs.len() == 0 {
        true
    } else {
        match spec_attr_pairs(attrs) {
            Some(t) => match (
                table_lookup(t, spec_key_a3()),
                table_lookup(t, spec_key_b3()),
                table_lookup(t, spec_key_c3()),
            ) {
                (Some(ca), Some(cb), Some(cc)) => vec_content_ok(ca) && vec_content_ok(cb)
                    && vec_content_ok(cc),
                (None, None, None) => true,
                _ => false,
            },
            None => false,
        }
    }
}

/// The lattice vectors extracted from the attribute bucket, when the three
/// basis keys are present; absent keys mean a non-periodic model.
pub open spec fn spec_lattice_result(
    attrs: Seq<Seq<u8>>,
    v: Option<LatticeVectors<MsiModel>>,
) -> bool {
    if attrs.len() == 0 {
        v is None
    } else {
        match spec_attr_pairs(attrs) {
            Some(t) => match (
                table_lookup(t, spec_key_a3()),
                table_lookup(t, spec_key_b3()),
                table_lookup(t, spec_key_c3()),
            ) {
                (Some(ca), Some(cb), Some(cc)) => match v {
                    Some(lv) => vec_result(ca, lv.a) && vec_result(cb, lv.b) && vec_result(
                        cc,
                        lv.c,
                    ),
                    None => false,
                },
                (None, None, None) => v is None,
                _ => false,
            },
            None => false,
        }
    }
}

/// The atomic numbers extracted from the species lines, in order.
pub open spec fn nums_col(items: Seq<Seq<u8>>) -> Seq<nat>
    decreases items.len(),
{
    if items.len() == 0 {
        Seq::<nat>::empty()
    } else {
        let pre = nums_col(items.drop_last());
        match acl_spec(items.last()) {
            Some((n0, n1, s0, s1)) => pre.push(span_val(items.last(), n0, n1)),
            None => pre,
        }
    }
}

/// The element symbols extracted from the species lines, in order.
pub open spec fn syms_col(items: Seq<Seq<u8>>) -> Seq<Seq<u8>>
    decreases items.len(),
{
    if items.len() == 0 {
        Seq::<Seq<u8>>::empty()
    } else {
        let pre = syms_col(items.drop_last());
        match acl_spec(items.last()) {
            Some((n0, n1, s0, s1)) => pre.push(items.last().subrange(s0, s1)),
            None => pre,
        }
    }
}

/// The coordinate literal triples extracted from the coordinate lines.
pub open spec fn xyz_col(items: Seq<Seq<u8>>) -> Seq<(Seq<u8>, Seq<u8>, Seq<u8>)>
    decreases items.len(),
{
    if items.len() == 0 {
        Seq::<(Seq<u8>, Seq<u8>, Seq<u8>)>::empty()
    } else {
        let pre = xyz_col(items.drop_last());
        let c = items.last();
        if acl_spec(c) is None {
            match xyz_spec(c) {
                Some(spans) => if spans.len() >= 3 {
                    pre.push(
                        (
                            c.subrange(spans[0].0, spans[0].1),
                            c.subrange(spans[1].0, spans[1].1),
                            c.subrange(spans[2].0, spans[2].1),
                        ),
                    )
                } else {
                    pre
                },
                None => pre,
            }
        } else {
            pre
        }
    }
}

/// The identifiers extracted from the id lines, in order.
pub open spec fn ids_col(items: Seq<Seq<u8>>) -> Seq<nat>
    decreases items.len(),
{
    if items.len() == 0 {
        Seq::<nat>::empty()
    } else {
        let pre = ids_col(items.drop_last());
        let c = items.last();
        if acl_spec(c) is None && xyz_spec(c) is None {
            match id_spec(c) {
                Some((i0, i1)) => pre.push(span_val(c, i0, i1)),
                None => pre,
            }
        } else {
            pre
        }
    }
}

/// An atom block line that matches a known shape but carries a value the
/// model cannot hold.
pub open spec fn item_bad(c: Seq<u8>) -> bool {
    match acl_spec(c) {
        Some((n0, n1, s0, s1)) => span_val(c, n0, n1) > 255,
        None => match xyz_spec(c) {
            Some(spans) => !xyz_within_limits(c, spans),
            None => match id_spec(c) {
                Some((i0, i1)) => span_val(c, i0, i1) > u32::MAX,
                None => false,
            },
        },
    }
}

/// The attribute lines of all atom bodies, body by body, in order.
pub open spec fn items_of_bodies(bodies: Seq<Seq<u8>>) -> Seq<Seq<u8>>
    decreases bodies.len(),
{
    if bodies.len() == 0 {
        Seq::<Seq<u8>>::empty()
    } else {
        items_of_bodies(bodies.drop_last()) + crate::state_machine::attr_contents(
            bodies.last(),
            0,
        )
    }
}

/// Can an atom table be assembled from the bodies?  No line may carry an
/// unrepresentable value, and each of the three extracted columns must
/// have exactly one entry per body.
pub open spec fn atoms_parse_ok(bodies: Seq<Seq<u8>>) -> bool {
    let items = items_of_bodies(bodies);
    &&& forall|k: int| 0 <= k < items.len() ==> !item_bad(#[trigger] items[k])
    &&& nums_col(items).len() == bodies.len()
    &&& syms_col(items).len() == bodies.len()
    &&& xyz_col(items).len() == bodies.len()
    &&& ids_col(items).len() == bodies.len()
}

/// The atom table extracted from the bodies: the columns hold exactly the
/// values of the species, coordinate and id lines, in order, and no
/// fractional coordinate is known yet.
pub open spec fn spec_atoms_result(bodies: Seq<Seq<u8>>, t: AtomCollection<MsiModel>) -> bool {
    let items = items_of_bodies(bodies);
    &&& t.size == bodies.len()
    &&& t.atomic_nums@.map_values(|x: u8| x as nat) == nums_col(items)
    &&& t.element_symbols@.map_values(|v: Vec<u8>| v@) == syms_col(items)
    &&& t.atom_ids@.map_values(|x: u32| x as nat) == ids_col(items)
    &&& t.xyz_coords@.len() == xyz_col(items).len()
    &&& forall|k: int|
        0 <= k < t.xyz_coords@.len() ==> dec_matches(
            xyz_col(items)[k].0,
            (#[trigger] t.xyz_coords@[k]).x,
        ) && dec_matches(xyz_col(items)[k].1, t.xyz_coords@[k].y) && dec_matches(
            xyz_col(items)[k].2,
            t.xyz_coords@[k].z,
        )
    &&& forall|k: int| 0 <= k < t.fractional_xyz@.len() ==> (#[trigger] t.fractional_xyz@[k]) is None
}

impl<'a> crate::state_machine::MsiParser<'a, crate::state_machine::Analyzed> {
    /// Assembles the atom table from the atom bucket.  Each body's
    /// attribute lines are walked again; a species line fills the symbol
    /// and number columns, a coordinate line the cartesian column, an id
    /// line the id column, and any other line is tolerated and ignored.
    /// The staged builder then rejects ragged columns.  Fails exactly when
    /// a line carries an unrepresentable value or some column does not
    /// have one entry per atom block.
    pub fn parse_atoms(&self) -> (r: Result<AtomCollection<MsiModel>, crate::error::ParseError>)
        ensures
            match r {
                Ok(t) => {
                    &&& t.wf()
                    &&& atoms_parse_ok(byte_views(self.atoms@))
                    &&& spec_atoms_result(byte_views(self.atoms@), t)
                },
                Err(e) => !atoms_parse_ok(byte_views(self.atoms@)),
            },
    {
        let ghost bodies = byte_views(self.atoms@);
        let n = self.atoms.len();
        let mut syms: Vec<Vec<u8>> = Vec::new();
        let mut nums: Vec<u8> = Vec::new();
        let mut xyzs: Vec<Coord3> = Vec::new();
        let mut ids: Vec<u32> = Vec::new();
        let ghost mut done_items: Seq<Seq<u8>> = Seq::empty();
        let mut b: usize = 0;
        proof {
            assert(items_of_bodies(bodies.take(0)) =~= Seq::<Seq<u8>>::empty());
            assert(nums@.map_values(|x: u8| x as nat) =~= nums_col(done_items));
            assert(byte_views(syms@) =~= syms_col(done_items));
            assert(ids@.map_values(|x: u32| x as nat) =~= ids_col(done_items));
        }
        while b < n
            invariant
                b <= n,
                n == self.atoms@.len(),
                bodies == byte_views(self.atoms@),
                done_items == items_of_bodies(bodies.take(b as int)),
                forall|k: int| 0 <= k < done_items.len() ==> !item_bad(#[trigger] done_items[k]),
                nums@.map_values(|x: u8| x as nat) == nums_col(done_items),
                byte_views(syms@) == syms_col(done_items),
                ids@.map_values(|x: u32| x as nat) == ids_col(done_items),
                xyzs@.len() == xyz_col(done_items).len(),
                forall|k: int|
                    0 <= k < xyzs@.len() ==> dec_matches(
                        xyz_col(done_items)[k].0,
                        (#[trigger] xyzs@[k]).x,
                    ) && dec_matches(xyz_col(done_items)[k].1, xyzs@[k].y) && dec_matches(
                        xyz_col(done_items)[k].2,
                        xyzs@[k].z,
                    ),
                forall|k: int| 0 <= k < xyzs@.len() ==> (#[trigger] xyzs@[k]).wf(),
            decreases n - b,
        {
            let body: &[u8] = self.atoms[b].as_slice();
            let ghost bview = body@;
            proof {
                assert(bview == bodies[b as int]);
            }
            let mut pos: usize = 0;
            let ghost mut local_done: Seq<Seq<u8>> = Seq::empty();
            let ghost base = items_of_bodies(bodies.take(b as int));
            proof {
                assert(base + local_done =~= done_items);
                assert(local_done + crate::state_machine::attr_contents(bview, 0)
                    =~= crate::state_machine::attr_contents(bview, 0));
            }
            let mut field = Self::take_attribute(body, pos);
            while field.is_some()
                invariant
                    pos <= bview.len(),
                    bview == body@,
                    bview == bodies[b as int],
                    0 <= b < bodies.len(),
                    n == self.atoms@.len(),
                    bodies == byte_views(self.atoms@),
                    base == items_of_bodies(bodies.take(b as int)),
                    done_items == base + local_done,
                    crate::state_machine::attr_contents(bview, 0) == local_done
                        + crate::state_machine::attr_contents(bview, pos as int),
                    forall|k: int|
                        0 <= k < done_items.len() ==> !item_bad(#[trigger] done_items[k]),
                    nums@.map_values(|x: u8| x as nat) == nums_col(done_items),
                    byte_views(syms@) == syms_col(done_items),
                    ids@.map_values(|x: u32| x as nat) == ids_col(done_items),
                    xyzs@.len() == xyz_col(done_items).len(),
                    forall|k: int|
                        0 <= k < xyzs@.len() ==> dec_matches(
                            xyz_col(done_items)[k].0,
                            (#[trigger] xyzs@[k]).x,
                        ) && dec_matches(xyz_col(done_items)[k].1, xyzs@[k].y) && dec_matches(
                            xyz_col(done_items)[k].2,
                            xyzs@[k].z,
                        ),
                    forall|k: int| 0 <= k < xyzs@.len() ==> (#[trigger] xyzs@[k]).wf(),
                    match field {
                        Some((c0, c1, rest)) => crate::state_machine::take_attribute_spec(
                            bview,
                            pos as int,
                        ) == Some((c0 as int, c1 as int, rest as int)) && pos < rest
                            <= bview.len() && c0 <= c1 <= bview.len(),
                        None => crate::state_machine::take_attribute_spec(
                            bview,
                            pos as int,
                        ) is None,
                    },
                decreases bview.len() - pos,
            {
                let (c0, c1, rest) = field.unwrap();
                let content = crate::state_machine::copy_range(body, c0, c1);
                let ghost item = bview.subrange(c0 as int, c1 as int);
                proof {
                    assert(crate::state_machine::attr_contents(bview, pos as int) == seq![item]
                        + crate::state_machine::attr_contents(bview, rest as int));
                    assert(local_done + crate::state_machine::attr_contents(bview, pos as int)
                        =~= local_done.push(item) + crate::state_machine::attr_contents(
                        bview,
                        rest as int,
                    ));
                    assert(done_items.push(item).drop_last() =~= done_items);
                    assert(done_items.push(item).last() == item);
                    assert(base + local_done.push(item) =~= done_items.push(item));
                }
                match parse_acl(content.as_slice()) {
                    Err(_) => {
                        proof {
                            lemma_bad_item_breaks(bodies, b as int, base, local_done, bview, item, crate::state_machine::attr_contents(bview, rest as int));
                        }
                        return Err(
                            crate::error::ParseError::Semantic {
                                kind: crate::error::SemanticKind::Species,
                            },
                        );
                    },
                    Ok(Some((num, sym))) => {
                        nums.push(num);
                        syms.push(sym);
                        proof {
                            assert(nums@.map_values(|x: u8| x as nat) =~= nums_col(
                                done_items,
                            ).push(num as nat));
                            assert(byte_views(syms@) =~= syms_col(done_items).push(item.subrange(
                                acl_spec(item)->Some_0.2,
                                acl_spec(item)->Some_0.3,
                            )));
                        }
                    },
                    Ok(None) => {
                        match parse_xyz(content.as_slice()) {
                            Err(_) => {
                                proof {
                                    lemma_bad_item_breaks(bodies, b as int, base, local_done, bview, item, crate::state_machine::attr_contents(bview, rest as int));
                                }
                                return Err(
                                    crate::error::ParseError::Semantic {
                                        kind: crate::error::SemanticKind::Coordinate,
                                    },
                                );
                            },
                            Ok(Some(coord)) => {
                                xyzs.push(coord);
                                proof {
                                    let spans = xyz_spec(item)->Some_0;
                                    assert(xyz_col(done_items.push(item)) =~= xyz_col(
                                        done_items,
                                    ).push(
                                        (
                                            item.subrange(spans[0].0, spans[0].1),
                                            item.subrange(spans[1].0, spans[1].1),
                                            item.subrange(spans[2].0, spans[2].1),
                                        ),
                                    ));
                                }
                            },
                            Ok(None) => {
                                match parse_id(content.as_slice()) {
                                    Err(_) => {
                                        proof {
                                            lemma_bad_item_breaks(bodies, b as int, base, local_done, bview, item, crate::state_machine::attr_contents(bview, rest as int));
                                        }
                                        return Err(
                                            crate::error::ParseError::Semantic {
                                                kind: crate::error::SemanticKind::Identifier,
                                            },
                                        );
                                    },
                                    Ok(Some(id)) => {
                                        ids.push(id);
                                        proof {
                                            assert(ids@.map_values(|x: u32| x as nat)
                                                =~= ids_col(done_items).push(id as nat));
                                        }
                                    },
                                    Ok(None) => {
                                    },
                                }
                            },
                        }
                    },
                }
                proof {
                    local_done = local_done.push(item);
                    done_items = done_items.push(item);
                }
                pos = rest;
                field = Self::take_attribute(body, pos);
            }
            proof {
                assert(crate::state_machine::attr_contents(bview, pos as int) =~= Seq::<
                    Seq<u8>,
                >::empty());
                assert(crate::state_machine::attr_contents(bview, 0) =~= local_done);
                assert(bodies.take(b + 1).drop_last() =~= bodies.take(b as int));
                assert(bodies.take(b + 1).last() == bview);
                assert(items_of_bodies(bodies.take(b + 1)) == items_of_bodies(
                    bodies.take(b as int),
                ) + crate::state_machine::attr_contents(bview, 0));
                assert(done_items =~= items_of_bodies(bodies.take(b + 1)));
            }
            b = b + 1;
        }
        proof {
            assert(bodies.take(n as int) =~= bodies);
        }
        let mut frac: Vec<Option<Coord3>> = Vec::new();
        let mut i: usize = 0;
        while i < n
            invariant
                i <= n,
                frac@.len() == i,
                forall|k: int| 0 <= k < i ==> (#[trigger] frac@[k]) is None,
            decreases n - i,
        {
            frac.push(None);
            i = i + 1;
        }
        let builder = crate::atom_builder::AtomCollectionBuilder::<
            MsiModel,
            crate::builder_typestate::No,
        >::new(n);
        let builder = match builder.with_atom_ids(ids) {
            Ok(x) => x,
            Err(_) => {
                return Err(
                    crate::error::ParseError::Semantic {
                        kind: crate::error::SemanticKind::Identifier,
                    },
                );
            },
        };
        let builder = match builder.with_element_symbols(&syms) {
            Ok(x) => x,
            Err(_) => {
                return Err(
                    crate::error::ParseError::Semantic {
                        kind: crate::error::SemanticKind::Species,
                    },
                );
            },
        };
        let builder = match builder.with_atomic_nums(nums) {
            Ok(x) => x,
            Err(_) => {
                return Err(
                    crate::error::ParseError::Semantic {
                        kind: crate::error::SemanticKind::Species,
                    },
                );
            },
        };
        let builder = match builder.with_xyz_coords(xyzs) {
            Ok(x) => x,
            Err(_) => {
                return Err(
                    crate::error::ParseError::Semantic {
                        kind: crate::error::SemanticKind::Coordinate,
                    },
                );
            },
        };
        let builder = match builder.with_fractional_xyz(frac) {
            Ok(x) => x,
            Err(_) => {
                return Err(
                    crate::error::ParseError::Semantic {
                        kind: crate::error::SemanticKind::Coordinate,
                    },
                );
            },
        };
        let ready = match builder.finish() {
            Ok(x) => x,
            Err(_) => {
                return Err(
                    crate::error::ParseError::Semantic {
                        kind: crate::error::SemanticKind::Species,
                    },
                );
            },
        };
        let t = ready.build();
        proof {
            assert(byte_views(t.element_symbols@) =~= byte_views(syms@));
            assert(t.atomic_nums@.map_values(|x: u8| x as nat) =~= nums@.map_values(
                |x: u8| x as nat,
            ));
            assert(t.atom_ids@.map_values(|x: u32| x as nat) =~= ids@.map_values(
                |x: u32| x as nat,
            ));
        }
        Ok(t)
    }

    /// Builds the whole model: settings and lattice vectors from the
    /// attribute bucket, the atom table from the atom bucket.
    pub fn build_lattice_model(&self) -> (r: Result<
        LatticeModel<MsiModel>,
        crate::error::ParseError,
    >)
        ensures
            match r {
                Ok(m) => {
                    &&& m.wf()
                    &&& settings_parse_ok(byte_views(self.model_attributes@))
                    &&& spec_settings_result(byte_views(self.model_attributes@), m.settings)
                    &&& lattice_parse_ok(byte_views(self.model_attributes@))
                    &&& spec_lattice_result(
                        byte_views(self.model_attributes@),
                        m.lattice_vectors,
                    )
                    &&& atoms_parse_ok(byte_views(self.atoms@))
                    &&& spec_atoms_result(byte_views(self.atoms@), m.atoms)
                },
                Err(e) => !(settings_parse_ok(byte_views(self.model_attributes@))
                    && lattice_parse_ok(byte_views(self.model_attributes@)) && atoms_parse_ok(
                    byte_views(self.atoms@),
                )),
            },
    {
        let settings = match self.parse_attributes() {
            Ok(s) => s,
            Err(e) => {
                return Err(e);
            },
        };
        let lattice_vectors = match self.parse_lattice_vectors() {
            Ok(v) => v,
            Err(e) => {
                return Err(e);
            },
        };
        let atoms = match self.parse_atoms() {
            Ok(t) => t,
            Err(e) => {
                return Err(e);
            },
        };
        Ok(LatticeModel::new(lattice_vectors, atoms, settings))
    }
}

/// A bad line inside a body makes the whole extraction fail.
proof fn lemma_bad_item_breaks(
    bodies: Seq<Seq<u8>>,
    b: int,
    base: Seq<Seq<u8>>,
    local_done: Seq<Seq<u8>>,
    bview: Seq<u8>,
    item: Seq<u8>,
    tail: Seq<Seq<u8>>,
)
    requires
        0 <= b < bodies.len(),
        bview == bodies[b],
        base == items_of_bodies(bodies.take(b)),
        crate::state_machine::attr_contents(bview, 0) == local_done + (seq![item] + tail),
        item_bad(item),
    ensures
        !atoms_parse_ok(bodies),
{
    let total = items_of_bodies(bodies);
    let part = items_of_bodies(bodies.take(b + 1));
    assert(bodies.take(b + 1).drop_last() =~= bodies.take(b));
    assert(bodies.take(b + 1).last() == bview);
    assert(part == base + crate::state_machine::attr_contents(bview, 0));
    let idx = base.len() + local_done.len();
    assert(part[idx as int] == item);
    lemma_items_prefix(bodies, b + 1);
    assert(part == total.subrange(0, part.len() as int));
    assert(total[idx as int] == item);
}

/// A prefix of the bodies contributes a prefix of the items.
proof fn lemma_items_prefix(bodies: Seq<Seq<u8>>, j: int)
    requires
        0 <= j <= bodies.len(),
    ensures
        items_of_bodies(bodies.take(j)).is_prefix_of(items_of_bodies(bodies)),
    decreases bodies.len(),
{
    if j == bodies.len() {
        assert(bodies.take(j) =~= bodies);
    } else {
        let dl = bodies.drop_last();
        lemma_items_prefix(dl, j);
        assert(bodies.take(j) =~= dl.take(j));
        let a = items_of_bodies(bodies.take(j));
        let b = items_of_bodies(dl);
        let c = crate::state_machine::attr_contents(bodies.last(), 0);
        assert(a == b.subrange(0, a.len() as int));
        assert((b + c).subrange(0, a.len() as int) =~= b.subrange(0, a.len() as int));
    }
}

impl<'a> crate::state_machine::MsiParser<'a, crate::state_machine::Analyzed> {
    /// Settings from the attribute bucket: the defaults when it is empty,
    /// else the parsed periodicity, space group and tolerance over them.
    /// Fails exactly when a content has no key or a required scalar is
    /// absent or malformed.
    pub fn parse_attributes(&self) -> (r: Result<Settings<MsiModel>, crate::error::ParseError>)
        ensures
            match r {
                Ok(s) => {
                    &&& s.wf()
                    &&& settings_parse_ok(byte_views(self.model_attributes@))
                    &&& spec_settings_result(byte_views(self.model_attributes@), s)
                },
                Err(e) => !settings_parse_ok(byte_views(self.model_attributes@)),
            },
    {
        if self.model_attributes.len() == 0 {
            proof {
                assert(byte_views(self.model_attributes@).len() == 0);
            }
            return Ok(Settings::<MsiModel>::settings_default());
        }
        let table = match hashmap_attrs(&self.model_attributes) {
            Ok(t) => t,
            Err(e) => {
                return Err(e);
            },
        };
        let pt_key: Vec<u8> = vec![80, 101, 114, 105, 111, 100, 105, 99, 84, 121, 112, 101];
        proof {
            assert(pt_key@ =~= spec_periodic_tag());
        }
        let periodic_type = match lookup_attr(&table, &pt_key) {
            Some(content) => match parse_periodic_type(content.as_slice()) {
                Ok(Some(v)) => v,
                _ => {
                    return Err(
                        crate::error::ParseError::Semantic {
                            kind: crate::error::SemanticKind::PeriodicType,
                        },
                    );
                },
            },
            None => {
                return Err(
                    crate::error::ParseError::Semantic {
                        kind: crate::error::SemanticKind::PeriodicType,
                    },
                );
            },
        };
        let tol_key: Vec<u8> = vec![67, 82, 89, 47, 84, 79, 76, 69, 82, 65, 78, 67, 69];
        proof {
            assert(tol_key@ =~= spec_tolerance_tag());
        }
        let cry_tolerance = match lookup_attr(&table, &tol_key) {
            Some(content) => match parse_cry_tolerance(content.as_slice()) {
                Ok(Some(d)) => d,
                _ => {
                    return Err(
                        crate::error::ParseError::Semantic {
                            kind: crate::error::SemanticKind::Tolerance,
                        },
                    );
                },
            },
            None => {
                return Err(
                    crate::error::ParseError::Semantic {
                        kind: crate::error::SemanticKind::Tolerance,
                    },
                );
            },
        };
        let sg_key: Vec<u8> = vec![83, 112, 97, 99, 101, 71, 114, 111, 117, 112];
        proof {
            assert(sg_key@ =~= spec_space_group_tag());
        }
        let space_group = match lookup_attr(&table, &sg_key) {
            Some(content) => match parse_space_group(content.as_slice()) {
                Some(v) => v,
                None => {
                    return Err(
                        crate::error::ParseError::Semantic {
                            kind: crate::error::SemanticKind::SpaceGroup,
                        },
                    );
                },
            },
            None => {
                return Err(
                    crate::error::ParseError::Semantic {
                        kind: crate::error::SemanticKind::SpaceGroup,
                    },
                );
            },
        };
        Ok(Settings::<MsiModel>::new_msi_settings(periodic_type, space_group, cry_tolerance))
    }

    /// Lattice vectors from the attribute bucket: the three basis keys when
    /// they are present, no lattice when they are absent (a non-periodic
    /// model).  Fails exactly when a content has no key, only a part of the
    /// basis is present, or a vector is malformed or out of bounds.
    pub fn parse_lattice_vectors(&self) -> (r: Result<
        Option<LatticeVectors<MsiModel>>,
        crate::error::ParseError,
    >)
        ensures
            match r {
                Ok(v) => {
                    &&& lattice_parse_ok(byte_views(self.model_attributes@))
                    &&& spec_lattice_result(byte_views(self.model_attributes@), v)
                    &&& (v matches Some(lv) ==> lv.wf())
                },
                Err(e) => !lattice_parse_ok(byte_views(self.model_attributes@)),
            },
    {
        if self.model_attributes.len() == 0 {
            proof {
                assert(byte_views(self.model_attributes@).len() == 0);
            }
            return Ok(None);
        }
        let table = match hashmap_attrs(&self.model_attributes) {
            Ok(t) => t,
            Err(e) => {
                return Err(e);
            },
        };
        let a_key: Vec<u8> = vec![65, 51];
        let b_key: Vec<u8> = vec![66, 51];
        let c_key: Vec<u8> = vec![67, 51];
        proof {
            assert(a_key@ =~= spec_key_a3());
            assert(b_key@ =~= spec_key_b3());
            assert(c_key@ =~= spec_key_c3());
        }
        let ca = lookup_attr(&table, &a_key);
        let cb = lookup_attr(&table, &b_key);
        let cc = lookup_attr(&table, &c_key);
        match (ca, cb, cc) {
            (Some(ca), Some(cb), Some(cc)) => {
                let va = parse_vector(ca.as_slice());
                let vb = parse_vector(cb.as_slice());
                let vc = parse_vector(cc.as_slice());
                match (va, vb, vc) {
                    (Ok(Some(a)), Ok(Some(b)), Ok(Some(c))) => Ok(
                        Some(LatticeVectors::new(a, b, c)),
                    ),
                    _ => Err(
                        crate::error::ParseError::Semantic {
                            kind: crate::error::SemanticKind::LatticeVector,
                        },
                    ),
                }
            },
            (None, None, None) => Ok(None),
            _ => Err(
                crate::error::ParseError::Semantic {
                    kind: crate::error::SemanticKind::LatticeVector,
                },
            ),
        }
    }
}

/// The lookup key `A3`.
pub open spec fn spec_key_a3() -> Seq<u8> {
    seq![65u8, 51u8]
}

/// The lookup key `B3`.
pub open spec fn spec_key_b3() -> Seq<u8> {
    seq![66u8, 51u8]
}

/// The lookup key `C3`.
pub open spec fn spec_key_c3() -> Seq<u8> {
    seq![67u8, 51u8]
}

} // verus!
