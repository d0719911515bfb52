//! Structural state machine over a model scope.
//!
//! An MSI document is a header, a `(1 Model` scope, and inside it an
//! arbitrarily interleaved sequence of attribute fields `(A ...)` and object
//! fields `(<index> ...)`.  The parser walks the scope field by field without
//! assuming any ordering, sorting every field into one of three buckets:
//! model attributes, atom objects, and bond (or other) objects.  The walk is
//! a typestate machine: `Loaded` (raw text) turns into `Start` (positioned
//! inside the scope) and then `Analyzed` (scope consumed, buckets final).
use vstd::prelude::*;
use core::marker::PhantomData;
use crate::error::ParseError;
use crate::scanner;

verus! {

/// Byte value of `'('`.
pub const LPAREN: u8 = 40;
/// Byte value of `')'`.
pub const RPAREN: u8 = 41;
/// Byte value of `'A'`.
pub const LETTER_A: u8 = 65;

/// End of a line ending at `i`: one past `\n`, or past `\r\n`.
pub open spec fn line_ending_end(s: Seq<u8>, i: int) -> Option<int> {
    if 0 <= i < s.len() && s[i] == scanner::LF {
        Some(i + 1)
    } else if 0 <= i && i + 1 < s.len() && s[i] == scanner::CR && s[i + 1] == scanner::LF {
        Some(i + 2)
    } else {
        None
    }
}

/// The bytes `)\r\n` closing an attribute in a carriage-return document.
pub open spec fn pat_close_crlf() -> Seq<u8> {
    seq![RPAREN, scanner::CR, scanner::LF]
}

/// The bytes `)\n` closing an attribute in a line-feed document.
pub open spec fn pat_close_lf() -> Seq<u8> {
    seq![RPAREN, scanner::LF]
}

/// The two blanks and close paren that end an object body.
pub open spec fn pat_object_close() -> Seq<u8> {
    seq![scanner::SPACE, scanner::SPACE, RPAREN]
}

/// The bytes of the model scope opener `(1 Model`.
pub open spec fn pat_model_open() -> Seq<u8> {
    seq![LPAREN, 49u8, scanner::SPACE, 77u8, 111u8, 100u8, 101u8, 108u8]
}

/// The bytes of the object type tag `Atom`.
pub open spec fn atom_tag() -> Seq<u8> {
    seq![65u8, 116u8, 111u8, 109u8]
}

/// An attribute field at `i`: blanks, `(A`, at least one blank, then
/// content running to the first close paren followed by a line ending
/// (carriage-return form looked for first, across the rest of the input).
/// Yields content start, content end, and the position after the field.
pub open spec fn take_attribute_spec(s: Seq<u8>, i: int) -> Option<(int, int, int)> {
    let j0 = scanner::space_run_end(s, i);
    if j0 + 1 < s.len() && s[j0] == LPAREN && s[j0 + 1] == LETTER_A {
        let j1 = scanner::space_run_end(s, j0 + 2);
        if j1 > j0 + 2 {
            match scanner::find_seq(s, j1, pat_close_crlf()) {
                Some(q) => Some((j1, q, q + 3)),
                None => match scanner::find_seq(s, j1, pat_close_lf()) {
                    Some(q) => Some((j1, q, q + 2)),
                    None => None,
                },
            }
        } else {
            None
        }
    } else {
        None
    }
}

/// An object field at `i`: blanks, `(`, a decimal index, at least one
/// blank, then content running to a line of blanks before the closing
/// paren (the bytes two-blanks-close-paren), and a line ending after it.
/// Yields content start, content end, and the position after the field.
pub open spec fn take_object_spec(s: Seq<u8>, i: int) -> Option<(int, int, int)> {
    let j0 = scanner::space_run_end(s, i);
    if j0 < s.len() && s[j0] == LPAREN {
        let d = scanner::digit_run_end(s, j0 + 1);
        if d > j0 + 1 {
            let j1 = scanner::space_run_end(s, d);
            if j1 > d {
                match scanner::find_seq(s, j1, pat_object_close()) {
                    Some(q) => match line_ending_end(s, q + 3) {
                        Some(r) => Some((j1, q, r)),
                        None => None,
                    },
                    None => None,
                }
            } else {
                None
            }
        } else {
            None
        }
    } else {
        None
    }
}

/// The next field at `i`: an attribute if one matches, else an object.
pub open spec fn get_field_spec(s: Seq<u8>, i: int) -> Option<(int, int, int)> {
    match take_attribute_spec(s, i) {
        Some(f) => Some(f),
        None => take_object_spec(s, i),
    }
}

/// The type tag of an object content: a leading letter run ended by a line
/// ending.  Yields the tag and the remaining attribute lines.
pub open spec fn get_object_type_spec(c: Seq<u8>) -> Option<(Seq<u8>, Seq<u8>)> {
    let a = scanner::alpha_run_end(c, 0);
    if a > 0 {
        match line_ending_end(c, a) {
            Some(r) => Some((c.subrange(0, a), c.subrange(r, c.len() as int))),
            None => None,
        }
    } else {
        None
    }
}

/// Is this field content an object (rather than a model attribute)?
pub open spec fn is_object_field(c: Seq<u8>) -> bool {
    get_object_type_spec(c) is Some
}

/// Is this field content an `Atom` object?
pub open spec fn is_atom_field(c: Seq<u8>) -> bool {
    match get_object_type_spec(c) {
        Some((tag, body)) => tag == atom_tag(),
        None => false,
    }
}

/// The attribute lines of an object content, past its type tag.
pub open spec fn object_body(c: Seq<u8>) -> Seq<u8> {
    match get_object_type_spec(c) {
        Some((tag, body)) => body,
        None => Seq::<u8>::empty(),
    }
}

/// The contents of all fields from `i` on, in order of appearance.
pub open spec fn field_contents(s: Seq<u8>, i: int) -> Seq<Seq<u8>>
    decreases s.len() - i,
{
    match get_field_spec(s, i) {
        Some((c0, c1, rest)) => if i < rest <= s.len() {
            seq![s.subrange(c0, c1)] + field_contents(s, rest)
        } else {
            Seq::<Seq<u8>>::empty()
        },
        None => Seq::<Seq<u8>>::empty(),
    }
}

/// The contents of the attribute lines of a block, from `i` on: the walk
/// an atom body is given, attribute fields only.
pub open spec fn attr_contents(s: Seq<u8>, i: int) -> Seq<Seq<u8>>
    decreases s.len() - i,
{
    match take_attribute_spec(s, i) {
        Some((c0, c1, rest)) => if i < rest <= s.len() {
            seq![s.subrange(c0, c1)] + attr_contents(s, rest)
        } else {
            Seq::<Seq<u8>>::empty()
        },
        None => Seq::<Seq<u8>>::empty(),
    }
}

/// The position where no further field matches, from `i` on.
pub open spec fn fields_end(s: Seq<u8>, i: int) -> int
    decreases s.len() - i,
{
    match get_field_spec(s, i) {
        Some((c0, c1, rest)) => if i < rest <= s.len() {
            fields_end(s, rest)
        } else {
            i
        },
        None => i,
    }
}

/// The views of a list of owned byte strings.
pub open spec fn byte_views(vs: Seq<Vec<u8>>) -> Seq<Seq<u8>> {
    vs.map_values(|v: Vec<u8>| v@)
}

/// The model attribute bucket: contents of the non-object fields, in order.
pub open spec fn attrs_of(fs: Seq<Seq<u8>>) -> Seq<Seq<u8>>
    decreases fs.len(),
{
    if fs.len() == 0 {
        Seq::<Seq<u8>>::empty()
    } else {
        let pre = attrs_of(fs.drop_last());
        if is_object_field(fs.last()) {
            pre
        } else {
            pre.push(fs.last())
        }
    }
}

/// The atom bucket: bodies of the `Atom` objects, in order.
pub open spec fn atoms_of(fs: Seq<Seq<u8>>) -> Seq<Seq<u8>>
    decreases fs.len(),
{
    if fs.len() == 0 {
        Seq::<Seq<u8>>::empty()
    } else {
        let pre = atoms_of(fs.drop_last());
        if is_atom_field(fs.last()) {
            pre.push(object_body(fs.last()))
        } else {
            pre
        }
    }
}

/// The bond bucket: bodies of the objects that are not atoms, in order.
pub open spec fn bonds_of(fs: Seq<Seq<u8>>) -> Seq<Seq<u8>>
    decreases fs.len(),
{
    if fs.len() == 0 {
        Seq::<Seq<u8>>::empty()
    } else {
        let pre = bonds_of(fs.drop_last());
        if is_object_field(fs.last()) && !is_atom_field(fs.last()) {
            pre.push(object_body(fs.last()))
        } else {
            pre
        }
    }
}

/// Position just inside the model scope: after the first `(1 Model` and its
/// line ending.  `None` when the document has no such scope opener.
pub open spec fn model_entry(s: Seq<u8>) -> Option<int> {
    match scanner::find_seq(s, 0, pat_model_open()) {
        Some(q) => line_ending_end(s, q + 8),
        None => None,
    }
}

/// Marker of a parser state.
pub trait ParserState {

}

/// The parser holds raw text it has not yet entered.
pub struct Loaded;

impl ParserState for Loaded {

}

/// The parser stands inside a model scope, accumulating fields.
pub struct Start;

impl ParserState for Start {

}

/// The scope is consumed; the buckets are final.
pub struct Analyzed;

impl ParserState for Analyzed {

}

/// A parser over one MSI document, advancing state by state.
pub struct MsiParser<'a, S: ParserState> {
    /// The whole document.
    pub input: &'a [u8],
    /// Position of the text still to parse.
    pub pos: usize,
    /// Contents of the model attribute fields.
    pub model_attributes: Vec<Vec<u8>>,
    /// Bodies of the atom objects.
    pub atoms: Vec<Vec<u8>>,
    /// Bodies of the bond (and other non-atom) objects.
    pub bonds: Vec<Vec<u8>>,
    /// Counter of the attributes.
    pub num_attr: usize,
    /// Counter of the atoms.
    pub num_atom: usize,
    /// Counter of the bonds.
    pub num_bond: usize,
    /// State marker.
    pub state: PhantomData<S>,
}

impl<'a, S: ParserState> MsiParser<'a, S> {
    /// The buckets a parser holds before any field is consumed.
    pub open spec fn buckets_empty(self) -> bool {
        &&& self.model_attributes@.len() == 0
        &&& self.atoms@.len() == 0
        &&& self.bonds@.len() == 0
        &&& self.num_attr == 0
        &&& self.num_atom == 0
        &&& self.num_bond == 0
    }

    /// Extracts an attribute field at `pos`, if one starts there.
    /// Relies on nothing outside this crate: it mirrors
    /// `take_attribute_spec` step by step.
    pub(crate) fn take_attribute(s: &[u8], pos: usize) -> (r: Option<(usize, usize, usize)>)
        requires
            pos <= s@.len(),
        ensures
            match r {
                Some((c0, c1, rest)) => take_attribute_spec(s@, pos as int) == Some(
                    (c0 as int, c1 as int, rest as int),
                ) && pos < rest <= s@.len() && c0 <= c1 <= s@.len(),
                None => take_attribute_spec(s@, pos as int) is None,
            },
    {
        let j0 = scanner::skip_spaces(s, pos);
        if j0 < s.len() && s[j0] == LPAREN && j0 + 1 < s.len() && s[j0 + 1] == LETTER_A {
            let j1 = scanner::skip_spaces(s, j0 + 2);
            if j1 > j0 + 2 {
                let pat3: Vec<u8> = vec![RPAREN, scanner::CR, scanner::LF];
                let pat2: Vec<u8> = vec![RPAREN, scanner::LF];
                proof {
                    assert(pat3@ =~= pat_close_crlf());
                    assert(pat2@ =~= pat_close_lf());
                }
                if let Some(q) = scanner::find_pat(s, j1, &pat3) {
                    Some((j1, q, q + 3))
                } else if let Some(q) = scanner::find_pat(s, j1, &pat2) {
                    Some((j1, q, q + 2))
                } else {
                    None
                }
            } else {
                None
            }
        } else {
            None
        }
    }

    /// Extracts an object field at `pos`, if one starts there.
    fn take_object(s: &[u8], pos: usize) -> (r: Option<(usize, usize, usize)>)
        requires
            pos <= s@.len(),
        ensures
            match r {
                Some((c0, c1, rest)) => take_object_spec(s@, pos as int) == Some(
                    (c0 as int, c1 as int, rest as int),
                ) && pos < rest <= s@.len() && c0 <= c1 <= s@.len(),
                None => take_object_spec(s@, pos as int) is None,
            },
    {
        let j0 = scanner::skip_spaces(s, pos);
        if j0 < s.len() && s[j0] == LPAREN {
            let d = scanner::skip_digits(s, j0 + 1);
            if d > j0 + 1 {
                let j1 = scanner::skip_spaces(s, d);
                if j1 > d {
                    let pat: Vec<u8> = vec![scanner::SPACE, scanner::SPACE, RPAREN];
                    proof {
                        assert(pat@ =~= pat_object_close());
                    }
                    if let Some(q) = scanner::find_pat(s, j1, &pat) {
                        if let Some(r) = Self::line_ending_at(s, q + 3) {
                            Some((j1, q, r))
                        } else {
                            None
                        }
                    } else {
                        None
                    }
                } else {
                    None
                }
            } else {
                None
            }
        } else {
            None
        }
    }

    /// Consumes a line ending at `pos`, if one stands there.
    fn line_ending_at(s: &[u8], pos: usize) -> (r: Option<usize>)
        requires
            pos <= s@.len(),
        ensures
            match r {
                Some(e) => line_ending_end(s@, pos as int) == Some(e as int) && pos < e
                    <= s@.len(),
                None => line_ending_end(s@, pos as int) is None,
            },
    {
        if pos < s.len() && s[pos] == scanner::LF {
            Some(pos + 1)
        } else if pos < s.len() && s[pos] == scanner::CR && pos + 1 < s.len() && s[pos + 1]
            == scanner::LF {
            Some(pos + 2)
        } else {
            None
        }
    }

    /// Extracts the next field, attribute or object, at `pos`.
    fn get_field(s: &[u8], pos: usize) -> (r: Option<(usize, usize, usize)>)
        requires
            pos <= s@.len(),
        ensures
            match r {
                Some((c0, c1, rest)) => get_field_spec(s@, pos as int) == Some(
                    (c0 as int, c1 as int, rest as int),
                ) && pos < rest <= s@.len() && c0 <= c1 <= s@.len(),
                None => get_field_spec(s@, pos as int) is None,
            },
    {
        if let Some(f) = Self::take_attribute(s, pos) {
            Some(f)
        } else {
            Self::take_object(s, pos)
        }
    }

    /// Splits an object content into its type tag and its attribute lines.
    pub fn get_object_type(c: &Vec<u8>) -> (r: Option<(usize, usize)>)
        ensures
            match r {
                Some((a, rest)) => get_object_type_spec(c@) == Some(
                    (c@.subrange(0, a as int), c@.subrange(rest as int, c@.len() as int)),
                ) && 0 < a <= rest <= c@.len(),
                None => get_object_type_spec(c@) is None,
            },
    {
        let a = scanner::skip_alpha(c.as_slice(), 0);
        if a > 0 {
            if let Some(r) = Self::line_ending_at(c.as_slice(), a) {
                Some((a, r))
            } else {
                None
            }
        } else {
            None
        }
    }

    /// Does the object content carry the `Atom` type tag?
    pub fn has_atom_tag(c: &Vec<u8>, a: usize) -> (r: bool)
        requires
            a <= c@.len(),
        ensures
            r <==> c@.subrange(0, a as int) == atom_tag(),
    {
        if a == 4 && c[0] == 65 && c[1] == 116 && c[2] == 111 && c[3] == 109 {
            proof {
                assert(c@.subrange(0, a as int) =~= atom_tag());
            }
            true
        } else {
            proof {
                if c@.subrange(0, a as int) == atom_tag() {
                    assert(a == atom_tag().len());
                    assert(c@.subrange(0, a as int)[0] == 65);
                    assert(c@.subrange(0, a as int)[1] == 116);
                    assert(c@.subrange(0, a as int)[2] == 111);
                    assert(c@.subrange(0, a as int)[3] == 109);
                }
            }
            false
        }
    }
}

/// Copies `s[i..j)` into a fresh vector.
pub fn copy_range(s: &[u8], i: usize, j: usize) -> (r: Vec<u8>)
    requires
        i <= j <= s@.len(),
    ensures
        r@ == s@.subrange(i as int, j as int),
{
    let mut r: Vec<u8> = Vec::new();
    let mut k: usize = i;
    while k < j
        invariant
            i <= k <= j <= s@.len(),
            r@ == s@.subrange(i as int, k as int),
        decreases j - k,
    {
        r.push(s[k]);
        proof {
            assert(s@.subrange(i as int, k + 1) =~= s@.subrange(i as int, k as int).push(
                s@[k as int],
            ));
        }
        k = k + 1;
    }
    r
}

impl<'a> MsiParser<'a, Loaded> {
    /// Wraps a document, read into bytes, for parsing.
    pub fn new(input: &'a [u8]) -> (r: Self)
        ensures
            r.input@ == input@,
            r.pos == 0,
            r.buckets_empty(),
    {
        MsiParser {
            input,
            pos: 0,
            model_attributes: Vec::new(),
            atoms: Vec::new(),
            bonds: Vec::new(),
            num_attr: 0,
            num_atom: 0,
            num_bond: 0,
            state: PhantomData,
        }
    }

    /// Skips the header and enters the model scope, or reports a structural
    /// failure when the document holds no `(1 Model` line.
    pub fn starts(self) -> (r: Result<MsiParser<'a, Start>, ParseError>)
        ensures
            match r {
                Ok(p) => {
                    &&& model_entry(self.input@) == Some(p.pos as int)
                    &&& p.input@ == self.input@
                    &&& p.buckets_empty()
                    &&& p.pos <= p.input@.len()
                },
                Err(e) => model_entry(self.input@) is None && e is Structure,
            },
    {
        let pat: Vec<u8> = vec![
            LPAREN,
            49,
            scanner::SPACE,
            77,
            111,
            100,
            101,
            108,
        ];
        proof {
            assert(pat@ =~= pat_model_open());
        }
        let n = self.input.len();
        if let Some(q) = scanner::find_pat(self.input, 0, &pat) {
            proof {
                assert(q + 8 <= n);
            }
            if let Some(e) = Self::line_ending_at(self.input, q + 8) {
                Ok(
                    MsiParser {
                        input: self.input,
                        pos: e,
                        model_attributes: Vec::new(),
                        atoms: Vec::new(),
                        bonds: Vec::new(),
                        num_attr: 0,
                        num_atom: 0,
                        num_bond: 0,
                        state: PhantomData,
                    },
                )
            } else {
                Err(
                    ParseError::Structure {
                        remainder: copy_range(self.input, q, self.input.len()),
                    },
                )
            }
        } else {
            Err(ParseError::Structure { remainder: copy_range(self.input, 0, self.input.len()) })
        }
    }
}

impl<'a> MsiParser<'a, Start> {
    /// Loops over the scope, sorting each extracted field into its bucket:
    /// attribute contents, atom bodies, or bond bodies, in order of
    /// appearance, until no field matches; the text standing there must be
    /// the scope terminator, else the parse fails structurally with the
    /// unconsumed remainder.
    pub fn analyze(self) -> (r: Result<MsiParser<'a, Analyzed>, ParseError>)
        requires
            self.pos <= self.input@.len(),
            self.buckets_empty(),
        ensures
            ({
                let fs = field_contents(self.input@, self.pos as int);
                let fe = fields_end(self.input@, self.pos as int);
                match r {
                    Ok(p) => {
                        &&& p.input@ == self.input@
                        &&& byte_views(p.model_attributes@) == attrs_of(fs)
                        &&& byte_views(p.atoms@) == atoms_of(fs)
                        &&& byte_views(p.bonds@) == bonds_of(fs)
                        &&& p.num_attr == p.model_attributes@.len()
                        &&& p.num_atom == p.atoms@.len()
                        &&& p.num_bond == p.bonds@.len()
                        &&& fe < self.input@.len() && self.input@[fe] == RPAREN
                    },
                    Err(e) => {
                        &&& !(fe < self.input@.len() && self.input@[fe] == RPAREN)
                        &&& e is Structure
                    },
                }
            }),
    {
        let s = self.input;
        let ghost start = self.pos as int;
        let mut pos = self.pos;
        let mut attrs: Vec<Vec<u8>> = self.model_attributes;
        let mut atoms: Vec<Vec<u8>> = self.atoms;
        let mut bonds: Vec<Vec<u8>> = self.bonds;
        let ghost mut processed: Seq<Seq<u8>> = Seq::empty();
        proof {
            assert(byte_views(attrs@) =~= attrs_of(processed));
            assert(byte_views(atoms@) =~= atoms_of(processed));
            assert(byte_views(bonds@) =~= bonds_of(processed));
        }
        let mut field = Self::get_field(s, pos);
        while field.is_some()
            invariant
                pos <= s@.len(),
                field_contents(s@, start) == processed + field_contents(s@, pos as int),
                fields_end(s@, start) == fields_end(s@, pos as int),
                byte_views(attrs@) == attrs_of(processed),
                byte_views(atoms@) == atoms_of(processed),
                byte_views(bonds@) == bonds_of(processed),
                match field {
                    Some((c0, c1, rest)) => get_field_spec(s@, pos as int) == Some(
                        (c0 as int, c1 as int, rest as int),
                    ) && pos < rest <= s@.len() && c0 <= c1 <= s@.len(),
                    None => get_field_spec(s@, pos as int) is None,
                },
            decreases s@.len() - pos,
        {
            let (c0, c1, rest) = field.unwrap();
            let content = copy_range(s, c0, c1);
            let ghost c = s@.subrange(c0 as int, c1 as int);
            proof {
                assert(field_contents(s@, pos as int) == seq![c] + field_contents(
                    s@,
                    rest as int,
                ));
                assert(fields_end(s@, pos as int) == fields_end(s@, rest as int));
                assert(processed + field_contents(s@, pos as int) =~= processed.push(c)
                    + field_contents(s@, rest as int));
                assert(processed.push(c).drop_last() =~= processed);
                assert(processed.push(c).last() == c);
            }
            if let Some((a, body_start)) = Self::get_object_type(&content) {
                let body = copy_range(content.as_slice(), body_start, content.len());
                proof {
                    assert(content@.subrange(body_start as int, content@.len() as int) == body@);
                    assert(object_body(c) == body@);
                }
                if Self::has_atom_tag(&content, a) {
                    atoms.push(body);
                    proof {
                        assert(byte_views(atoms@) =~= atoms_of(processed).push(
                            body@,
                        ));
                        assert(byte_views(attrs@) == attrs_of(
                            processed.push(c),
                        ));
                        assert(byte_views(bonds@) == bonds_of(
                            processed.push(c),
                        ));
                    }
                } else {
                    bonds.push(body);
                    proof {
                        assert(byte_views(bonds@) =~= bonds_of(processed).push(
                            body@,
                        ));
                        assert(byte_views(attrs@) == attrs_of(
                            processed.push(c),
                        ));
                        assert(byte_views(atoms@) == atoms_of(
                            processed.push(c),
                        ));
                    }
                }
            } else {
                attrs.push(content);
                proof {
                    assert(byte_views(attrs@) =~= attrs_of(processed).push(c));
                    assert(byte_views(atoms@) == atoms_of(processed.push(c)));
                    assert(byte_views(bonds@) == bonds_of(processed.push(c)));
                }
            }
            proof {
                processed = processed.push(c);
            }
            pos = rest;
            field = Self::get_field(s, pos);
        }
        proof {
            assert(field_contents(s@, pos as int) =~= Seq::<Seq<u8>>::empty());
            assert(field_contents(s@, start) =~= processed);
            assert(fields_end(s@, pos as int) == pos as int);
        }
        // The loop is exhausted: the scope terminator must stand here.
        if pos < s.len() && s[pos] == RPAREN {
            let n_attr = attrs.len();
            let n_atom = atoms.len();
            let n_bond = bonds.len();
            Ok(
                MsiParser {
                    input: self.input,
                    pos,
                    model_attributes: attrs,
                    atoms,
                    bonds,
                    num_attr: n_attr,
                    num_atom: n_atom,
                    num_bond: n_bond,
                    state: PhantomData,
                },
            )
        } else {
            Err(ParseError::Structure { remainder: copy_range(s, pos, s.len()) })
        }
    }
}

} // verus!
