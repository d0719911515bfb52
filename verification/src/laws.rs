//! Laws of the walk and of the serialization.
//!
//! Order independence: the field walk classifies every field on its own,
//! so the buckets depend only on which fields a document holds, not on how
//! they are interleaved.  Serialization round trips: re-parsing what the
//! exporter writes — the scope opener, each field form, each fixed-point
//! number — recovers exactly what was exported, numbers up to the printed
//! precision.
use vstd::prelude::*;
use crate::format::fixed_mantissa;
use crate::format::spec_format_fixed;
use crate::numeric::Decimal;
use crate::numeric::ascii_digits;
use crate::numeric::dec_digits;
use crate::numeric::dec_of_literal;
use crate::numeric::digits_val;
use crate::numeric::fixed_digits;
use crate::numeric::lemma_digits_val_single;
use crate::numeric::lemma_digits_val_split;
use crate::numeric::lemma_pow10_add;
use crate::numeric::lemma_pow10_pos;
use crate::numeric::pow10;
use crate::scanner;
use crate::state_machine::atoms_of;
use crate::state_machine::attrs_of;
use crate::state_machine::bonds_of;
use crate::state_machine::is_atom_field;
use crate::state_machine::is_object_field;
use crate::state_machine::object_body;

verus! {

/// Removing one field from a list removes exactly its contribution from
/// each bucket.
proof fn lemma_buckets_remove(fs: Seq<Seq<u8>>, j: int)
    requires
        0 <= j < fs.len(),
    ensures
        is_atom_field(fs[j]) ==> atoms_of(fs).to_multiset() =~= atoms_of(
            fs.remove(j),
        ).to_multiset().insert(object_body(fs[j])),
        !is_atom_field(fs[j]) ==> atoms_of(fs).to_multiset() =~= atoms_of(
            fs.remove(j),
        ).to_multiset(),
        is_object_field(fs[j]) && !is_atom_field(fs[j]) ==> bonds_of(fs).to_multiset()
            =~= bonds_of(fs.remove(j)).to_multiset().insert(object_body(fs[j])),
        !(is_object_field(fs[j]) && !is_atom_field(fs[j])) ==> bonds_of(fs).to_multiset()
            =~= bonds_of(fs.remove(j)).to_multiset(),
        !is_object_field(fs[j]) ==> attrs_of(fs).to_multiset() =~= attrs_of(
            fs.remove(j),
        ).to_multiset().insert(fs[j]),
        is_object_field(fs[j]) ==> attrs_of(fs).to_multiset() =~= attrs_of(
            fs.remove(j),
        ).to_multiset(),
    decreases fs.len(),
{
    broadcast use vstd::seq_lib::group_to_multiset_ensures;

    if j == fs.len() - 1 {
        assert(fs.remove(j) =~= fs.drop_last());
    } else {
        let dl = fs.drop_last();
        lemma_buckets_remove(dl, j);
        assert(fs.remove(j).drop_last() =~= dl.remove(j));
        assert(fs.remove(j).last() == fs.last());
        assert(dl[j] == fs[j]);
        // Each bucket of `fs` is the bucket of `dl` with possibly the last
        // contribution pushed; pushing commutes with inserting under the
        // multiset view.
        if is_atom_field(fs.last()) {
            assert(atoms_of(fs).to_multiset() =~= atoms_of(dl).to_multiset().insert(
                object_body(fs.last()),
            ));
            assert(atoms_of(fs.remove(j)).to_multiset() =~= atoms_of(
                dl.remove(j),
            ).to_multiset().insert(object_body(fs.last())));
        } else {
            assert(atoms_of(fs).to_multiset() =~= atoms_of(dl).to_multiset());
            assert(atoms_of(fs.remove(j)).to_multiset() =~= atoms_of(dl.remove(j)).to_multiset());
        }
        if is_object_field(fs.last()) && !is_atom_field(fs.last()) {
            assert(bonds_of(fs).to_multiset() =~= bonds_of(dl).to_multiset().insert(
                object_body(fs.last()),
            ));
            assert(bonds_of(fs.remove(j)).to_multiset() =~= bonds_of(
                dl.remove(j),
            ).to_multiset().insert(object_body(fs.last())));
        } else {
            assert(bonds_of(fs).to_multiset() =~= bonds_of(dl).to_multiset());
            assert(bonds_of(fs.remove(j)).to_multiset() =~= bonds_of(dl.remove(j)).to_multiset());
        }
        if !is_object_field(fs.last()) {
            assert(attrs_of(fs).to_multiset() =~= attrs_of(dl).to_multiset().insert(fs.last()));
            assert(attrs_of(fs.remove(j)).to_multiset() =~= attrs_of(
                dl.remove(j),
            ).to_multiset().insert(fs.last()));
        } else {
            assert(attrs_of(fs).to_multiset() =~= attrs_of(dl).to_multiset());
            assert(attrs_of(fs.remove(j)).to_multiset() =~= attrs_of(dl.remove(j)).to_multiset());
        }
    }
}

/// Field order independence: when two documents hold the same fields in
/// any two interleavings — their field content lists are permutations of
/// one another — the walk accumulates the same model attributes, the same
/// atom bodies and the same bond bodies, as multisets.
pub proof fn lemma_field_order_independence(fs1: Seq<Seq<u8>>, fs2: Seq<Seq<u8>>)
    requires
        fs1.to_multiset() == fs2.to_multiset(),
    ensures
        atoms_of(fs1).to_multiset() == atoms_of(fs2).to_multiset(),
        bonds_of(fs1).to_multiset() == bonds_of(fs2).to_multiset(),
        attrs_of(fs1).to_multiset() == attrs_of(fs2).to_multiset(),
    decreases fs1.len(),
{
    broadcast use vstd::seq_lib::group_to_multiset_ensures;

    if fs1.len() == 0 {
        assert(fs2.to_multiset().len() == 0);
        assert(fs2.len() == 0);
        assert(atoms_of(fs1).to_multiset() =~= atoms_of(fs2).to_multiset());
        assert(bonds_of(fs1).to_multiset() =~= bonds_of(fs2).to_multiset());
        assert(attrs_of(fs1).to_multiset() =~= attrs_of(fs2).to_multiset());
    } else {
        let x = fs1.last();
        let fs1p = fs1.drop_last();
        assert(fs1.remove(fs1.len() - 1) =~= fs1p);
        assert(fs1.to_multiset().count(x) > 0);
        assert(fs2.to_multiset().count(x) > 0);
        assert(fs2.contains(x));
        let j = choose|j: int| 0 <= j < fs2.len() && fs2[j] == x;
        let fs2p = fs2.remove(j);
        assert(fs1p.to_multiset() =~= fs1.to_multiset().remove(x));
        assert(fs2p.to_multiset() =~= fs2.to_multiset().remove(x));
        lemma_field_order_independence(fs1p, fs2p);
        lemma_buckets_remove(fs1, fs1.len() - 1);
        lemma_buckets_remove(fs2, j);
        assert(atoms_of(fs1).to_multiset() =~= atoms_of(fs2).to_multiset());
        assert(bonds_of(fs1).to_multiset() =~= bonds_of(fs2).to_multiset());
        assert(attrs_of(fs1).to_multiset() =~= attrs_of(fs2).to_multiset());
    }
}

/// Serialization round trip for one attribute field: on text holding the
/// serialized attribute form — two blanks, `(A`, one blank, a one-line
/// content, a close paren and a line feed — the field extractor matches
/// exactly that field, yields exactly that content, and stands right after
/// it.  The text must be free of carriage returns from the field on, as
/// the exporter's output is.
pub proof fn lemma_attribute_field_inverts(s: Seq<u8>, p: int, n: int)
    requires
        0 <= p,
        p + 5 + n + 2 <= s.len(),
        n >= 1,
        s[p] == scanner::SPACE && s[p + 1] == scanner::SPACE,
        s[p + 2] == crate::state_machine::LPAREN,
        s[p + 3] == crate::state_machine::LETTER_A,
        s[p + 4] == scanner::SPACE,
        !scanner::is_space(s[p + 5]),
        forall|i: int| p + 5 <= i < p + 5 + n ==> #[trigger] s[i] != scanner::LF,
        s[p + 5 + n] == crate::state_machine::RPAREN,
        s[p + 5 + n + 1] == scanner::LF,
        forall|i: int| p <= i < s.len() ==> #[trigger] s[i] != scanner::CR,
    ensures
        crate::state_machine::take_attribute_spec(s, p) == Some(
            (p + 5, p + 5 + n, p + 5 + n + 2),
        ),
        crate::state_machine::get_field_spec(s, p) == Some((p + 5, p + 5 + n, p + 5 + n + 2)),
{
    scanner::lemma_space_run_end_exact(s, p, p + 2);
    scanner::lemma_space_run_end_exact(s, p + 4, p + 5);
    scanner::lemma_find_seq_none_without_byte(
        s,
        p + 5,
        crate::state_machine::pat_close_crlf(),
        1,
    );
    let pat = crate::state_machine::pat_close_lf();
    let q0 = p + 5 + n;
    assert(s.subrange(q0, q0 + 2) =~= pat);
    assert forall|q: int| p + 5 <= q < q0 implies #[trigger] s.subrange(q, q + 2) != pat by {
        assert(s.subrange(q, q + 2)[1] == s[q + 1]);
        if q + 1 < q0 {
            assert(s[q + 1] != scanner::LF);
        } else {
            assert(s[q + 1] == crate::state_machine::RPAREN);
        }
    }
    scanner::lemma_find_seq_first(s, p + 5, pat, q0);
}

/// Serialization round trip for one object field: on text holding the
/// serialized object form — two blanks, an open paren, a decimal index,
/// one blank, a body, then an indentation-only closing line — the field
/// extractor classifies it as an object (never as an attribute), yields
/// exactly the body, and stands right after the field.
pub proof fn lemma_object_field_inverts(s: Seq<u8>, p: int, d: int, n: int)
    requires
        0 <= p,
        p + 3 < d,
        d + 1 + n + 4 <= s.len(),
        n >= 1,
        s[p] == scanner::SPACE && s[p + 1] == scanner::SPACE,
        s[p + 2] == crate::state_machine::LPAREN,
        forall|i: int| p + 3 <= i < d ==> scanner::is_digit(#[trigger] s[i]),
        s[d] == scanner::SPACE,
        !scanner::is_space(s[d + 1]),
        forall|q: int|
            d + 1 <= q && q + 2 < d + 1 + n ==> !(#[trigger] s[q] == scanner::SPACE && s[q + 1]
                == scanner::SPACE && s[q + 2] == crate::state_machine::RPAREN),
        s[d + 1 + n] == scanner::SPACE,
        s[d + 1 + n + 1] == scanner::SPACE,
        s[d + 1 + n + 2] == crate::state_machine::RPAREN,
        s[d + 1 + n + 3] == scanner::LF,
    ensures
        crate::state_machine::take_attribute_spec(s, p) is None,
        crate::state_machine::take_object_spec(s, p) == Some(
            (d + 1, d + 1 + n, d + 1 + n + 4),
        ),
        crate::state_machine::get_field_spec(s, p) == Some((d + 1, d + 1 + n, d + 1 + n + 4)),
{
    scanner::lemma_space_run_end_exact(s, p, p + 2);
    assert(scanner::is_digit(s[p + 3]));
    assert(s[p + 3] != crate::state_machine::LETTER_A);
    scanner::lemma_digit_run_end_exact(s, p + 3, d);
    scanner::lemma_space_run_end_exact(s, d, d + 1);
    let pat = crate::state_machine::pat_object_close();
    let q0 = d + 1 + n;
    assert(s.subrange(q0, q0 + 3) =~= pat);
    assert forall|q: int| d + 1 <= q < q0 implies #[trigger] s.subrange(q, q + 3) != pat by {
        assert(s.subrange(q, q + 3)[0] == s[q]);
        assert(s.subrange(q, q + 3)[1] == s[q + 1]);
        assert(s.subrange(q, q + 3)[2] == s[q + 2]);
        if q + 2 < q0 {
            assert(!(s[q] == scanner::SPACE && s[q + 1] == scanner::SPACE && s[q + 2]
                == crate::state_machine::RPAREN));
        } else if q + 2 == q0 {
            assert(s[q + 2] == scanner::SPACE);
        } else {
            assert(s[q + 2] == scanner::SPACE);
        }
    }
    scanner::lemma_find_seq_first(s, d + 1, pat, q0);
}

/// Serialization round trip for the scope entry: the exported document
/// enters its model scope right after the header line and the scope opener
/// line, wherever its content is free of further scope openers.
#[verifier::rlimit(100)]
pub proof fn lemma_export_model_entry(m: crate::lattice::LatticeModel<
    crate::model_type::MsiModel,
>)
    ensures
        ({
            let s = crate::export::spec_msi_export(m);
            crate::state_machine::model_entry(s) == Some(50int)
        }),
{
    let s = crate::export::spec_msi_export(m);
    let pat = crate::state_machine::pat_model_open();
    let header = crate::export::spec_header();
    let opener = crate::export::spec_model_open_line();
    assert(header.len() == 41);
    assert(opener.len() == 9);
    assert(s.len() >= 51);
    assert forall|i: int| 0 <= i < 9 implies s[41 + i] == opener[i] by {
        assert(s[41 + i] == (header + opener)[41 + i]);
    }
    assert(s.subrange(41, 49) =~= pat);
    // The header line holds no open paren, so no earlier window matches.
    assert forall|q: int| 0 <= q < 41 implies #[trigger] s.subrange(q, q + 8) != pat by {
        assert(s[q] == (header + opener)[q]);
        assert(s[q] == header[q]);
        assert(header[q] != crate::state_machine::LPAREN);
        assert(s.subrange(q, q + 8)[0] == s[q]);
        assert(pat[0] == crate::state_machine::LPAREN);
    }
    scanner::lemma_find_seq_first(s, 0, pat, 41);
    assert(s[49] == opener[8]);
    assert(s[49] == scanner::LF);
}

/// No byte of `bs` is a carriage return.
pub open spec fn no_cr(bs: Seq<u8>) -> bool {
    forall|i: int| 0 <= i < bs.len() ==> #[trigger] bs[i] != scanner::CR
}

/// Concatenation keeps freedom from carriage returns.
proof fn lemma_concat_no_cr(a: Seq<u8>, b: Seq<u8>)
    requires
        no_cr(a),
        no_cr(b),
    ensures
        no_cr(a + b),
{
    assert forall|i: int| 0 <= i < (a + b).len() implies (a + b)[i] != scanner::CR by {
        if i < a.len() {
            assert((a + b)[i] == a[i]);
        } else {
            assert((a + b)[i] == b[i - a.len()]);
        }
    }
}

/// ASCII digit strings hold no carriage return.
proof fn lemma_ascii_digits_no_cr(ds: Seq<u8>)
    requires
        forall|i: int| 0 <= i < ds.len() ==> #[trigger] ds[i] < 10,
    ensures
        no_cr(ascii_digits(ds)),
{
    assert forall|i: int| 0 <= i < ascii_digits(ds).len() implies ascii_digits(ds)[i]
        != scanner::CR by {
        assert(ascii_digits(ds)[i] == ds[i] + scanner::DIGIT_ZERO);
    }
}

/// The fixed-point text of a number holds no carriage return.
proof fn lemma_format_fixed_no_cr(d: Decimal, places: nat)
    requires
        d.wf(),
        1 <= places <= 100,
    ensures
        no_cr(spec_format_fixed(d, places)),
{
    lemma_format_fixed_chars(d, places);
}

/// Are the model's free-text parts — element symbols and the space group
/// label — free of carriage returns, as every parsed model's are?
pub open spec fn export_clean(m: crate::lattice::LatticeModel<crate::model_type::MsiModel>) -> bool {
    &&& forall|i: int|
        0 <= i < m.atoms.element_symbols@.len() ==> no_cr(
            (#[trigger] m.atoms.element_symbols@[i])@,
        )
    &&& no_cr(m.settings.space_group@)
}

/// An exported atom block holds no carriage return.
#[verifier::rlimit(100)]
proof fn lemma_atom_block_no_cr(
    t: crate::atom::AtomCollection<crate::model_type::MsiModel>,
    i: int,
)
    requires
        t.wf(),
        0 <= i < t.size,
        no_cr(t.element_symbols@[i]@),
        t.atom_ids@[i] < u32::MAX,
    ensures
        no_cr(crate::export::spec_atom_block(t, i)),
{
    lemma_dec_digits_correct((t.atom_ids@[i] + 1) as nat);
    lemma_dec_digits_correct(t.atomic_nums@[i] as nat);
    lemma_dec_digits_correct(t.atom_ids@[i] as nat);
    lemma_ascii_digits_no_cr(dec_digits((t.atom_ids@[i] + 1) as nat));
    lemma_ascii_digits_no_cr(dec_digits(t.atomic_nums@[i] as nat));
    lemma_ascii_digits_no_cr(dec_digits(t.atom_ids@[i] as nat));
    lemma_format_fixed_no_cr(t.xyz_coords@[i].x, crate::export::COORD_PLACES as nat);
    lemma_format_fixed_no_cr(t.xyz_coords@[i].y, crate::export::COORD_PLACES as nat);
    lemma_format_fixed_no_cr(t.xyz_coords@[i].z, crate::export::COORD_PLACES as nat);
    assert(no_cr(crate::export::spec_atom_open()));
    assert(no_cr(crate::export::spec_atom_tag_line()));
    assert(no_cr(crate::export::spec_acl_prefix()));
    assert(no_cr(crate::export::spec_space()));
    assert(no_cr(crate::export::spec_quote_close_line()));
    assert(no_cr(crate::export::spec_label_prefix()));
    assert(no_cr(crate::export::spec_xyz_prefix()));
    assert(no_cr(crate::export::spec_close2_line()));
    assert(no_cr(crate::export::spec_id_prefix()));
    assert(no_cr(crate::export::spec_close_line()));
    assert(no_cr(crate::export::spec_atom_close()));
    let s1 = crate::export::spec_atom_open();
    let s2 = s1 + ascii_digits(dec_digits((t.atom_ids@[i] + 1) as nat));
    lemma_concat_no_cr(s1, ascii_digits(dec_digits((t.atom_ids@[i] + 1) as nat)));
    let s3 = s2 + crate::export::spec_atom_tag_line();
    lemma_concat_no_cr(s2, crate::export::spec_atom_tag_line());
    let s4 = s3 + crate::export::spec_acl_prefix();
    lemma_concat_no_cr(s3, crate::export::spec_acl_prefix());
    let s5 = s4 + ascii_digits(dec_digits(t.atomic_nums@[i] as nat));
    lemma_concat_no_cr(s4, ascii_digits(dec_digits(t.atomic_nums@[i] as nat)));
    let s6 = s5 + crate::export::spec_space();
    lemma_concat_no_cr(s5, crate::export::spec_space());
    let s7 = s6 + t.element_symbols@[i]@;
    lemma_concat_no_cr(s6, t.element_symbols@[i]@);
    let s8 = s7 + crate::export::spec_quote_close_line();
    lemma_concat_no_cr(s7, crate::export::spec_quote_close_line());
    let s9 = s8 + crate::export::spec_label_prefix();
    lemma_concat_no_cr(s8, crate::export::spec_label_prefix());
    let s10 = s9 + t.element_symbols@[i]@;
    lemma_concat_no_cr(s9, t.element_symbols@[i]@);
    let s11 = s10 + crate::export::spec_quote_close_line();
    lemma_concat_no_cr(s10, crate::export::spec_quote_close_line());
    let s12 = s11 + crate::export::spec_xyz_prefix();
    lemma_concat_no_cr(s11, crate::export::spec_xyz_prefix());
    let s13 = s12 + spec_format_fixed(t.xyz_coords@[i].x, crate::export::COORD_PLACES as nat);
    lemma_concat_no_cr(
        s12,
        spec_format_fixed(t.xyz_coords@[i].x, crate::export::COORD_PLACES as nat),
    );
    let s14 = s13 + crate::export::spec_space();
    lemma_concat_no_cr(s13, crate::export::spec_space());
    let s15 = s14 + spec_format_fixed(t.xyz_coords@[i].y, crate::export::COORD_PLACES as nat);
    lemma_concat_no_cr(
        s14,
        spec_format_fixed(t.xyz_coords@[i].y, crate::export::COORD_PLACES as nat),
    );
    let s16 = s15 + crate::export::spec_space();
    lemma_concat_no_cr(s15, crate::export::spec_space());
    let s17 = s16 + spec_format_fixed(t.xyz_coords@[i].z, crate::export::COORD_PLACES as nat);
    lemma_concat_no_cr(
        s16,
        spec_format_fixed(t.xyz_coords@[i].z, crate::export::COORD_PLACES as nat),
    );
    let s18 = s17 + crate::export::spec_close2_line();
    lemma_concat_no_cr(s17, crate::export::spec_close2_line());
    let s19 = s18 + crate::export::spec_id_prefix();
    lemma_concat_no_cr(s18, crate::export::spec_id_prefix());
    let s20 = s19 + ascii_digits(dec_digits(t.atom_ids@[i] as nat));
    lemma_concat_no_cr(s19, ascii_digits(dec_digits(t.atom_ids@[i] as nat)));
    let s21 = s20 + crate::export::spec_close_line();
    lemma_concat_no_cr(s20, crate::export::spec_close_line());
    lemma_concat_no_cr(s21, crate::export::spec_atom_close());
}

/// No run of exported atom blocks holds a carriage return.
proof fn lemma_atom_blocks_no_cr(
    t: crate::atom::AtomCollection<crate::model_type::MsiModel>,
    n: int,
)
    requires
        t.wf(),
        0 <= n <= t.size,
        forall|i: int|
            0 <= i < t.size ==> no_cr((#[trigger] t.element_symbols@[i])@),
        forall|i: int| 0 <= i < t.atom_ids@.len() ==> (#[trigger] t.atom_ids@[i]) < u32::MAX,
    ensures
        no_cr(crate::export::spec_atom_blocks(t, n)),
    decreases n,
{
    if n <= 0 {
    } else {
        lemma_atom_blocks_no_cr(t, n - 1);
        lemma_atom_block_no_cr(t, n - 1);
        lemma_concat_no_cr(
            crate::export::spec_atom_blocks(t, n - 1),
            crate::export::spec_atom_block(t, n - 1),
        );
    }
}

/// The whole exported document holds no carriage return: the exporter
/// writes line-feed endings only, so re-parsing always takes the
/// line-feed branch of the field extractor.
#[verifier::rlimit(100)]
pub proof fn lemma_export_no_cr(m: crate::lattice::LatticeModel<crate::model_type::MsiModel>)
    requires
        m.wf(),
        export_clean(m),
        forall|i: int|
            0 <= i < m.atoms.atom_ids@.len() ==> (#[trigger] m.atoms.atom_ids@[i]) < u32::MAX,
    ensures
        no_cr(crate::export::spec_msi_export(m)),
{
    lemma_atom_blocks_no_cr(m.atoms, m.atoms.size as int);
    let atoms = crate::export::spec_atom_blocks(m.atoms, m.atoms.size as int);
    assert(no_cr(crate::export::spec_header()));
    assert(no_cr(crate::export::spec_model_open_line()));
    assert(no_cr(seq![41u8])) by {
        assert(seq![41u8][0] == 41u8);
    }
    match m.lattice_vectors {
        Some(lv) => {
            lemma_dec_digits_correct(m.settings.periodic_type as nat);
            lemma_ascii_digits_no_cr(dec_digits(m.settings.periodic_type as nat));
            lemma_vector_line_no_cr(crate::export::spec_a3_prefix(), lv.a);
            lemma_vector_line_no_cr(crate::export::spec_b3_prefix(), lv.b);
            lemma_vector_line_no_cr(crate::export::spec_c3_prefix(), lv.c);
            lemma_format_fixed_no_cr(m.settings.cry_tolerance, crate::export::COORD_PLACES as nat);
            assert(no_cr(crate::export::spec_cry_display_line()));
            assert(no_cr(crate::export::spec_periodic_prefix()));
            assert(no_cr(crate::export::spec_close_line()));
            assert(no_cr(crate::export::spec_space_group_prefix()));
            assert(no_cr(crate::export::spec_quote_close_line()));
            assert(no_cr(crate::export::spec_tolerance_prefix()));
            let s1 = crate::export::spec_header();
            let s2 = s1 + crate::export::spec_model_open_line();
            lemma_concat_no_cr(s1, crate::export::spec_model_open_line());
            let s3 = s2 + crate::export::spec_cry_display_line();
            lemma_concat_no_cr(s2, crate::export::spec_cry_display_line());
            let s4 = s3 + crate::export::spec_periodic_prefix();
            lemma_concat_no_cr(s3, crate::export::spec_periodic_prefix());
            let s5 = s4 + ascii_digits(dec_digits(m.settings.periodic_type as nat));
            lemma_concat_no_cr(s4, ascii_digits(dec_digits(m.settings.periodic_type as nat)));
            let s6 = s5 + crate::export::spec_close_line();
            lemma_concat_no_cr(s5, crate::export::spec_close_line());
            let s7 = s6 + crate::export::spec_space_group_prefix();
            lemma_concat_no_cr(s6, crate::export::spec_space_group_prefix());
            let s8 = s7 + m.settings.space_group@;
            lemma_concat_no_cr(s7, m.settings.space_group@);
            let s9 = s8 + crate::export::spec_quote_close_line();
            lemma_concat_no_cr(s8, crate::export::spec_quote_close_line());
            let s10 = s9 + crate::export::spec_vector_line(crate::export::spec_a3_prefix(), lv.a);
            lemma_concat_no_cr(
                s9,
                crate::export::spec_vector_line(crate::export::spec_a3_prefix(), lv.a),
            );
            let s11 = s10 + crate::export::spec_vector_line(crate::export::spec_b3_prefix(), lv.b);
            lemma_concat_no_cr(
                s10,
                crate::export::spec_vector_line(crate::export::spec_b3_prefix(), lv.b),
            );
            let s12 = s11 + crate::export::spec_vector_line(crate::export::spec_c3_prefix(), lv.c);
            lemma_concat_no_cr(
                s11,
                crate::export::spec_vector_line(crate::export::spec_c3_prefix(), lv.c),
            );
            let s13 = s12 + crate::export::spec_tolerance_prefix();
            lemma_concat_no_cr(s12, crate::export::spec_tolerance_prefix());
            let s14 = s13 + spec_format_fixed(
                m.settings.cry_tolerance,
                crate::export::COORD_PLACES as nat,
            );
            lemma_concat_no_cr(
                s13,
                spec_format_fixed(m.settings.cry_tolerance, crate::export::COORD_PLACES as nat),
            );
            let s15 = s14 + crate::export::spec_close_line();
            lemma_concat_no_cr(s14, crate::export::spec_close_line());
            let s16 = s15 + atoms;
            lemma_concat_no_cr(s15, atoms);
            lemma_concat_no_cr(s16, seq![41u8]);
        },
        None => {
            let s1 = crate::export::spec_header();
            let s2 = s1 + crate::export::spec_model_open_line();
            lemma_concat_no_cr(s1, crate::export::spec_model_open_line());
            let s3 = s2 + atoms;
            lemma_concat_no_cr(s2, atoms);
            lemma_concat_no_cr(s3, seq![41u8]);
        },
    }
}

/// Serialization round trip for the head of a periodic document: after
/// entering the exported scope, the field extractor matches the display
/// attribute first — exactly the content the exporter wrote, and it stands
/// right after that line.
#[verifier::rlimit(100)]
pub proof fn lemma_export_first_field(m: crate::lattice::LatticeModel<crate::model_type::MsiModel>)
    requires
        m.wf(),
        export_clean(m),
        m.lattice_vectors is Some,
        forall|i: int|
            0 <= i < m.atoms.atom_ids@.len() ==> (#[trigger] m.atoms.atom_ids@[i]) < u32::MAX,
    ensures
        ({
            let s = crate::export::spec_msi_export(m);
            &&& crate::state_machine::model_entry(s) == Some(50int)
            &&& crate::state_machine::get_field_spec(s, 50) == Some((55int, 78int, 80int))
            &&& s.subrange(55, 78) == crate::export::spec_cry_display_line().subrange(5, 28)
        }),
{
    let s = crate::export::spec_msi_export(m);
    lemma_export_model_entry(m);
    lemma_export_no_cr(m);
    let disp = crate::export::spec_cry_display_line();
    lemma_display_line_bytes();
    assert forall|i: int| 0 <= i < 30 implies s[50 + i] == disp[i] by {
        assert(s[50 + i] == ((crate::export::spec_header()
            + crate::export::spec_model_open_line()) + disp)[50 + i]);
    }
    lemma_attribute_field_inverts(s, 50, 23);
    assert(s.subrange(55, 78) =~= disp.subrange(5, 28));
}

/// The exact bytes of the display attribute line.
proof fn lemma_display_line_bytes()
    ensures
        crate::export::spec_cry_display_line().len() == 30,
        crate::export::spec_cry_display_line()[0] == scanner::SPACE,
        crate::export::spec_cry_display_line()[1] == scanner::SPACE,
        crate::export::spec_cry_display_line()[2] == crate::state_machine::LPAREN,
        crate::export::spec_cry_display_line()[3] == crate::state_machine::LETTER_A,
        crate::export::spec_cry_display_line()[4] == scanner::SPACE,
        !scanner::is_space(crate::export::spec_cry_display_line()[5]),
        forall|i: int|
            5 <= i < 28 ==> #[trigger] crate::export::spec_cry_display_line()[i] != scanner::LF,
        crate::export::spec_cry_display_line()[28] == crate::state_machine::RPAREN,
        crate::export::spec_cry_display_line()[29] == scanner::LF,
{
    let disp = crate::export::spec_cry_display_line();
    assert forall|i: int| 5 <= i < 28 implies #[trigger] disp[i] != scanner::LF by {
        assert(disp.len() == 30);
    }
}

/// An exported basis vector line holds no carriage return.
proof fn lemma_vector_line_no_cr(prefix: Seq<u8>, v: crate::atom::Coord3)
    requires
        no_cr(prefix),
        v.wf(),
    ensures
        no_cr(crate::export::spec_vector_line(prefix, v)),
{
    lemma_format_fixed_no_cr(v.x, crate::export::COORD_PLACES as nat);
    lemma_format_fixed_no_cr(v.y, crate::export::COORD_PLACES as nat);
    lemma_format_fixed_no_cr(v.z, crate::export::COORD_PLACES as nat);
    assert(no_cr(crate::export::spec_space()));
    assert(no_cr(crate::export::spec_close2_line()));
    let s1 = prefix + spec_format_fixed(v.x, crate::export::COORD_PLACES as nat);
    lemma_concat_no_cr(prefix, spec_format_fixed(v.x, crate::export::COORD_PLACES as nat));
    let s2 = s1 + crate::export::spec_space();
    lemma_concat_no_cr(s1, crate::export::spec_space());
    let s3 = s2 + spec_format_fixed(v.y, crate::export::COORD_PLACES as nat);
    lemma_concat_no_cr(s2, spec_format_fixed(v.y, crate::export::COORD_PLACES as nat));
    let s4 = s3 + crate::export::spec_space();
    lemma_concat_no_cr(s3, crate::export::spec_space());
    let s5 = s4 + spec_format_fixed(v.z, crate::export::COORD_PLACES as nat);
    lemma_concat_no_cr(s4, spec_format_fixed(v.z, crate::export::COORD_PLACES as nat));
    lemma_concat_no_cr(s5, crate::export::spec_close2_line());
}

/// The canonical digit string of `n` holds digits and denotes `n`.
proof fn lemma_dec_digits_correct(n: nat)
    ensures
        dec_digits(n).len() >= 1,
        forall|i: int| 0 <= i < dec_digits(n).len() ==> #[trigger] dec_digits(n)[i] < 10,
        digits_val(dec_digits(n)) == n,
    decreases n,
{
    if n < 10 {
        assert(dec_digits(n) =~= seq![n as u8]);
        lemma_digits_val_single(dec_digits(n));
        assert(dec_digits(n).take(1) =~= dec_digits(n));
    } else {
        lemma_dec_digits_correct(n / 10);
        assert(dec_digits(n) == dec_digits(n / 10).push((n % 10) as u8));
        assert(dec_digits(n).drop_last() =~= dec_digits(n / 10));
        assert(digits_val(dec_digits(n)) == digits_val(dec_digits(n / 10)) * 10 + (
        n % 10) as nat);
        assert((n / 10) * 10 + n % 10 == n) by (nonlinear_arith);
    }
}

/// The `k`-digit string of `n < 10^k` holds digits and denotes `n`.
proof fn lemma_fixed_digits_correct(n: nat, k: nat)
    requires
        n < pow10(k),
    ensures
        fixed_digits(n, k).len() == k,
        forall|i: int| 0 <= i < k ==> #[trigger] fixed_digits(n, k)[i] < 10,
        digits_val(fixed_digits(n, k)) == n,
    decreases k,
{
    if k == 0 {
    } else {
        assert(pow10(k) == 10 * pow10((k - 1) as nat));
        assert(n / 10 < pow10((k - 1) as nat)) by (nonlinear_arith)
            requires
                n < 10 * pow10((k - 1) as nat),
        ;
        lemma_fixed_digits_correct(n / 10, (k - 1) as nat);
        assert(fixed_digits(n, k) == fixed_digits(n / 10, (k - 1) as nat).push((n % 10) as u8));
        assert(fixed_digits(n, k).drop_last() =~= fixed_digits(n / 10, (k - 1) as nat));
        assert(digits_val(fixed_digits(n, k)) == digits_val(fixed_digits(n / 10, (k - 1) as nat))
            * 10 + (n % 10) as nat);
        assert((n / 10) * 10 + n % 10 == n) by (nonlinear_arith);
    }
}

/// The fixed-point text of a decimal holds nothing but digits, one dot,
/// and a leading minus for a negative value: in particular no blank, no
/// paren and no line break, so a serialized number can never disturb the
/// field structure around it.
pub proof fn lemma_format_fixed_chars(d: Decimal, places: nat)
    requires
        d.wf(),
        1 <= places <= 100,
    ensures
        forall|i: int|
            0 <= i < spec_format_fixed(d, places).len() ==> (scanner::is_digit(
                #[trigger] spec_format_fixed(d, places)[i],
            ) || spec_format_fixed(d, places)[i] == scanner::DOT || spec_format_fixed(d, places)[i]
                == scanner::MINUS),
{
    let out = spec_format_fixed(d, places);
    let r = fixed_mantissa(d, places);
    let p = pow10(places);
    lemma_pow10_pos(places);
    vstd::arithmetic::div_mod::lemma_mod_bound(r as int, p as int);
    lemma_dec_digits_correct(r / p);
    lemma_fixed_digits_correct(r % p, places);
    let a = ascii_digits(dec_digits(r / p));
    let b = ascii_digits(fixed_digits(r % p, places));
    let i0: int = if d.neg {
        1
    } else {
        0
    };
    assert forall|i: int| 0 <= i < out.len() implies (scanner::is_digit(#[trigger] out[i])
        || out[i] == scanner::DOT || out[i] == scanner::MINUS) by {
        if d.neg && i == 0 {
            assert(out[i] == scanner::MINUS);
        } else if i < i0 + a.len() {
            assert(out[i] == a[i - i0]);
            assert(a[i - i0] == dec_digits(r / p)[i - i0] + scanner::DIGIT_ZERO);
        } else if i == i0 + a.len() {
            assert(out[i] == scanner::DOT);
        } else {
            assert(out[i] == b[i - (i0 + a.len() + 1)]);
            assert(b[i - (i0 + a.len() + 1)] == fixed_digits(r % p, places)[i - (i0 + a.len()
                + 1)] + scanner::DIGIT_ZERO);
        }
    }
}

/// Serialization round trip for one number: the fixed-point text of a
/// decimal re-parses to a plain literal whose sign is the decimal's, whose
/// scale is exactly `10^-places`, and whose mantissa is the magnitude
/// rounded to that scale, ties away from zero.  A re-parsed coordinate is
/// therefore the source value up to the formatting precision, exactly.
pub proof fn lemma_format_parse_round_trip(d: Decimal, places: nat)
    requires
        d.wf(),
        1 <= places <= 100,
    ensures
        ({
            let out = spec_format_fixed(d, places);
            &&& dec_of_literal(out) matches Some((neg2, digs2, e2)) && neg2 == d.neg && e2 == -(
            places as int) && digits_val(digs2) == fixed_mantissa(d, places)
        }),
{
    let out = spec_format_fixed(d, places);
    let r = fixed_mantissa(d, places);
    let p = pow10(places);
    lemma_pow10_pos(places);
    let q = r / p;
    let rem = r % p;
    vstd::arithmetic::div_mod::lemma_fundamental_div_mod(r as int, p as int);
    vstd::arithmetic::div_mod::lemma_mod_bound(r as int, p as int);
    lemma_dec_digits_correct(q);
    lemma_fixed_digits_correct(rem, places);
    let a = ascii_digits(dec_digits(q));
    let b = ascii_digits(fixed_digits(rem, places));
    let i0: int = if d.neg {
        1
    } else {
        0
    };
    // Shape of the output: optional minus, digits, dot, digits.
    assert forall|i: int| 0 <= i < a.len() implies scanner::is_digit(#[trigger] a[i])
        && !scanner::is_sign(a[i]) by {
        assert(a[i] == dec_digits(q)[i] + scanner::DIGIT_ZERO);
    }
    assert forall|i: int| 0 <= i < b.len() implies scanner::is_digit(#[trigger] b[i]) by {
        assert(b[i] == fixed_digits(rem, places)[i] + scanner::DIGIT_ZERO);
    }
    assert(out.len() == i0 + a.len() + 1 + b.len());
    assert forall|i: int| i0 <= i < i0 + a.len() implies scanner::is_digit(#[trigger] out[i]) by {
        assert(out[i] == a[i - i0]);
    }
    let d1 = i0 + a.len();
    assert(out[d1] == scanner::DOT);
    assert(!scanner::is_digit(scanner::DOT));
    scanner::lemma_digit_run_end_exact(out, i0, d1);
    assert forall|i: int| d1 + 1 <= i < out.len() implies scanner::is_digit(
        #[trigger] out[i],
    ) by {
        assert(out[i] == b[i - (d1 + 1)]);
    }
    scanner::lemma_digit_run_end_exact(out, d1 + 1, out.len() as int);
    if d.neg {
        assert(out[0] == scanner::MINUS);
    } else {
        assert(out[0] == a[0]);
    }
    // The literal parses without an exponent part.
    let mantissa = out.subrange(i0, d1).add(out.subrange(d1 + 1, out.len() as int)).map_values(
        |c: u8| (c - scanner::DIGIT_ZERO) as u8,
    );
    assert(out.subrange(i0, d1) =~= a);
    assert(out.subrange(d1 + 1, out.len() as int) =~= b);
    assert(mantissa =~= dec_digits(q) + fixed_digits(rem, places));
    assert(dec_of_literal(out) == Some((d.neg, mantissa, -(places as int))));
    // The mantissa denotes the rounded magnitude.
    lemma_digits_val_split(mantissa, dec_digits(q).len() as int);
    assert(mantissa.take(dec_digits(q).len() as int) =~= dec_digits(q));
    assert(mantissa.skip(dec_digits(q).len() as int) =~= fixed_digits(rem, places));
    assert(digits_val(mantissa) == q * p + rem);
}

/// A value already at the formatting precision survives the round trip
/// exactly: with no digit below the last printed place, the re-parsed
/// literal denotes the very same rational value.
pub proof fn lemma_format_value_exact(d: Decimal, places: nat)
    requires
        d.wf(),
        1 <= places <= 100,
        d.exp + places >= 0,
    ensures
        d.num() * pow10(places) == d.sign() * fixed_mantissa(d, places) * d.den(),
{
    let v = digits_val(d.digits@);
    let r = fixed_mantissa(d, places);
    assert(r == v * pow10((d.exp + places) as nat));
    if d.exp >= 0 {
        lemma_pow10_add(d.exp as nat, places);
        assert(d.num() == d.sign() * v * pow10(d.exp as nat));
        assert(d.den() == 1);
        assert((d.sign() * v * pow10(d.exp as nat)) * pow10(places) == d.sign() * (v * (pow10(
            d.exp as nat,
        ) * pow10(places)))) by (nonlinear_arith);
        assert(d.sign() * (v * pow10((d.exp + places) as nat)) * 1 == d.sign() * (v * pow10(
            (d.exp + places) as nat,
        ))) by (nonlinear_arith);
    } else {
        lemma_pow10_add((d.exp + places) as nat, (-d.exp) as nat);
        assert(pow10(places) == pow10((d.exp + places) as nat) * pow10((-d.exp) as nat));
        assert(d.num() == d.sign() * v);
        assert(d.den() == pow10((-d.exp) as nat) as int);
        assert((d.sign() * v) * (pow10((d.exp + places) as nat) * pow10((-d.exp) as nat))
            == d.sign() * (v * pow10((d.exp + places) as nat)) * pow10(
            (-d.exp) as nat,
        )) by (nonlinear_arith);
    }
}

} // verus!
