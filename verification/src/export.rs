//! Serialization of a model back into MSI text.
//!
//! The output is fixed: the header, the scope opener, the display,
//! periodicity, space-group and tolerance attribute lines, the three basis
//! vector lines when a lattice is present, one block per atom with
//! twelve-decimal coordinates and one-based sequential item numbering, and
//! the scope terminator.  Every number is rendered exactly from the model's
//! decimals, so the text reflects the model to the last digit.
use vstd::prelude::*;
use crate::atom::AtomCollection;
use crate::format::format_fixed;
use crate::format::spec_format_fixed;
use crate::lattice::LatticeModel;
use crate::model_type::MsiModel;
use crate::numeric::Decimal;
use crate::numeric::ascii_digits;
use crate::numeric::dec_digits;

verus! {

/// Digits printed after the decimal point of every exported coordinate.
pub const COORD_PLACES: usize = 12;

/// The header line.
pub open spec fn spec_header() -> Seq<u8> {
    seq![35u8, 32u8, 77u8, 83u8, 73u8, 32u8, 67u8, 69u8, 82u8, 73u8, 85u8, 83u8, 50u8, 32u8, 68u8, 97u8, 116u8, 97u8, 77u8, 111u8, 100u8, 101u8, 108u8, 32u8, 70u8, 105u8, 108u8, 101u8, 32u8, 86u8, 101u8, 114u8, 115u8, 105u8, 111u8, 110u8, 32u8, 52u8, 32u8, 48u8, 10u8]
}

/// The header line.
fn header_bytes() -> (r: Vec<u8>)
    ensures
        r@ == spec_header(),
{
    let v: Vec<u8> = vec![35, 32, 77, 83, 73, 32, 67, 69, 82, 73, 85, 83, 50, 32, 68, 97, 116, 97, 77, 111, 100, 101, 108, 32, 70, 105, 108, 101, 32, 86, 101, 114, 115, 105, 111, 110, 32, 52, 32, 48, 10];
    proof {
        assert(v@ =~= spec_header());
    }
    v
}

/// The scope opener line.
pub open spec fn spec_model_open_line() -> Seq<u8> {
    seq![40u8, 49u8, 32u8, 77u8, 111u8, 100u8, 101u8, 108u8, 10u8]
}

/// The scope opener line.
fn model_open_line_bytes() -> (r: Vec<u8>)
    ensures
        r@ == spec_model_open_line(),
{
    let v: Vec<u8> = vec![40, 49, 32, 77, 111, 100, 101, 108, 10];
    proof {
        assert(v@ =~= spec_model_open_line());
    }
    v
}

/// The fixed display attribute line.
pub open spec fn spec_cry_display_line() -> Seq<u8> {
    seq![32u8, 32u8, 40u8, 65u8, 32u8, 73u8, 32u8, 67u8, 82u8, 89u8, 47u8, 68u8, 73u8, 83u8, 80u8, 76u8, 65u8, 89u8, 32u8, 40u8, 49u8, 57u8, 50u8, 32u8, 50u8, 53u8, 54u8, 41u8, 41u8, 10u8]
}

/// The fixed display attribute line.
fn cry_display_line_bytes() -> (r: Vec<u8>)
    ensures
        r@ == spec_cry_display_line(),
{
    let v: Vec<u8> = vec![32, 32, 40, 65, 32, 73, 32, 67, 82, 89, 47, 68, 73, 83, 80, 76, 65, 89, 32, 40, 49, 57, 50, 32, 50, 53, 54, 41, 41, 10];
    proof {
        assert(v@ =~= spec_cry_display_line());
    }
    v
}

/// Start of the periodicity line.
pub open spec fn spec_periodic_prefix() -> Seq<u8> {
    seq![32u8, 32u8, 40u8, 65u8, 32u8, 73u8, 32u8, 80u8, 101u8, 114u8, 105u8, 111u8, 100u8, 105u8, 99u8, 84u8, 121u8, 112u8, 101u8, 32u8]
}

/// Start of the periodicity line.
fn periodic_prefix_bytes() -> (r: Vec<u8>)
    ensures
        r@ == spec_periodic_prefix(),
{
    let v: Vec<u8> = vec![32, 32, 40, 65, 32, 73, 32, 80, 101, 114, 105, 111, 100, 105, 99, 84, 121, 112, 101, 32];
    proof {
        assert(v@ =~= spec_periodic_prefix());
    }
    v
}

/// Start of the space group line.
pub open spec fn spec_space_group_prefix() -> Seq<u8> {
    seq![32u8, 32u8, 40u8, 65u8, 32u8, 67u8, 32u8, 83u8, 112u8, 97u8, 99u8, 101u8, 71u8, 114u8, 111u8, 117u8, 112u8, 32u8, 34u8]
}

/// Start of the space group line.
fn space_group_prefix_bytes() -> (r: Vec<u8>)
    ensures
        r@ == spec_space_group_prefix(),
{
    let v: Vec<u8> = vec![32, 32, 40, 65, 32, 67, 32, 83, 112, 97, 99, 101, 71, 114, 111, 117, 112, 32, 34];
    proof {
        assert(v@ =~= spec_space_group_prefix());
    }
    v
}

/// A closing quote, paren and line feed.
pub open spec fn spec_quote_close_line() -> Seq<u8> {
    seq![34u8, 41u8, 10u8]
}

/// A closing quote, paren and line feed.
fn quote_close_line_bytes() -> (r: Vec<u8>)
    ensures
        r@ == spec_quote_close_line(),
{
    let v: Vec<u8> = vec![34, 41, 10];
    proof {
        assert(v@ =~= spec_quote_close_line());
    }
    v
}

/// Start of the first basis vector line.
pub open spec fn spec_a3_prefix() -> Seq<u8> {
    seq![32u8, 32u8, 40u8, 65u8, 32u8, 68u8, 32u8, 65u8, 51u8, 32u8, 40u8]
}

/// Start of the first basis vector line.
fn a3_prefix_bytes() -> (r: Vec<u8>)
    ensures
        r@ == spec_a3_prefix(),
{
    let v: Vec<u8> = vec![32, 32, 40, 65, 32, 68, 32, 65, 51, 32, 40];
    proof {
        assert(v@ =~= spec_a3_prefix());
    }
    v
}

/// Start of the second basis vector line.
pub open spec fn spec_b3_prefix() -> Seq<u8> {
    seq![32u8, 32u8, 40u8, 65u8, 32u8, 68u8, 32u8, 66u8, 51u8, 32u8, 40u8]
}

/// Start of the second basis vector line.
fn b3_prefix_bytes() -> (r: Vec<u8>)
    ensures
        r@ == spec_b3_prefix(),
{
    let v: Vec<u8> = vec![32, 32, 40, 65, 32, 68, 32, 66, 51, 32, 40];
    proof {
        assert(v@ =~= spec_b3_prefix());
    }
    v
}

/// Start of the third basis vector line.
pub open spec fn spec_c3_prefix() -> Seq<u8> {
    seq![32u8, 32u8, 40u8, 65u8, 32u8, 68u8, 32u8, 67u8, 51u8, 32u8, 40u8]
}

/// Start of the third basis vector line.
fn c3_prefix_bytes() -> (r: Vec<u8>)
    ensures
        r@ == spec_c3_prefix(),
{
    let v: Vec<u8> = vec![32, 32, 40, 65, 32, 68, 32, 67, 51, 32, 40];
    proof {
        assert(v@ =~= spec_c3_prefix());
    }
    v
}

/// Start of the tolerance line.
pub open spec fn spec_tolerance_prefix() -> Seq<u8> {
    seq![32u8, 32u8, 40u8, 65u8, 32u8, 68u8, 32u8, 67u8, 82u8, 89u8, 47u8, 84u8, 79u8, 76u8, 69u8, 82u8, 65u8, 78u8, 67u8, 69u8, 32u8]
}

/// Start of the tolerance line.
fn tolerance_prefix_bytes() -> (r: Vec<u8>)
    ensures
        r@ == spec_tolerance_prefix(),
{
    let v: Vec<u8> = vec![32, 32, 40, 65, 32, 68, 32, 67, 82, 89, 47, 84, 79, 76, 69, 82, 65, 78, 67, 69, 32];
    proof {
        assert(v@ =~= spec_tolerance_prefix());
    }
    v
}

/// A closing paren and line feed.
pub open spec fn spec_close_line() -> Seq<u8> {
    seq![41u8, 10u8]
}

/// A closing paren and line feed.
fn close_line_bytes() -> (r: Vec<u8>)
    ensures
        r@ == spec_close_line(),
{
    let v: Vec<u8> = vec![41, 10];
    proof {
        assert(v@ =~= spec_close_line());
    }
    v
}

/// Two closing parens and a line feed.
pub open spec fn spec_close2_line() -> Seq<u8> {
    seq![41u8, 41u8, 10u8]
}

/// Two closing parens and a line feed.
fn close2_line_bytes() -> (r: Vec<u8>)
    ensures
        r@ == spec_close2_line(),
{
    let v: Vec<u8> = vec![41, 41, 10];
    proof {
        assert(v@ =~= spec_close2_line());
    }
    v
}

/// Start of an atom block.
pub open spec fn spec_atom_open() -> Seq<u8> {
    seq![32u8, 32u8, 40u8]
}

/// Start of an atom block.
fn atom_open_bytes() -> (r: Vec<u8>)
    ensures
        r@ == spec_atom_open(),
{
    let v: Vec<u8> = vec![32, 32, 40];
    proof {
        assert(v@ =~= spec_atom_open());
    }
    v
}

/// The atom type tag and its line feed.
pub open spec fn spec_atom_tag_line() -> Seq<u8> {
    seq![32u8, 65u8, 116u8, 111u8, 109u8, 10u8]
}

/// The atom type tag and its line feed.
fn atom_tag_line_bytes() -> (r: Vec<u8>)
    ensures
        r@ == spec_atom_tag_line(),
{
    let v: Vec<u8> = vec![32, 65, 116, 111, 109, 10];
    proof {
        assert(v@ =~= spec_atom_tag_line());
    }
    v
}

/// Start of the species line.
pub open spec fn spec_acl_prefix() -> Seq<u8> {
    seq![32u8, 32u8, 32u8, 32u8, 40u8, 65u8, 32u8, 67u8, 32u8, 65u8, 67u8, 76u8, 32u8, 34u8]
}

/// Start of the species line.
fn acl_prefix_bytes() -> (r: Vec<u8>)
    ensures
        r@ == spec_acl_prefix(),
{
    let v: Vec<u8> = vec![32, 32, 32, 32, 40, 65, 32, 67, 32, 65, 67, 76, 32, 34];
    proof {
        assert(v@ =~= spec_acl_prefix());
    }
    v
}

/// Start of the label line.
pub open spec fn spec_label_prefix() -> Seq<u8> {
    seq![32u8, 32u8, 32u8, 32u8, 40u8, 65u8, 32u8, 67u8, 32u8, 76u8, 97u8, 98u8, 101u8, 108u8, 32u8, 34u8]
}

/// Start of the label line.
fn label_prefix_bytes() -> (r: Vec<u8>)
    ensures
        r@ == spec_label_prefix(),
{
    let v: Vec<u8> = vec![32, 32, 32, 32, 40, 65, 32, 67, 32, 76, 97, 98, 101, 108, 32, 34];
    proof {
        assert(v@ =~= spec_label_prefix());
    }
    v
}

/// Start of the coordinate line.
pub open spec fn spec_xyz_prefix() -> Seq<u8> {
    seq![32u8, 32u8, 32u8, 32u8, 40u8, 65u8, 32u8, 68u8, 32u8, 88u8, 89u8, 90u8, 32u8, 40u8]
}

/// Start of the coordinate line.
fn xyz_prefix_bytes() -> (r: Vec<u8>)
    ensures
        r@ == spec_xyz_prefix(),
{
    let v: Vec<u8> = vec![32, 32, 32, 32, 40, 65, 32, 68, 32, 88, 89, 90, 32, 40];
    proof {
        assert(v@ =~= spec_xyz_prefix());
    }
    v
}

/// Start of the identifier line.
pub open spec fn spec_id_prefix() -> Seq<u8> {
    seq![32u8, 32u8, 32u8, 32u8, 40u8, 65u8, 32u8, 73u8, 32u8, 73u8, 100u8, 32u8]
}

/// Start of the identifier line.
fn id_prefix_bytes() -> (r: Vec<u8>)
    ensures
        r@ == spec_id_prefix(),
{
    let v: Vec<u8> = vec![32, 32, 32, 32, 40, 65, 32, 73, 32, 73, 100, 32];
    proof {
        assert(v@ =~= spec_id_prefix());
    }
    v
}

/// End of an atom block.
pub open spec fn spec_atom_close() -> Seq<u8> {
    seq![32u8, 32u8, 41u8, 10u8]
}

/// End of an atom block.
fn atom_close_bytes() -> (r: Vec<u8>)
    ensures
        r@ == spec_atom_close(),
{
    let v: Vec<u8> = vec![32, 32, 41, 10];
    proof {
        assert(v@ =~= spec_atom_close());
    }
    v
}

/// A single blank.
pub open spec fn spec_space() -> Seq<u8> {
    seq![32u8]
}

/// A single blank.
fn space_bytes() -> (r: Vec<u8>)
    ensures
        r@ == spec_space(),
{
    let v: Vec<u8> = vec![32];
    proof {
        assert(v@ =~= spec_space());
    }
    v
}

/// Appends a byte string.
fn push_bytes(out: &mut Vec<u8>, pat: Vec<u8>)
    ensures
        final(out)@ == old(out)@ + pat@,
{
    let mut pat = pat;
    out.append(&mut pat);
}

/// Appends the canonical decimal digits of `n`.
fn push_nat(out: &mut Vec<u8>, n: u64)
    ensures
        final(out)@ == old(out)@ + ascii_digits(dec_digits(n as nat)),
    decreases n,
{
    if n < 10 {
        out.push((n as u8) + 48);
        proof {
            assert(dec_digits(n as nat) =~= seq![n as u8]);
            assert(ascii_digits(seq![n as u8]) =~= seq![((n as u8) + 48) as u8]);
            assert(final(out)@ =~= old(out)@ + ascii_digits(dec_digits(n as nat)));
        }
    } else {
        push_nat(out, n / 10);
        out.push(((n % 10) as u8) + 48);
        proof {
            assert(dec_digits(n as nat) == dec_digits((n / 10) as nat).push((n % 10) as u8));
            assert(ascii_digits(dec_digits(n as nat)) =~= ascii_digits(
                dec_digits((n / 10) as nat),
            ).push((((n % 10) as u8) + 48) as u8));
            assert(final(out)@ =~= old(out)@ + ascii_digits(dec_digits(n as nat)));
        }
    }
}

/// Appends a coordinate in the fixed twelve-decimal form.
fn push_coord(out: &mut Vec<u8>, d: &Decimal)
    requires
        d.wf(),
    ensures
        final(out)@ == old(out)@ + spec_format_fixed(*d, COORD_PLACES as nat),
{
    let v = format_fixed(d, COORD_PLACES);
    push_bytes(out, v);
}

/// One exported atom block: the one-based item number, the species pair,
/// the label, the twelve-decimal coordinates, and the id.
pub open spec fn spec_atom_block(t: AtomCollection<MsiModel>, i: int) -> Seq<u8> {
    spec_atom_open() + ascii_digits(dec_digits((t.atom_ids@[i] + 1) as nat)) + spec_atom_tag_line()
        + spec_acl_prefix() + ascii_digits(dec_digits(t.atomic_nums@[i] as nat)) + spec_space()
        + t.element_symbols@[i]@ + spec_quote_close_line() + spec_label_prefix()
        + t.element_symbols@[i]@ + spec_quote_close_line() + spec_xyz_prefix() + spec_format_fixed(
        t.xyz_coords@[i].x,
        COORD_PLACES as nat,
    ) + spec_space() + spec_format_fixed(t.xyz_coords@[i].y, COORD_PLACES as nat) + spec_space()
        + spec_format_fixed(t.xyz_coords@[i].z, COORD_PLACES as nat) + spec_close2_line()
        + spec_id_prefix() + ascii_digits(dec_digits(t.atom_ids@[i] as nat)) + spec_close_line()
        + spec_atom_close()
}

/// The first `n` exported atom blocks, in row order.
pub open spec fn spec_atom_blocks(t: AtomCollection<MsiModel>, n: int) -> Seq<u8>
    decreases n,
{
    if n <= 0 {
        Seq::<u8>::empty()
    } else {
        spec_atom_blocks(t, n - 1) + spec_atom_block(t, n - 1)
    }
}

/// One exported basis vector line.
pub open spec fn spec_vector_line(prefix: Seq<u8>, v: crate::atom::Coord3) -> Seq<u8> {
    prefix + spec_format_fixed(v.x, COORD_PLACES as nat) + spec_space() + spec_format_fixed(
        v.y,
        COORD_PLACES as nat,
    ) + spec_space() + spec_format_fixed(v.z, COORD_PLACES as nat) + spec_close2_line()
}

/// The whole exported document.
pub open spec fn spec_msi_export(m: LatticeModel<MsiModel>) -> Seq<u8> {
    let atoms = spec_atom_blocks(m.atoms, m.atoms.size as int);
    match m.lattice_vectors {
        Some(lv) => spec_header() + spec_model_open_line() + spec_cry_display_line()
            + spec_periodic_prefix() + ascii_digits(
            dec_digits(m.settings.periodic_type as nat),
        ) + spec_close_line() + spec_space_group_prefix() + m.settings.space_group@
            + spec_quote_close_line() + spec_vector_line(spec_a3_prefix(), lv.a)
            + spec_vector_line(spec_b3_prefix(), lv.b) + spec_vector_line(spec_c3_prefix(), lv.c)
            + spec_tolerance_prefix() + spec_format_fixed(
            m.settings.cry_tolerance,
            COORD_PLACES as nat,
        ) + spec_close_line() + atoms + seq![41u8],
        None => spec_header() + spec_model_open_line() + atoms + seq![41u8],
    }
}

impl LatticeModel<MsiModel> {
    /// Serializes the model as MSI text, exactly as `spec_msi_export`
    /// lays it out.  Every coordinate and the tolerance are printed with
    /// twelve decimal places; the atom item numbers are the ids shifted up
    /// by one.
    #[verifier::rlimit(100)]
    pub fn msi_export(&self) -> (r: Vec<u8>)
        requires
            self.wf(),
            forall|i: int|
                0 <= i < self.atoms.atom_ids@.len() ==> (#[trigger] self.atoms.atom_ids@[i])
                    < u32::MAX,
        ensures
            r@ == spec_msi_export(*self),
    {
        let mut out: Vec<u8> = Vec::new();
        push_bytes(&mut out, header_bytes());
        push_bytes(&mut out, model_open_line_bytes());
        match &self.lattice_vectors {
            Some(lv) => {
                push_bytes(&mut out, cry_display_line_bytes());
                push_bytes(&mut out, periodic_prefix_bytes());
                push_nat(&mut out, self.settings.periodic_type as u64);
                push_bytes(&mut out, close_line_bytes());
                push_bytes(&mut out, space_group_prefix_bytes());
                push_bytes(&mut out, crate::numeric::clone_bytes(&self.settings.space_group));
                push_bytes(&mut out, quote_close_line_bytes());
                push_bytes(&mut out, a3_prefix_bytes());
                push_coord(&mut out, &lv.a.x);
                push_bytes(&mut out, space_bytes());
                push_coord(&mut out, &lv.a.y);
                push_bytes(&mut out, space_bytes());
                push_coord(&mut out, &lv.a.z);
                push_bytes(&mut out, close2_line_bytes());
                push_bytes(&mut out, b3_prefix_bytes());
                push_coord(&mut out, &lv.b.x);
                push_bytes(&mut out, space_bytes());
                push_coord(&mut out, &lv.b.y);
                push_bytes(&mut out, space_bytes());
                push_coord(&mut out, &lv.b.z);
                push_bytes(&mut out, close2_line_bytes());
                push_bytes(&mut out, c3_prefix_bytes());
                push_coord(&mut out, &lv.c.x);
                push_bytes(&mut out, space_bytes());
                push_coord(&mut out, &lv.c.y);
                push_bytes(&mut out, space_bytes());
                push_coord(&mut out, &lv.c.z);
                push_bytes(&mut out, close2_line_bytes());
                push_bytes(&mut out, tolerance_prefix_bytes());
                push_coord(&mut out, &self.settings.cry_tolerance);
                push_bytes(&mut out, close_line_bytes());
            },
            None => {
            },
        }
        let n = self.atoms.size;
        let mut i: usize = 0;
        let ghost prefix = out@;
        while i < n
            invariant
                i <= n,
                n == self.atoms.size,
                self.wf(),
                forall|k: int|
                    0 <= k < self.atoms.atom_ids@.len() ==> (#[trigger] self.atoms.atom_ids@[k])
                        < u32::MAX,
                out@ == prefix + spec_atom_blocks(self.atoms, i as int),
            decreases n - i,
        {
            proof {
                assert(spec_atom_blocks(self.atoms, i + 1) == spec_atom_blocks(
                    self.atoms,
                    i as int,
                ) + spec_atom_block(self.atoms, i as int));
            }
            push_bytes(&mut out, atom_open_bytes());
            push_nat(&mut out, (self.atoms.atom_ids[i] as u64) + 1);
            push_bytes(&mut out, atom_tag_line_bytes());
            push_bytes(&mut out, acl_prefix_bytes());
            push_nat(&mut out, self.atoms.atomic_nums[i] as u64);
            push_bytes(&mut out, space_bytes());
            push_bytes(&mut out, crate::numeric::clone_bytes(&self.atoms.element_symbols[i]));
            push_bytes(&mut out, quote_close_line_bytes());
            push_bytes(&mut out, label_prefix_bytes());
            push_bytes(&mut out, crate::numeric::clone_bytes(&self.atoms.element_symbols[i]));
            push_bytes(&mut out, quote_close_line_bytes());
            push_bytes(&mut out, xyz_prefix_bytes());
            push_coord(&mut out, &self.atoms.xyz_coords[i].x);
            push_bytes(&mut out, space_bytes());
            push_coord(&mut out, &self.atoms.xyz_coords[i].y);
            push_bytes(&mut out, space_bytes());
            push_coord(&mut out, &self.atoms.xyz_coords[i].z);
            push_bytes(&mut out, close2_line_bytes());
            push_bytes(&mut out, id_prefix_bytes());
            push_nat(&mut out, self.atoms.atom_ids[i] as u64);
            push_bytes(&mut out, close_line_bytes());
            push_bytes(&mut out, atom_close_bytes());
            proof {
                assert(out@ =~= prefix + spec_atom_blocks(self.atoms, i + 1));
            }
            i = i + 1;
        }
        out.push(41);
        proof {
            assert(out@ =~= spec_msi_export(*self));
        }
        out
    }
}

} // verus!
