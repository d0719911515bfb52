//! Dialect markers and the shared model settings.
//!
//! One `Settings` struct serves both text dialects; the marker type selects
//! which serialization and which defaults apply, and fields irrelevant to a
//! dialect keep their default values.
use vstd::prelude::*;
use core::marker::PhantomData;
use crate::numeric::Decimal;
use crate::numeric::digits_val;

verus! {

/// Marker of a model dialect.
pub trait ModelInfo {

}

/// Marker of the MSI text dialect.
#[derive(Debug, Clone, Copy, PartialEq, Eq, Structural)]
pub struct MsiModel;

impl ModelInfo for MsiModel {

}

/// Marker of the CELL text dialect.
#[derive(Debug, Clone, Copy, PartialEq, Eq, Structural)]
pub struct CellModel;

impl ModelInfo for CellModel {

}

/// The bytes of `%BLOCK ` opening a CELL section.
pub open spec fn spec_block_open() -> Seq<u8> {
    seq![37u8, 66u8, 76u8, 79u8, 67u8, 75u8, 32u8]
}

/// The bytes of `%ENDBLOCK ` closing a CELL section.
pub open spec fn spec_block_close() -> Seq<u8> {
    seq![37u8, 69u8, 78u8, 68u8, 66u8, 76u8, 79u8, 67u8, 75u8, 32u8]
}

/// A CELL section: the block name between `%BLOCK` and `%ENDBLOCK` lines
/// around the content, with a trailing blank line.
pub open spec fn spec_write_block(block_name: Seq<u8>, content: Seq<u8>) -> Seq<u8> {
    spec_block_open() + block_name + seq![10u8] + content + spec_block_close() + block_name + seq![
        10u8,
        10u8,
    ]
}

impl CellModel {
    /// Frames a section of the CELL dialect: the content between a
    /// `%BLOCK <name>` line and an `%ENDBLOCK <name>` line, followed by a
    /// blank line.
    pub fn write_block(block_name: &Vec<u8>, content: &Vec<u8>) -> (r: Vec<u8>)
        ensures
            r@ == spec_write_block(block_name@, content@),
    {
        let mut out: Vec<u8> = Vec::new();
        let mut open: Vec<u8> = vec![37, 66, 76, 79, 67, 75, 32];
        out.append(&mut open);
        let mut name1 = crate::numeric::clone_bytes(block_name);
        out.append(&mut name1);
        out.push(10);
        let mut body = crate::numeric::clone_bytes(content);
        out.append(&mut body);
        let mut close: Vec<u8> = vec![37, 69, 78, 68, 66, 76, 79, 67, 75, 32];
        out.append(&mut close);
        let mut name2 = crate::numeric::clone_bytes(block_name);
        out.append(&mut name2);
        out.push(10);
        out.push(10);
        proof {
            assert(out@ =~= spec_write_block(block_name@, content@));
        }
        out
    }
}

/// The two display sizes the MSI dialect keeps.
#[derive(Debug, Clone, Copy, PartialEq, Eq, Structural)]
pub struct CryDisplay {
    /// First display size.
    pub first: u32,
    /// Second display size.
    pub second: u32,
}

/// A sampling point of the reciprocal cell: three fractional coordinates
/// and a weight.
#[derive(Debug, Clone)]
pub struct KPoint {
    /// First fractional coordinate.
    pub x: Decimal,
    /// Second fractional coordinate.
    pub y: Decimal,
    /// Third fractional coordinate.
    pub z: Decimal,
    /// Relative weight of the point.
    pub weight: Decimal,
}

/// Settings shared by the two dialects.
#[derive(Debug)]
pub struct Settings<T: ModelInfo> {
    /// List of k-points, each with a weight factor.
    pub kpoints_list: Vec<KPoint>,
    /// Grid of k-points used in this model.
    pub kpoints_grid: [u8; 3],
    /// Spacing of k-points, when one is set.
    pub kpoints_mp_spacing: Option<Decimal>,
    /// Offset of the k-points from the origin; three entries.
    pub kpoints_mp_offset: Vec<Decimal>,
    /// Whether the whole cell is held fixed.
    pub fix_all_cell: bool,
    /// Whether the centre of mass is held fixed.
    pub fix_com: bool,
    /// External electric field components; three entries.
    pub external_efield: Vec<Decimal>,
    /// External pressure tensor entries, upper triangle row by row; six.
    pub external_pressure: Vec<Decimal>,
    /// Display sizes kept by the MSI dialect.
    pub cry_display: CryDisplay,
    /// Periodicity flag of the MSI dialect.
    pub periodic_type: u8,
    /// Space group label of the MSI dialect, kept as written.
    pub space_group: Vec<u8>,
    /// Symmetry tolerance of the MSI dialect.
    pub cry_tolerance: Decimal,
    /// Dialect marker.
    pub format_marker: PhantomData<T>,
}

/// A decimal with value zero.
pub fn decimal_zero() -> (r: Decimal)
    ensures
        r.wf(),
        r.num() == 0,
        !r.neg,
        r.digits@ == seq![0u8],
        r.exp == 0,
{
    let r = Decimal { neg: false, digits: vec![0], exp: 0 };
    proof {
        assert(r.digits@ =~= seq![0u8]);
        assert(seq![0u8].len() == 1);
        assert(seq![0u8].last() == 0u8);
        assert(seq![0u8].drop_last() =~= Seq::<u8>::empty());
        assert(digits_val(Seq::<u8>::empty()) == 0);
        assert(digits_val(seq![0u8]) == digits_val(seq![0u8].drop_last()) * 10 + seq![0u8].last());
    }
    r
}

/// A decimal with value one.
pub fn decimal_one() -> (r: Decimal)
    ensures
        r.wf(),
        r.digits@ == seq![1u8],
        r.exp == 0,
        !r.neg,
{
    Decimal { neg: false, digits: vec![1], exp: 0 }
}

impl<T: ModelInfo> Settings<T> {
    /// The values a model starts from: one unit-weight k-point at the
    /// origin, a unit grid, the cell fixed, no external field or pressure,
    /// and the MSI defaults for display, periodicity, space group and
    /// tolerance.
    pub fn settings_default() -> (r: Self)
        ensures
            r.wf(),
            r.periodic_type == 100,
            r.space_group@ == spec_default_space_group(),
            r.cry_tolerance.digits@ == seq![5u8] && r.cry_tolerance.exp == -2
                && !r.cry_tolerance.neg,
            r.kpoints_list@.len() == 1,
            r.fix_all_cell == true,
            r.fix_com == false,
            r.cry_display == (CryDisplay { first: 192, second: 256 }),
    {
        let kp = KPoint {
            x: decimal_zero(),
            y: decimal_zero(),
            z: decimal_zero(),
            weight: decimal_one(),
        };
        // "1 1"
        let space_group: Vec<u8> = vec![49, 32, 49];
        proof {
            assert(space_group@ =~= spec_default_space_group());
        }
        Settings {
            kpoints_list: vec![kp],
            kpoints_grid: [1, 1, 1],
            kpoints_mp_spacing: None,
            kpoints_mp_offset: vec![decimal_zero(), decimal_zero(), decimal_zero()],
            fix_all_cell: true,
            fix_com: false,
            external_efield: vec![decimal_zero(), decimal_zero(), decimal_zero()],
            external_pressure: vec![
                decimal_zero(),
                decimal_zero(),
                decimal_zero(),
                decimal_zero(),
                decimal_zero(),
                decimal_zero(),
            ],
            cry_display: CryDisplay { first: 192, second: 256 },
            periodic_type: 100,
            space_group,
            cry_tolerance: Decimal { neg: false, digits: vec![5], exp: -2 },
            format_marker: PhantomData,
        }
    }

    /// Every decimal held by the settings is well-formed.
    pub open spec fn wf(self) -> bool {
        &&& forall|i: int|
            0 <= i < self.kpoints_list@.len() ==> {
                &&& (#[trigger] self.kpoints_list@[i]).x.wf()
                &&& self.kpoints_list@[i].y.wf()
                &&& self.kpoints_list@[i].z.wf()
                &&& self.kpoints_list@[i].weight.wf()
            }
        &&& (self.kpoints_mp_spacing matches Some(d) ==> d.wf())
        &&& self.kpoints_mp_offset@.len() == 3
        &&& forall|i: int|
            0 <= i < self.kpoints_mp_offset@.len() ==> (#[trigger] self.kpoints_mp_offset@[i]).wf()
        &&& self.external_efield@.len() == 3
        &&& forall|i: int|
            0 <= i < self.external_efield@.len() ==> (#[trigger] self.external_efield@[i]).wf()
        &&& self.external_pressure@.len() == 6
        &&& forall|i: int|
            0 <= i < self.external_pressure@.len() ==> (#[trigger] self.external_pressure@[i]).wf()
        &&& self.cry_tolerance.wf()
    }

    /// The periodicity flag.
    pub fn periodic_type(&self) -> (r: u8)
        ensures
            r == self.periodic_type,
    {
        self.periodic_type
    }

    /// The space group label, as written in the source text.
    pub fn space_group(&self) -> (r: &Vec<u8>)
        ensures
            r@ == self.space_group@,
    {
        &self.space_group
    }

    /// The symmetry tolerance.
    pub fn cry_tolerance(&self) -> (r: &Decimal)
        ensures
            r == self.cry_tolerance,
    {
        &self.cry_tolerance
    }

    /// The k-point list.
    pub fn kpoints_list(&self) -> (r: &Vec<KPoint>)
        ensures
            r@ == self.kpoints_list@,
    {
        &self.kpoints_list
    }

    /// Whether the whole cell is held fixed.
    pub fn fix_all_cell(&self) -> (r: bool)
        ensures
            r == self.fix_all_cell,
    {
        self.fix_all_cell
    }

    /// Whether the centre of mass is held fixed.
    pub fn fix_com(&self) -> (r: bool)
        ensures
            r == self.fix_com,
    {
        self.fix_com
    }
}

/// The default space group label `1 1`.
pub open spec fn spec_default_space_group() -> Seq<u8> {
    seq![49u8, 32u8, 49u8]
}

impl Settings<MsiModel> {
    /// Settings read from an MSI document: the parsed periodicity, space
    /// group and tolerance over the defaults.
    pub fn new_msi_settings(periodic_type: u8, space_group: Vec<u8>, cry_tolerance: Decimal) -> (r:
        Self)
        requires
            cry_tolerance.wf(),
        ensures
            r.wf(),
            r.periodic_type == periodic_type,
            r.space_group@ == space_group@,
            r.cry_tolerance == cry_tolerance,
            r.fix_all_cell == true,
            r.fix_com == false,
            r.kpoints_list@.len() == 1,
            r.cry_display == (CryDisplay { first: 192, second: 256 }),
    {
        let mut s = Self::settings_default();
        s.periodic_type = periodic_type;
        s.space_group = space_group;
        s.cry_tolerance = cry_tolerance;
        s
    }
}

} // verus!
