//! Staged construction of an atom table.
//!
//! The declared atom count is fixed first; each column is supplied
//! independently and checked against that count the moment it arrives — a
//! mismatched length fails at once with both lengths.  Finishing fails while
//! any column is missing, naming it; only a finished builder can build, so a
//! built table can never have ragged columns.
use vstd::prelude::*;
use core::marker::PhantomData;
use crate::atom::AtomCollection;
use crate::atom::Coord3;
use crate::builder_typestate::No;
use crate::model_type::ModelInfo;
use crate::numeric::clone_bytes;

verus! {

/// Marker of a builder whose every column has arrived.
pub struct Ready {}

/// Marker of a builder stage.
pub trait BuildState {

}

impl BuildState for Ready {

}

impl BuildState for No {

}

/// Why a staged construction failed.
#[derive(Debug)]
pub enum AtomCollectionBuildingError {
    /// A supplied column's length differs from the declared atom count.
    InconsistentSize {
        /// The length of the column as supplied.
        curr: usize,
        /// The declared atom count.
        expected: usize,
    },
    /// Finishing was asked for while a column was still missing.
    MissingField {
        /// The name of the missing column.
        missed: String,
    },
}

/// A staged builder for an atom table.
pub struct AtomCollectionBuilder<T, S> where T: ModelInfo, S: BuildState {
    /// Element symbols, once supplied.
    pub element_symbols: Option<Vec<Vec<u8>>>,
    /// Atomic numbers, once supplied.
    pub atomic_nums: Option<Vec<u8>>,
    /// Cartesian coordinates, once supplied.
    pub xyz_coords: Option<Vec<Coord3>>,
    /// Fractional coordinates, once supplied.
    pub fractional_xyz: Option<Vec<Option<Coord3>>>,
    /// Atom ids, once supplied.
    pub atom_ids: Option<Vec<u32>>,
    /// The declared atom count.
    pub size: usize,
    /// Dialect marker.
    pub format_type: PhantomData<T>,
    /// Stage marker.
    pub state: PhantomData<S>,
}

impl<T: ModelInfo, S: BuildState> AtomCollectionBuilder<T, S> {
    /// Every supplied column has the declared length and well-formed
    /// coordinates.
    pub open spec fn wf(self) -> bool {
        &&& (self.element_symbols matches Some(v) ==> v@.len() == self.size)
        &&& (self.atomic_nums matches Some(v) ==> v@.len() == self.size)
        &&& (self.xyz_coords matches Some(v) ==> v@.len() == self.size && forall|i: int|
            0 <= i < v@.len() ==> (#[trigger] v@[i]).wf())
        &&& (self.fractional_xyz matches Some(v) ==> v@.len() == self.size && forall|i: int|
            0 <= i < v@.len() ==> ((#[trigger] v@[i]) matches Some(c) ==> c.wf()))
        &&& (self.atom_ids matches Some(v) ==> v@.len() == self.size)
    }

    /// Every column has arrived.
    pub open spec fn complete(self) -> bool {
        &&& self.element_symbols is Some
        &&& self.atomic_nums is Some
        &&& self.xyz_coords is Some
        &&& self.fractional_xyz is Some
        &&& self.atom_ids is Some
    }

    /// Opens a staged construction for `size` atoms, no column supplied.
    pub fn new(size: usize) -> (r: AtomCollectionBuilder<T, No>)
        ensures
            r.wf(),
            r.size == size,
            r.element_symbols is None,
            r.atomic_nums is None,
            r.xyz_coords is None,
            r.fractional_xyz is None,
            r.atom_ids is None,
    {
        AtomCollectionBuilder {
            element_symbols: None,
            atomic_nums: None,
            xyz_coords: None,
            fractional_xyz: None,
            atom_ids: None,
            size,
            format_type: PhantomData,
            state: PhantomData,
        }
    }

    /// Supplies the element symbols; fails exactly when the column length
    /// differs from the declared count, reporting both lengths.
    pub fn with_element_symbols(self, element_symbols: &Vec<Vec<u8>>) -> (r: Result<
        Self,
        AtomCollectionBuildingError,
    >)
        requires
            self.wf(),
        ensures
            match r {
                Ok(b) => {
                    &&& element_symbols@.len() == self.size
                    &&& b.wf()
                    &&& b.size == self.size
                    &&& (b.element_symbols matches Some(v) && v@.len() == self.size)
                    &&& b.element_symbols matches Some(v) ==> forall|i: int|
                        0 <= i < v@.len() ==> (#[trigger] v@[i])@ == element_symbols@[i]@
                    &&& b.atomic_nums == self.atomic_nums
                    &&& b.xyz_coords == self.xyz_coords
                    &&& b.fractional_xyz == self.fractional_xyz
                    &&& b.atom_ids == self.atom_ids
                },
                Err(e) => {
                    &&& element_symbols@.len() != self.size
                    &&& e matches AtomCollectionBuildingError::InconsistentSize {
                        curr,
                        expected,
                    } && curr == element_symbols@.len() && expected == self.size
                },
            },
    {
        if element_symbols.len() == self.size {
            let mut copy: Vec<Vec<u8>> = Vec::new();
            let mut i: usize = 0;
            while i < element_symbols.len()
                invariant
                    i <= element_symbols@.len(),
                    copy@.len() == i,
                    forall|k: int|
                        0 <= k < i ==> (#[trigger] copy@[k])@ == element_symbols@[k]@,
                decreases element_symbols@.len() - i,
            {
                copy.push(clone_bytes(&element_symbols[i]));
                i = i + 1;
            }
            Ok(
                AtomCollectionBuilder {
                    element_symbols: Some(copy),
                    atomic_nums: self.atomic_nums,
                    xyz_coords: self.xyz_coords,
                    fractional_xyz: self.fractional_xyz,
                    atom_ids: self.atom_ids,
                    size: self.size,
                    format_type: PhantomData,
                    state: PhantomData,
                },
            )
        } else {
            Err(
                AtomCollectionBuildingError::InconsistentSize {
                    curr: element_symbols.len(),
                    expected: self.size,
                },
            )
        }
    }

    /// Supplies the atomic numbers; fails exactly when the column length
    /// differs from the declared count, reporting both lengths.
    pub fn with_atomic_nums(self, atomic_nums: Vec<u8>) -> (r: Result<
        Self,
        AtomCollectionBuildingError,
    >)
        requires
            self.wf(),
        ensures
            match r {
                Ok(b) => {
                    &&& atomic_nums@.len() == self.size
                    &&& b.wf()
                    &&& b.size == self.size
                    &&& (b.atomic_nums matches Some(v) && v@ == atomic_nums@)
                    &&& b.element_symbols == self.element_symbols
                    &&& b.xyz_coords == self.xyz_coords
                    &&& b.fractional_xyz == self.fractional_xyz
                    &&& b.atom_ids == self.atom_ids
                },
                Err(e) => {
                    &&& atomic_nums@.len() != self.size
                    &&& e matches AtomCollectionBuildingError::InconsistentSize {
                        curr,
                        expected,
                    } && curr == atomic_nums@.len() && expected == self.size
                },
            },
    {
        if atomic_nums.len() == self.size {
            Ok(
                AtomCollectionBuilder {
                    element_symbols: self.element_symbols,
                    atomic_nums: Some(atomic_nums),
                    xyz_coords: self.xyz_coords,
                    fractional_xyz: self.fractional_xyz,
                    atom_ids: self.atom_ids,
                    size: self.size,
                    format_type: PhantomData,
                    state: PhantomData,
                },
            )
        } else {
            Err(
                AtomCollectionBuildingError::InconsistentSize {
                    curr: atomic_nums.len(),
                    expected: self.size,
                },
            )
        }
    }

    /// Supplies the cartesian coordinates; fails exactly when the column
    /// length differs from the declared count, reporting both lengths.
    pub fn with_xyz_coords(self, xyz_coords: Vec<Coord3>) -> (r: Result<
        Self,
        AtomCollectionBuildingError,
    >)
        requires
            self.wf(),
            forall|i: int| 0 <= i < xyz_coords@.len() ==> (#[trigger] xyz_coords@[i]).wf(),
        ensures
            match r {
                Ok(b) => {
                    &&& xyz_coords@.len() == self.size
                    &&& b.wf()
                    &&& b.size == self.size
                    &&& (b.xyz_coords matches Some(v) && v@ == xyz_coords@)
                    &&& b.element_symbols == self.element_symbols
                    &&& b.atomic_nums == self.atomic_nums
                    &&& b.fractional_xyz == self.fractional_xyz
                    &&& b.atom_ids == self.atom_ids
                },
                Err(e) => {
                    &&& xyz_coords@.len() != self.size
                    &&& e matches AtomCollectionBuildingError::InconsistentSize {
                        curr,
                        expected,
                    } && curr == xyz_coords@.len() && expected == self.size
                },
            },
    {
        if xyz_coords.len() == self.size {
            Ok(
                AtomCollectionBuilder {
                    element_symbols: self.element_symbols,
                    atomic_nums: self.atomic_nums,
                    xyz_coords: Some(xyz_coords),
                    fractional_xyz: self.fractional_xyz,
                    atom_ids: self.atom_ids,
                    size: self.size,
                    format_type: PhantomData,
                    state: PhantomData,
                },
            )
        } else {
            Err(
                AtomCollectionBuildingError::InconsistentSize {
                    curr: xyz_coords.len(),
                    expected: self.size,
                },
            )
        }
    }

    /// Supplies the fractional coordinates; fails exactly when the column
    /// length differs from the declared count, reporting both lengths.
    pub fn with_fractional_xyz(self, fractional_xyz: Vec<Option<Coord3>>) -> (r: Result<
        Self,
        AtomCollectionBuildingError,
    >)
        requires
            self.wf(),
            forall|i: int|
                0 <= i < fractional_xyz@.len() ==> ((#[trigger] fractional_xyz@[i]) matches Some(
                    c,
                ) ==> c.wf()),
        ensures
            match r {
                Ok(b) => {
                    &&& fractional_xyz@.len() == self.size
                    &&& b.wf()
                    &&& b.size == self.size
                    &&& (b.fractional_xyz matches Some(v) && v@ == fractional_xyz@)
                    &&& b.element_symbols == self.element_symbols
                    &&& b.atomic_nums == self.atomic_nums
                    &&& b.xyz_coords == self.xyz_coords
                    &&& b.atom_ids == self.atom_ids
                },
                Err(e) => {
                    &&& fractional_xyz@.len() != self.size
                    &&& e matches AtomCollectionBuildingError::InconsistentSize {
                        curr,
                        expected,
                    } && curr == fractional_xyz@.len() && expected == self.size
                },
            },
    {
        if fractional_xyz.len() == self.size {
            Ok(
                AtomCollectionBuilder {
                    element_symbols: self.element_symbols,
                    atomic_nums: self.atomic_nums,
                    xyz_coords: self.xyz_coords,
                    fractional_xyz: Some(fractional_xyz),
                    atom_ids: self.atom_ids,
                    size: self.size,
                    format_type: PhantomData,
                    state: PhantomData,
                },
            )
        } else {
            Err(
                AtomCollectionBuildingError::InconsistentSize {
                    curr: fractional_xyz.len(),
                    expected: self.size,
                },
            )
        }
    }

    /// Supplies the atom ids; fails exactly when the column length differs
    /// from the declared count, reporting both lengths.
    pub fn with_atom_ids(self, atom_ids: Vec<u32>) -> (r: Result<
        Self,
        AtomCollectionBuildingError,
    >)
        requires
            self.wf(),
        ensures
            match r {
                Ok(b) => {
                    &&& atom_ids@.len() == self.size
                    &&& b.wf()
                    &&& b.size == self.size
                    &&& (b.atom_ids matches Some(v) && v@ == atom_ids@)
                    &&& b.element_symbols == self.element_symbols
                    &&& b.atomic_nums == self.atomic_nums
                    &&& b.xyz_coords == self.xyz_coords
                    &&& b.fractional_xyz == self.fractional_xyz
                },
                Err(e) => {
                    &&& atom_ids@.len() != self.size
                    &&& e matches AtomCollectionBuildingError::InconsistentSize {
                        curr,
                        expected,
                    } && curr == atom_ids@.len() && expected == self.size
                },
            },
    {
        if atom_ids.len() == self.size {
            Ok(
                AtomCollectionBuilder {
                    element_symbols: self.element_symbols,
                    atomic_nums: self.atomic_nums,
                    xyz_coords: self.xyz_coords,
                    fractional_xyz: self.fractional_xyz,
                    atom_ids: Some(atom_ids),
                    size: self.size,
                    format_type: PhantomData,
                    state: PhantomData,
                },
            )
        } else {
            Err(
                AtomCollectionBuildingError::InconsistentSize {
                    curr: atom_ids.len(),
                    expected: self.size,
                },
            )
        }
    }

    /// Closes the staged construction; fails exactly while a column is
    /// missing, naming the first missing one in a fixed order.
    pub fn finish(self) -> (r: Result<
        AtomCollectionBuilder<T, Ready>,
        AtomCollectionBuildingError,
    >)
        requires
            self.wf(),
        ensures
            r is Ok <==> self.complete(),
            r matches Ok(b) ==> {
                &&& b.wf()
                &&& b.complete()
                &&& b.element_symbols == self.element_symbols
                &&& b.atomic_nums == self.atomic_nums
                &&& b.xyz_coords == self.xyz_coords
                &&& b.fractional_xyz == self.fractional_xyz
                &&& b.atom_ids == self.atom_ids
                &&& b.size == self.size
            },
            r matches Err(e) ==> e is MissingField,
            r matches Err(e) ==> (e matches AtomCollectionBuildingError::MissingField { missed }
                ==> missed@ == spec_first_missing(self)),
    {
        if self.atomic_nums.is_none() {
            return Err(
                AtomCollectionBuildingError::MissingField {
                    missed: missing_name_atomic_nums(),
                },
            );
        }
        if self.element_symbols.is_none() {
            return Err(
                AtomCollectionBuildingError::MissingField {
                    missed: missing_name_element_symbols(),
                },
            );
        }
        if self.xyz_coords.is_none() {
            return Err(
                AtomCollectionBuildingError::MissingField {
                    missed: missing_name_xyz_coords(),
                },
            );
        }
        if self.fractional_xyz.is_none() {
            return Err(
                AtomCollectionBuildingError::MissingField {
                    missed: missing_name_fractional_xyz(),
                },
            );
        }
        if self.atom_ids.is_none() {
            return Err(
                AtomCollectionBuildingError::MissingField {
                    missed: missing_name_atom_ids(),
                },
            );
        }
        Ok(
            AtomCollectionBuilder {
                element_symbols: self.element_symbols,
                atomic_nums: self.atomic_nums,
                xyz_coords: self.xyz_coords,
                fractional_xyz: self.fractional_xyz,
                atom_ids: self.atom_ids,
                size: self.size,
                format_type: PhantomData,
                state: PhantomData,
            },
        )
    }
}

/// The name of the first column `finish` reports missing, in its fixed
/// check order.
pub open spec fn spec_first_missing<T: ModelInfo, S: BuildState>(
    b: AtomCollectionBuilder<T, S>,
) -> Seq<char> {
    if b.atomic_nums is None {
        "atomic_nums"@
    } else if b.element_symbols is None {
        "element_symbols"@
    } else if b.xyz_coords is None {
        "xyz_coords"@
    } else if b.fractional_xyz is None {
        "fractional_xyz"@
    } else {
        "atom_ids"@
    }
}

/// The column name `atomic_nums` as an owned string.
fn missing_name_atomic_nums() -> (r: String)
    ensures
        r@ == "atomic_nums"@,
{
    String::from_str("atomic_nums")
}

/// The column name `element_symbols` as an owned string.
fn missing_name_element_symbols() -> (r: String)
    ensures
        r@ == "element_symbols"@,
{
    String::from_str("element_symbols")
}

/// The column name `xyz_coords` as an owned string.
fn missing_name_xyz_coords() -> (r: String)
    ensures
        r@ == "xyz_coords"@,
{
    String::from_str("xyz_coords")
}

/// The column name `fractional_xyz` as an owned string.
fn missing_name_fractional_xyz() -> (r: String)
    ensures
        r@ == "fractional_xyz"@,
{
    String::from_str("fractional_xyz")
}

/// The column name `atom_ids` as an owned string.
fn missing_name_atom_ids() -> (r: String)
    ensures
        r@ == "atom_ids"@,
{
    String::from_str("atom_ids")
}

impl<T: ModelInfo> AtomCollectionBuilder<T, Ready> {
    /// Builds the atom table from the completed stages.
    pub fn build(self) -> (r: AtomCollection<T>)
        requires
            self.wf(),
            self.complete(),
        ensures
            r.wf(),
            r.size == self.size,
            self.element_symbols matches Some(v) ==> r.element_symbols@ == v@,
            self.atomic_nums matches Some(v) ==> r.atomic_nums@ == v@,
            self.xyz_coords matches Some(v) ==> r.xyz_coords@ == v@,
            self.fractional_xyz matches Some(v) ==> r.fractional_xyz@ == v@,
            self.atom_ids matches Some(v) ==> r.atom_ids@ == v@,
    {
        let AtomCollectionBuilder {
            element_symbols,
            atomic_nums,
            xyz_coords,
            fractional_xyz,
            atom_ids,
            size,
            format_type,
            state,
        } = self;
        AtomCollection {
            element_symbols: element_symbols.unwrap(),
            atomic_nums: atomic_nums.unwrap(),
            xyz_coords: xyz_coords.unwrap(),
            fractional_xyz: fractional_xyz.unwrap(),
            atom_ids: atom_ids.unwrap(),
            size,
            format_type: PhantomData,
        }
    }
}

} // verus!
