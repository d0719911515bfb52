//! The atom table: one row per atom, stored column-wise, with update and
//! view access, id-based lookup, and merging with identifier renumbering.
use vstd::prelude::*;
use core::marker::PhantomData;
use crate::error::InvalidIndex;
use crate::model_type::ModelInfo;
use crate::numeric::Decimal;
use crate::numeric::clone_bytes;
use crate::numeric::dec_eqv;

verus! {

/// A cartesian or fractional coordinate triple.
#[derive(Debug, Clone)]
pub struct Coord3 {
    /// First component.
    pub x: Decimal,
    /// Second component.
    pub y: Decimal,
    /// Third component.
    pub z: Decimal,
}

impl Coord3 {
    /// All three components are well-formed decimals.
    pub open spec fn wf(self) -> bool {
        self.x.wf() && self.y.wf() && self.z.wf()
    }

    /// An explicit copy, component for component.
    pub fn dup(&self) -> (r: Coord3)
        ensures
            coord_eqv(*self, r),
    {
        Coord3 { x: self.x.dup(), y: self.y.dup(), z: self.z.dup() }
    }
}

/// Field-by-field equality of two coordinate triples.
pub open spec fn coord_eqv(a: Coord3, b: Coord3) -> bool {
    dec_eqv(a.x, b.x) && dec_eqv(a.y, b.y) && dec_eqv(a.z, b.z)
}

/// Field-by-field equality of two optional coordinate triples.
pub open spec fn opt_coord_eqv(a: Option<Coord3>, b: Option<Coord3>) -> bool {
    match (a, b) {
        (Some(x), Some(y)) => coord_eqv(x, y),
        (None, None) => true,
        _ => false,
    }
}

/// Copies an optional coordinate triple.
pub fn opt_coord_dup(c: &Option<Coord3>) -> (r: Option<Coord3>)
    ensures
        opt_coord_eqv(*c, r),
{
    match c {
        Some(v) => Some(v.dup()),
        None => None,
    }
}

/// One atom of a model.
#[derive(Debug)]
pub struct Atom<T: ModelInfo> {
    /// The symbol of the element, case preserved as parsed.
    pub element_symbol: Vec<u8>,
    /// The atomic number of the element in the periodic table.
    pub atomic_number: u8,
    /// The cartesian coordinate of the atom.
    pub xyz: Coord3,
    /// The fractional coordinate in a lattice; absent without one.
    pub fractional_xyz: Option<Coord3>,
    /// The id of the atom in the parsed model.
    pub atom_id: u32,
    /// Dialect marker.
    pub format_type: PhantomData<T>,
}

impl<T: ModelInfo> Atom<T> {
    /// Creates a new atom with no fractional coordinate yet.
    pub fn new(element_symbol: Vec<u8>, atomic_number: u8, xyz: Coord3, atom_id: u32) -> (r: Self)
        ensures
            r.element_symbol@ == element_symbol@,
            r.atomic_number == atomic_number,
            r.xyz == xyz,
            r.fractional_xyz is None,
            r.atom_id == atom_id,
    {
        Self {
            element_symbol,
            atomic_number,
            xyz,
            fractional_xyz: None,
            atom_id,
            format_type: PhantomData,
        }
    }

    /// The element symbol.
    pub fn element_symbol(&self) -> (r: &Vec<u8>)
        ensures
            r@ == self.element_symbol@,
    {
        &self.element_symbol
    }

    /// The atomic number.
    pub fn element_id(&self) -> (r: u8)
        ensures
            r == self.atomic_number,
    {
        self.atomic_number
    }

    /// The cartesian coordinate.
    pub fn xyz(&self) -> (r: &Coord3)
        ensures
            r == self.xyz,
    {
        &self.xyz
    }

    /// The atom id.
    pub fn atom_id(&self) -> (r: u32)
        ensures
            r == self.atom_id,
    {
        self.atom_id
    }

    /// The fractional coordinate, when one is known.
    pub fn fractional_xyz(&self) -> (r: &Option<Coord3>)
        ensures
            r == self.fractional_xyz,
    {
        &self.fractional_xyz
    }
}

/// The atom table, stored as one column per datum.
///
/// All five columns have the same length, the declared atom count: the
/// staged builder enforces it once, at construction.
#[derive(Debug)]
pub struct AtomCollection<T: ModelInfo> {
    /// Element symbols, one per atom.
    pub element_symbols: Vec<Vec<u8>>,
    /// Atomic numbers, one per atom.
    pub atomic_nums: Vec<u8>,
    /// Cartesian coordinates, one per atom.
    pub xyz_coords: Vec<Coord3>,
    /// Fractional coordinates, absent when no lattice is known.
    pub fractional_xyz: Vec<Option<Coord3>>,
    /// Atom ids, one per atom.
    pub atom_ids: Vec<u32>,
    /// The declared atom count.
    pub size: usize,
    /// Dialect marker.
    pub format_type: PhantomData<T>,
}

impl<T: ModelInfo> AtomCollection<T> {
    /// Every column has exactly the declared length and every coordinate is
    /// well-formed.
    pub open spec fn wf(self) -> bool {
        &&& self.element_symbols@.len() == self.size
        &&& self.atomic_nums@.len() == self.size
        &&& self.xyz_coords@.len() == self.size
        &&& self.fractional_xyz@.len() == self.size
        &&& self.atom_ids@.len() == self.size
        &&& forall|i: int| 0 <= i < self.size ==> (#[trigger] self.xyz_coords@[i]).wf()
        &&& forall|i: int|
            0 <= i < self.size ==> ((#[trigger] self.fractional_xyz@[i]) matches Some(c)
                ==> c.wf())
    }

    /// An empty table.
    pub fn empty() -> (r: Self)
        ensures
            r.wf(),
            r.size == 0,
            r.atom_ids@.len() == 0,
    {
        AtomCollection {
            element_symbols: Vec::new(),
            atomic_nums: Vec::new(),
            xyz_coords: Vec::new(),
            fractional_xyz: Vec::new(),
            atom_ids: Vec::new(),
            size: 0,
            format_type: PhantomData,
        }
    }

    /// Replaces the element symbol at `index`; fails exactly when the index
    /// is out of bounds, leaving the table unchanged.
    pub fn update_symbol_at(&mut self, index: usize, new_symbol: Vec<u8>) -> (r: Result<
        (),
        InvalidIndex,
    >)
        requires
            old(self).wf(),
        ensures
            final(self).wf(),
            final(self).size == old(self).size,
            r is Ok <==> index < old(self).size,
            r is Ok ==> final(self).element_symbols@ == old(self).element_symbols@.update(
                index as int,
                new_symbol,
            ) && final(self).atomic_nums@ == old(self).atomic_nums@ && final(self).xyz_coords@
                == old(self).xyz_coords@ && final(self).fractional_xyz@ == old(self).fractional_xyz@ && final(self).atom_ids@ == old(self).atom_ids@,
            r is Err ==> *final(self) == *old(self),
    {
        if index < self.element_symbols.len() {
            self.element_symbols.set(index, new_symbol);
            Ok(())
        } else {
            Err(InvalidIndex)
        }
    }

    /// Replaces the atomic number at `index`; fails exactly when the index
    /// is out of bounds, leaving the table unchanged.
    pub fn update_elm_id_at(&mut self, index: usize, new_elm_id: u8) -> (r: Result<
        (),
        InvalidIndex,
    >)
        requires
            old(self).wf(),
        ensures
            final(self).wf(),
            final(self).size == old(self).size,
            r is Ok <==> index < old(self).size,
            r is Ok ==> final(self).atomic_nums@ == old(self).atomic_nums@.update(
                index as int,
                new_elm_id,
            ) && final(self).element_symbols@ == old(self).element_symbols@ && final(self).xyz_coords@ == old(self).xyz_coords@ && final(self).fractional_xyz@ == old(self).fractional_xyz@ && final(self).atom_ids@ == old(self).atom_ids@,
            r is Err ==> *final(self) == *old(self),
    {
        if index < self.atomic_nums.len() {
            self.atomic_nums.set(index, new_elm_id);
            Ok(())
        } else {
            Err(InvalidIndex)
        }
    }

    /// Replaces the cartesian coordinate at `index`; fails exactly when the
    /// index is out of bounds, leaving the table unchanged.
    pub fn update_xyz_at(&mut self, index: usize, new_xyz: Coord3) -> (r: Result<
        (),
        InvalidIndex,
    >)
        requires
            old(self).wf(),
            new_xyz.wf(),
        ensures
            final(self).wf(),
            final(self).size == old(self).size,
            r is Ok <==> index < old(self).size,
            r is Ok ==> final(self).xyz_coords@ == old(self).xyz_coords@.update(
                index as int,
                new_xyz,
            ) && final(self).element_symbols@ == old(self).element_symbols@ && final(self).atomic_nums@ == old(self).atomic_nums@ && final(self).fractional_xyz@ == old(self).fractional_xyz@ && final(self).atom_ids@ == old(self).atom_ids@,
            r is Err ==> *final(self) == *old(self),
    {
        if index < self.xyz_coords.len() {
            self.xyz_coords.set(index, new_xyz);
            Ok(())
        } else {
            Err(InvalidIndex)
        }
    }

    /// Replaces the fractional coordinate at `index`; fails exactly when
    /// the index is out of bounds, leaving the table unchanged.
    pub fn update_frac_xyz_at(&mut self, index: usize, new_frac: Option<Coord3>) -> (r: Result<
        (),
        InvalidIndex,
    >)
        requires
            old(self).wf(),
            new_frac matches Some(c) ==> c.wf(),
        ensures
            final(self).wf(),
            final(self).size == old(self).size,
            r is Ok <==> index < old(self).size,
            r is Ok ==> final(self).fractional_xyz@ == old(self).fractional_xyz@.update(
                index as int,
                new_frac,
            ) && final(self).element_symbols@ == old(self).element_symbols@ && final(self).atomic_nums@ == old(self).atomic_nums@ && final(self).xyz_coords@ == old(self).xyz_coords@ && final(self).atom_ids@ == old(self).atom_ids@,
            r is Err ==> *final(self) == *old(self),
    {
        if index < self.fractional_xyz.len() {
            self.fractional_xyz.set(index, new_frac);
            Ok(())
        } else {
            Err(InvalidIndex)
        }
    }

    /// Replaces the atom id at `index`; fails exactly when the index is out
    /// of bounds, leaving the table unchanged.
    pub fn update_atom_id_at(&mut self, index: usize, new_atom_id: u32) -> (r: Result<
        (),
        InvalidIndex,
    >)
        requires
            old(self).wf(),
        ensures
            final(self).wf(),
            final(self).size == old(self).size,
            r is Ok <==> index < old(self).size,
            r is Ok ==> final(self).atom_ids@ == old(self).atom_ids@.update(
                index as int,
                new_atom_id,
            ) && final(self).element_symbols@ == old(self).element_symbols@ && final(self).atomic_nums@ == old(self).atomic_nums@ && final(self).xyz_coords@ == old(self).xyz_coords@ && final(self).fractional_xyz@ == old(self).fractional_xyz@,
            r is Err ==> *final(self) == *old(self),
    {
        if index < self.atom_ids.len() {
            self.atom_ids.set(index, new_atom_id);
            Ok(())
        } else {
            Err(InvalidIndex)
        }
    }

    /// Replaces the whole row at `index` with the fields of `new_atom`;
    /// fails exactly when the index is out of bounds.
    pub fn update_atom_at(&mut self, index: usize, new_atom: Atom<T>) -> (r: Result<
        (),
        InvalidIndex,
    >)
        requires
            old(self).wf(),
            new_atom.xyz.wf(),
            new_atom.fractional_xyz matches Some(c) ==> c.wf(),
        ensures
            final(self).wf(),
            final(self).size == old(self).size,
            r is Ok <==> index < old(self).size,
            r is Ok ==> final(self).element_symbols@ == old(self).element_symbols@.update(
                index as int,
                new_atom.element_symbol,
            ) && final(self).atomic_nums@ == old(self).atomic_nums@.update(
                index as int,
                new_atom.atomic_number,
            ) && final(self).xyz_coords@ == old(self).xyz_coords@.update(
                index as int,
                new_atom.xyz,
            ) && final(self).fractional_xyz@ == old(self).fractional_xyz@.update(
                index as int,
                new_atom.fractional_xyz,
            ) && final(self).atom_ids@ == old(self).atom_ids@.update(
                index as int,
                new_atom.atom_id,
            ),
            r is Err ==> *final(self) == *old(self),
    {
        if index < self.size && index < self.element_symbols.len() && index
            < self.atomic_nums.len() && index < self.xyz_coords.len() && index
            < self.fractional_xyz.len() && index < self.atom_ids.len() {
            let Atom { element_symbol, atomic_number, xyz, fractional_xyz, atom_id, format_type } =
                new_atom;
            self.element_symbols.set(index, element_symbol);
            self.atomic_nums.set(index, atomic_number);
            self.xyz_coords.set(index, xyz);
            self.fractional_xyz.set(index, fractional_xyz);
            self.atom_ids.set(index, atom_id);
            Ok(())
        } else {
            Err(InvalidIndex)
        }
    }

    /// A copy of the row at `index` as one atom; fails exactly when the
    /// index is out of bounds.
    pub fn view_atom_at(&self, index: usize) -> (r: Result<Atom<T>, InvalidIndex>)
        requires
            self.wf(),
        ensures
            r is Ok <==> index < self.size,
            r matches Ok(a) ==> {
                &&& a.element_symbol@ == self.element_symbols@[index as int]@
                &&& a.atomic_number == self.atomic_nums@[index as int]
                &&& coord_eqv(a.xyz, self.xyz_coords@[index as int])
                &&& opt_coord_eqv(a.fractional_xyz, self.fractional_xyz@[index as int])
                &&& a.atom_id == self.atom_ids@[index as int]
            },
    {
        if index < self.size {
            Ok(
                Atom {
                    element_symbol: clone_bytes(&self.element_symbols[index]),
                    atomic_number: self.atomic_nums[index],
                    xyz: self.xyz_coords[index].dup(),
                    fractional_xyz: opt_coord_dup(&self.fractional_xyz[index]),
                    atom_id: self.atom_ids[index],
                    format_type: PhantomData,
                },
            )
        } else {
            Err(InvalidIndex)
        }
    }

    /// The element symbol column.
    pub fn element_symbols(&self) -> (r: &Vec<Vec<u8>>)
        ensures
            r@ == self.element_symbols@,
    {
        &self.element_symbols
    }

    /// The atomic number column.
    pub fn atomic_nums(&self) -> (r: &Vec<u8>)
        ensures
            r@ == self.atomic_nums@,
    {
        &self.atomic_nums
    }

    /// The cartesian coordinate column.
    pub fn xyz_coords(&self) -> (r: &Vec<Coord3>)
        ensures
            r@ == self.xyz_coords@,
    {
        &self.xyz_coords
    }

    /// The fractional coordinate column.
    pub fn fractional_xyz(&self) -> (r: &Vec<Option<Coord3>>)
        ensures
            r@ == self.fractional_xyz@,
    {
        &self.fractional_xyz
    }

    /// The atom id column.
    pub fn atom_ids(&self) -> (r: &Vec<u32>)
        ensures
            r@ == self.atom_ids@,
    {
        &self.atom_ids
    }

    /// The declared atom count.
    pub fn size(&self) -> (r: usize)
        ensures
            r == self.size,
    {
        self.size
    }

    /// The cartesian coordinate of the atom with id `atom_id`, treating
    /// `atom_id - 1` as the row offset; `None` when no such row exists.
    pub fn get_xyz_by_id(&self, atom_id: u32) -> (r: Option<&Coord3>)
        requires
            self.wf(),
        ensures
            (1 <= atom_id && atom_id - 1 < self.size) <==> r is Some,
            r matches Some(c) ==> *c == self.xyz_coords@[atom_id - 1],
    {
        if atom_id >= 1 && ((atom_id - 1) as usize) < self.xyz_coords.len() {
            Some(&self.xyz_coords[(atom_id - 1) as usize])
        } else {
            None
        }
    }

    /// The coordinates of several atoms by id, each `None` where the id has
    /// no row.
    pub fn get_multiple_xyz_by_id(&self, atom_ids: &Vec<u32>) -> (r: Vec<Option<Coord3>>)
        requires
            self.wf(),
        ensures
            r@.len() == atom_ids@.len(),
            forall|i: int|
                0 <= i < r@.len() ==> opt_coord_eqv(
                    #[trigger] r@[i],
                    (if 1 <= atom_ids@[i] && atom_ids@[i] - 1 < self.size {
                        Some(self.xyz_coords@[atom_ids@[i] - 1])
                    } else {
                        None
                    }),
                ),
    {
        let mut out: Vec<Option<Coord3>> = Vec::new();
        let mut i: usize = 0;
        while i < atom_ids.len()
            invariant
                i <= atom_ids@.len(),
                self.wf(),
                out@.len() == i,
                forall|k: int|
                    0 <= k < i ==> opt_coord_eqv(
                        #[trigger] out@[k],
                        (if 1 <= atom_ids@[k] && atom_ids@[k] - 1 < self.size {
                            Some(self.xyz_coords@[atom_ids@[k] - 1])
                        } else {
                            None
                        }),
                    ),
            decreases atom_ids@.len() - i,
        {
            let id = atom_ids[i];
            if id >= 1 && ((id - 1) as usize) < self.xyz_coords.len() {
                out.push(Some(self.xyz_coords[(id - 1) as usize].dup()));
            } else {
                out.push(None);
            }
            i = i + 1;
        }
        out
    }

    /// A copy of the row of the atom with id `atom_id`, treating
    /// `atom_id - 1` as the row offset.
    pub fn view_atom_by_id(&self, atom_id: u32) -> (r: Result<Atom<T>, InvalidIndex>)
        requires
            self.wf(),
        ensures
            r is Ok <==> (1 <= atom_id && atom_id - 1 < self.size),
            r matches Ok(a) ==> {
                &&& a.element_symbol@ == self.element_symbols@[atom_id - 1]@
                &&& a.atomic_number == self.atomic_nums@[atom_id - 1]
                &&& coord_eqv(a.xyz, self.xyz_coords@[atom_id - 1])
                &&& a.atom_id == self.atom_ids@[atom_id - 1]
            },
    {
        if atom_id >= 1 && ((atom_id - 1) as usize) < self.size {
            self.view_atom_at((atom_id - 1) as usize)
        } else {
            Err(InvalidIndex)
        }
    }

    /// The largest atom id in the table, `0` when the table is empty.
    pub fn max_atom_id(&self) -> (r: u32)
        ensures
            r as int == spec_max_id(self.atom_ids@),
    {
        let mut m: u32 = 0;
        let mut i: usize = 0;
        while i < self.atom_ids.len()
            invariant
                i <= self.atom_ids@.len(),
                m as int == spec_max_id(self.atom_ids@.take(i as int)),
            decreases self.atom_ids@.len() - i,
        {
            proof {
                assert(self.atom_ids@.take(i + 1).drop_last() =~= self.atom_ids@.take(i as int));
            }
            if self.atom_ids[i] > m {
                m = self.atom_ids[i];
            }
            i = i + 1;
        }
        proof {
            assert(self.atom_ids@.take(self.atom_ids@.len() as int) =~= self.atom_ids@);
        }
        m
    }

    /// Concatenates two tables: every column of `rhs` appended to the
    /// matching column of `self`, with each id of `rhs` shifted past the
    /// largest id of `self` so that no id collides.
    pub fn merge(self, rhs: Self) -> (r: Self)
        requires
            self.wf(),
            rhs.wf(),
            self.size + rhs.size <= usize::MAX,
            forall|i: int|
                0 <= i < rhs.atom_ids@.len() ==> (#[trigger] rhs.atom_ids@[i]) + spec_max_id(
                    self.atom_ids@,
                ) <= u32::MAX,
        ensures
            r.wf(),
            r.size == self.size + rhs.size,
            r.element_symbols@ == self.element_symbols@ + rhs.element_symbols@,
            r.atomic_nums@ == self.atomic_nums@ + rhs.atomic_nums@,
            r.xyz_coords@ == self.xyz_coords@ + rhs.xyz_coords@,
            r.fractional_xyz@ == self.fractional_xyz@ + rhs.fractional_xyz@,
            r.atom_ids@.len() == self.atom_ids@.len() + rhs.atom_ids@.len(),
            forall|i: int|
                0 <= i < self.atom_ids@.len() ==> (#[trigger] r.atom_ids@[i])
                    == self.atom_ids@[i],
            forall|i: int|
                0 <= i < rhs.atom_ids@.len() ==> (#[trigger] r.atom_ids@[self.atom_ids@.len()
                    + i]) == rhs.atom_ids@[i] + spec_max_id(self.atom_ids@),
    {
        let shift = self.max_atom_id();
        let new_size = self.size + rhs.size;
        let mut element_symbols = self.element_symbols;
        let mut atomic_nums = self.atomic_nums;
        let mut xyz_coords = self.xyz_coords;
        let mut fractional_xyz = self.fractional_xyz;
        let mut atom_ids = self.atom_ids;
        let ghost a_ids = atom_ids@;
        let mut rhs_symbols = rhs.element_symbols;
        let mut rhs_nums = rhs.atomic_nums;
        let mut rhs_xyz = rhs.xyz_coords;
        let mut rhs_frac = rhs.fractional_xyz;
        element_symbols.append(&mut rhs_symbols);
        atomic_nums.append(&mut rhs_nums);
        xyz_coords.append(&mut rhs_xyz);
        fractional_xyz.append(&mut rhs_frac);
        let mut i: usize = 0;
        while i < rhs.atom_ids.len()
            invariant
                i <= rhs.atom_ids@.len(),
                atom_ids@.len() == a_ids.len() + i,
                shift as int == spec_max_id(a_ids),
                forall|k: int| 0 <= k < a_ids.len() ==> (#[trigger] atom_ids@[k]) == a_ids[k],
                forall|k: int|
                    0 <= k < i ==> (#[trigger] atom_ids@[a_ids.len() + k]) == rhs.atom_ids@[k]
                        + shift,
                forall|k: int|
                    0 <= k < rhs.atom_ids@.len() ==> (#[trigger] rhs.atom_ids@[k]) + shift
                        <= u32::MAX,
            decreases rhs.atom_ids@.len() - i,
        {
            atom_ids.push(rhs.atom_ids[i] + shift);
            i = i + 1;
        }
        AtomCollection {
            element_symbols,
            atomic_nums,
            xyz_coords,
            fractional_xyz,
            atom_ids,
            size: new_size,
            format_type: PhantomData,
        }
    }
}

/// The rows of the table, one atom value per row.
pub open spec fn rows_seq<T: ModelInfo>(t: AtomCollection<T>) -> Seq<Atom<T>> {
    Seq::new(
        t.size as nat,
        |i: int| Atom {
            element_symbol: t.element_symbols@[i],
            atomic_number: t.atomic_nums@[i],
            xyz: t.xyz_coords@[i],
            fractional_xyz: t.fractional_xyz@[i],
            atom_id: t.atom_ids@[i],
            format_type: PhantomData,
        },
    )
}

impl<T: ModelInfo> AtomCollection<T> {
    /// Takes the table apart into its rows, in row order.
    pub fn into_rows(self) -> (r: Vec<Atom<T>>)
        requires
            self.wf(),
        ensures
            r@ == rows_seq(self),
    {
        let Self {
            mut element_symbols,
            mut atomic_nums,
            mut xyz_coords,
            mut fractional_xyz,
            mut atom_ids,
            size,
            format_type,
        } = self;
        let ghost t = self;
        // Pop every column into a reversed stack of rows, then reverse it.
        let mut stack: Vec<Atom<T>> = Vec::new();
        let mut i: usize = size;
        while i > 0
            invariant
                i <= size,
                element_symbols@ == t.element_symbols@.take(i as int),
                atomic_nums@ == t.atomic_nums@.take(i as int),
                xyz_coords@ == t.xyz_coords@.take(i as int),
                fractional_xyz@ == t.fractional_xyz@.take(i as int),
                atom_ids@ == t.atom_ids@.take(i as int),
                t.wf(),
                t.size == size,
                stack@.len() == size - i,
                forall|k: int|
                    0 <= k < stack@.len() ==> stack@[k] == rows_seq(t)[size - 1 - k],
            decreases i,
        {
            proof {
                assert(t.element_symbols@.take(i as int).drop_last() =~= t.element_symbols@.take(
                    i - 1,
                ));
                assert(t.atomic_nums@.take(i as int).drop_last() =~= t.atomic_nums@.take(i - 1));
                assert(t.xyz_coords@.take(i as int).drop_last() =~= t.xyz_coords@.take(i - 1));
                assert(t.fractional_xyz@.take(i as int).drop_last() =~= t.fractional_xyz@.take(
                    i - 1,
                ));
                assert(t.atom_ids@.take(i as int).drop_last() =~= t.atom_ids@.take(i - 1));
            }
            let element_symbol = element_symbols.pop().unwrap();
            let atomic_number = atomic_nums.pop().unwrap();
            let xyz = xyz_coords.pop().unwrap();
            let fractional_xyz_one = fractional_xyz.pop().unwrap();
            let atom_id = atom_ids.pop().unwrap();
            stack.push(
                Atom {
                    element_symbol,
                    atomic_number,
                    xyz,
                    fractional_xyz: fractional_xyz_one,
                    atom_id,
                    format_type: PhantomData,
                },
            );
            i = i - 1;
        }
        let mut rows: Vec<Atom<T>> = Vec::new();
        let mut j: usize = 0;
        while j < size
            invariant
                j <= size,
                stack@.len() == size - j,
                forall|k: int|
                    0 <= k < stack@.len() ==> stack@[k] == rows_seq(t)[size - 1 - k],
                rows@.len() == j,
                forall|k: int| 0 <= k < j ==> rows@[k] == rows_seq(t)[k],
                size == t.size,
            decreases size - j,
        {
            let a = stack.pop().unwrap();
            rows.push(a);
            j = j + 1;
        }
        proof {
            assert(rows@ =~= rows_seq(t));
        }
        rows
    }

    /// Assembles a table from its rows, in row order.
    pub fn from_rows(rows: Vec<Atom<T>>) -> (r: Self)
        requires
            forall|i: int| 0 <= i < rows@.len() ==> (#[trigger] rows@[i]).xyz.wf(),
            forall|i: int|
                0 <= i < rows@.len() ==> ((#[trigger] rows@[i]).fractional_xyz matches Some(c)
                    ==> c.wf()),
        ensures
            r.wf(),
            r.size == rows@.len(),
            rows_seq(r) == rows@,
    {
        let ghost given = rows@;
        let n = rows.len();
        let mut rows = rows;
        let mut stack: Vec<Atom<T>> = Vec::new();
        let mut i: usize = n;
        while i > 0
            invariant
                i <= n,
                rows@ == given.take(i as int),
                n == given.len(),
                stack@.len() == n - i,
                forall|k: int| 0 <= k < stack@.len() ==> stack@[k] == given[n - 1 - k],
            decreases i,
        {
            proof {
                assert(given.take(i as int).drop_last() =~= given.take(i - 1));
            }
            let a = rows.pop().unwrap();
            stack.push(a);
            i = i - 1;
        }
        let mut element_symbols: Vec<Vec<u8>> = Vec::new();
        let mut atomic_nums: Vec<u8> = Vec::new();
        let mut xyz_coords: Vec<Coord3> = Vec::new();
        let mut fractional_xyz: Vec<Option<Coord3>> = Vec::new();
        let mut atom_ids: Vec<u32> = Vec::new();
        let mut j: usize = 0;
        while j < n
            invariant
                j <= n,
                n == given.len(),
                stack@.len() == n - j,
                forall|k: int| 0 <= k < stack@.len() ==> stack@[k] == given[n - 1 - k],
                element_symbols@.len() == j,
                atomic_nums@.len() == j,
                xyz_coords@.len() == j,
                fractional_xyz@.len() == j,
                atom_ids@.len() == j,
                forall|k: int|
                    0 <= k < j ==> (#[trigger] element_symbols@[k]) == given[k].element_symbol
                        && atomic_nums@[k] == given[k].atomic_number && xyz_coords@[k]
                        == given[k].xyz && fractional_xyz@[k] == given[k].fractional_xyz
                        && atom_ids@[k] == given[k].atom_id,
                forall|i2: int| 0 <= i2 < given.len() ==> (#[trigger] given[i2]).xyz.wf(),
                forall|i2: int|
                    0 <= i2 < given.len() ==> ((#[trigger] given[i2]).fractional_xyz matches Some(
                        c,
                    ) ==> c.wf()),
            decreases n - j,
        {
            let a = stack.pop().unwrap();
            let ghost ga = a;
            proof {
                assert(ga == given[j as int]);
            }
            let Atom { element_symbol, atomic_number, xyz, fractional_xyz: fx, atom_id, format_type } = a;
            element_symbols.push(element_symbol);
            atomic_nums.push(atomic_number);
            xyz_coords.push(xyz);
            fractional_xyz.push(fx);
            atom_ids.push(atom_id);
            proof {
                assert(element_symbols@[j as int] == ga.element_symbol);
                assert(atomic_nums@[j as int] == ga.atomic_number);
                assert(xyz_coords@[j as int] == ga.xyz);
                assert(fractional_xyz@[j as int] == ga.fractional_xyz);
                assert(atom_ids@[j as int] == ga.atom_id);
            }
            j = j + 1;
        }
        proof {
            assert forall|k: int| 0 <= k < n implies (#[trigger] xyz_coords@[k]).wf() by {
                assert(element_symbols@[k] == given[k].element_symbol);
                assert(xyz_coords@[k] == given[k].xyz);
                assert(given[k].xyz.wf());
            }
            assert forall|k: int| 0 <= k < n implies ((#[trigger] fractional_xyz@[k]) matches Some(
                c,
            ) ==> c.wf()) by {
                assert(element_symbols@[k] == given[k].element_symbol);
                assert(fractional_xyz@[k] == given[k].fractional_xyz);
            }
        }
        let r = AtomCollection {
            element_symbols,
            atomic_nums,
            xyz_coords,
            fractional_xyz,
            atom_ids,
            size: n,
            format_type: PhantomData,
        };
        proof {
            assert(rows_seq(r) =~= given);
        }
        r
    }

    /// The table with its rows sorted by atom id ascending: the ordering
    /// the MSI dialect serializes in.  The rows themselves are kept, as a
    /// multiset.
    pub fn sorted_by_atom_id(self) -> (r: Self)
        requires
            self.wf(),
        ensures
            r.wf(),
            r.size == self.size,
            rows_seq(r).to_multiset() == rows_seq(self).to_multiset(),
            forall|i: int, j: int| 0 <= i < j < r.size ==> r.atom_ids@[i] <= r.atom_ids@[j],
    {
        let ghost orig = self;
        let rows = self.into_rows();
        let sorted = sort_rows(rows, true);
        proof {
            assert forall|i: int| 0 <= i < sorted@.len() implies (#[trigger] sorted@[i]).xyz.wf()
                && (sorted@[i].fractional_xyz matches Some(c) ==> c.wf()) by {
                broadcast use vstd::seq_lib::group_to_multiset_ensures;

                assert(sorted@.to_multiset().count(sorted@[i]) > 0);
                assert(rows_seq(orig).contains(sorted@[i]));
                let j = choose|j: int|
                    0 <= j < rows_seq(orig).len() && rows_seq(orig)[j] == sorted@[i];
                assert(rows_seq(orig)[j].xyz == orig.xyz_coords@[j]);
                assert(rows_seq(orig)[j].fractional_xyz == orig.fractional_xyz@[j]);
            }
        }
        let r = Self::from_rows(sorted);
        proof {
            assert forall|i: int, j: int| 0 <= i < j < r.size implies r.atom_ids@[i]
                <= r.atom_ids@[j] by {
                assert(rows_seq(r)[i].atom_id == r.atom_ids@[i]);
                assert(rows_seq(r)[j].atom_id == r.atom_ids@[j]);
            }
        }
        r
    }

    /// The table with its rows sorted by atomic number ascending: the
    /// grouping the CELL dialect serializes in.  The rows themselves are
    /// kept, as a multiset.
    pub fn sorted_by_atomic_number(self) -> (r: Self)
        requires
            self.wf(),
        ensures
            r.wf(),
            r.size == self.size,
            rows_seq(r).to_multiset() == rows_seq(self).to_multiset(),
            forall|i: int, j: int|
                0 <= i < j < r.size ==> r.atomic_nums@[i] <= r.atomic_nums@[j],
    {
        let ghost orig = self;
        let rows = self.into_rows();
        let sorted = sort_rows(rows, false);
        proof {
            assert forall|i: int| 0 <= i < sorted@.len() implies (#[trigger] sorted@[i]).xyz.wf()
                && (sorted@[i].fractional_xyz matches Some(c) ==> c.wf()) by {
                broadcast use vstd::seq_lib::group_to_multiset_ensures;

                assert(sorted@.to_multiset().count(sorted@[i]) > 0);
                assert(rows_seq(orig).contains(sorted@[i]));
                let j = choose|j: int|
                    0 <= j < rows_seq(orig).len() && rows_seq(orig)[j] == sorted@[i];
                assert(rows_seq(orig)[j].xyz == orig.xyz_coords@[j]);
                assert(rows_seq(orig)[j].fractional_xyz == orig.fractional_xyz@[j]);
            }
        }
        let r = Self::from_rows(sorted);
        proof {
            assert forall|i: int, j: int| 0 <= i < j < r.size implies r.atomic_nums@[i]
                <= r.atomic_nums@[j] by {
                assert(rows_seq(r)[i].atomic_number == r.atomic_nums@[i]);
                assert(rows_seq(r)[j].atomic_number == r.atomic_nums@[j]);
            }
        }
        r
    }
}

/// Does the pair at `i` match symbol `sym` and number `num`?
pub open spec fn pair_matches(ps: Seq<(Vec<u8>, u8)>, i: int, sym: Seq<u8>, num: u8) -> bool {
    ps[i].0@ == sym && ps[i].1 == num
}

/// Does the entry at `i` name some row of the table?
pub open spec fn entry_from_table<T: ModelInfo>(
    t: AtomCollection<T>,
    ps: Seq<(Vec<u8>, u8)>,
    i: int,
) -> bool {
    exists|j: int|
        0 <= j < t.size && #[trigger] pair_matches(ps, i, t.element_symbols@[j]@, t.atomic_nums@[j])
}

/// Does some entry name the row at `j`?
pub open spec fn row_in_entries<T: ModelInfo>(
    t: AtomCollection<T>,
    ps: Seq<(Vec<u8>, u8)>,
    j: int,
) -> bool {
    exists|i: int|
        0 <= i < ps.len() && #[trigger] pair_matches(ps, i, t.element_symbols@[j]@, t.atomic_nums@[j])
}

impl<T: ModelInfo> AtomCollection<T> {
    /// The distinct element species of the table — symbol and atomic
    /// number pairs with duplicates removed — ordered by atomic number
    /// ascending, as the CELL species tables list them.
    pub fn element_set(&self) -> (r: Vec<(Vec<u8>, u8)>)
        requires
            self.wf(),
        ensures
            forall|i: int| 0 <= i < r@.len() ==> #[trigger] entry_from_table(*self, r@, i),
            forall|j: int| 0 <= j < self.size ==> #[trigger] row_in_entries(*self, r@, j),
            forall|i: int, k: int|
                0 <= i < k < r@.len() ==> !((#[trigger] r@[i]).0@ == (#[trigger] r@[k]).0@
                    && r@[i].1 == r@[k].1),
            forall|i: int, k: int|
                0 <= i < k < r@.len() ==> (#[trigger] r@[i]).1 <= (#[trigger] r@[k]).1,
    {
        let mut out: Vec<(Vec<u8>, u8)> = Vec::new();
        let mut j: usize = 0;
        while j < self.size
            invariant
                j <= self.size,
                self.wf(),
                forall|i: int| 0 <= i < out@.len() ==> #[trigger] entry_from_table(*self, out@, i),
                forall|j2: int| 0 <= j2 < j ==> #[trigger] row_in_entries(*self, out@, j2),
                forall|a: int, k: int|
                    0 <= a < k < out@.len() ==> !((#[trigger] out@[a]).0@ == (
                    #[trigger] out@[k]).0@ && out@[a].1 == out@[k].1),
                forall|a: int, k: int|
                    0 <= a < k < out@.len() ==> (#[trigger] out@[a]).1 <= (#[trigger] out@[k]).1,
            decreases self.size - j,
        {
            let sym = &self.element_symbols[j];
            let num = self.atomic_nums[j];
            let mut found = false;
            let mut i: usize = 0;
            while i < out.len()
                invariant
                    i <= out@.len(),
                    sym@ == self.element_symbols@[j as int]@,
                    num == self.atomic_nums@[j as int],
                    j < self.size,
                    self.wf(),
                    found <==> exists|i2: int|
                        0 <= i2 < i && #[trigger] pair_matches(out@, i2, sym@, num),
                    forall|i2: int|
                        0 <= i2 < out@.len() ==> #[trigger] entry_from_table(*self, out@, i2),
                    forall|j2: int| 0 <= j2 < j ==> #[trigger] row_in_entries(*self, out@, j2),
                    forall|a: int, k: int|
                        0 <= a < k < out@.len() ==> !((#[trigger] out@[a]).0@ == (
                        #[trigger] out@[k]).0@ && out@[a].1 == out@[k].1),
                    forall|a: int, k: int|
                        0 <= a < k < out@.len() ==> (#[trigger] out@[a]).1 <= (
                        #[trigger] out@[k]).1,
                decreases out@.len() - i,
            {
                if crate::extract::bytes_eq(&out[i].0, sym) && out[i].1 == num {
                    proof {
                        assert(pair_matches(out@, i as int, sym@, num));
                    }
                    found = true;
                }
                i = i + 1;
            }
            if !found {
                let mut p: usize = 0;
                while p < out.len() && out[p].1 <= num
                    invariant
                        p <= out@.len(),
                        forall|q: int| 0 <= q < p ==> (#[trigger] out@[q]).1 <= num,
                        j < self.size,
                        self.wf(),
                        sym@ == self.element_symbols@[j as int]@,
                        num == self.atomic_nums@[j as int],
                        !(exists|i2: int|
                            0 <= i2 < out@.len() && #[trigger] pair_matches(
                                out@,
                                i2,
                                sym@,
                                num,
                            )),
                        forall|i2: int|
                            0 <= i2 < out@.len() ==> #[trigger] entry_from_table(
                                *self,
                                out@,
                                i2,
                            ),
                        forall|j2: int|
                            0 <= j2 < j ==> #[trigger] row_in_entries(*self, out@, j2),
                        forall|a: int, k: int|
                            0 <= a < k < out@.len() ==> !((#[trigger] out@[a]).0@ == (
                            #[trigger] out@[k]).0@ && out@[a].1 == out@[k].1),
                        forall|a: int, k: int|
                            0 <= a < k < out@.len() ==> (#[trigger] out@[a]).1 <= (
                            #[trigger] out@[k]).1,
                    decreases out@.len() - p,
                {
                    p = p + 1;
                }
                let ghost pre = out@;
                out.insert(p, (clone_bytes(sym), num));
                proof {
                    assert(out@[p as int].0@ == sym@ && out@[p as int].1 == num);
                    assert(forall|q: int| 0 <= q < p ==> out@[q] == pre[q]);
                    assert(forall|q: int| p < q < out@.len() ==> out@[q] == pre[q - 1]);
                    // The new entry stands between the smaller and larger
                    // keys, so the order is kept.
                    assert forall|a: int, k: int| 0 <= a < k < out@.len() implies (
                    #[trigger] out@[a]).1 <= (#[trigger] out@[k]).1 by {
                        if a < p && k > p {
                            assert(out@[a] == pre[a] && out@[k] == pre[k - 1]);
                            if p < pre.len() {
                                assert(pre[p as int].1 > num);
                            }
                        }
                    }
                    // No earlier entry equals the new pair, so entries stay
                    // pairwise distinct.
                    assert forall|a: int, k: int| 0 <= a < k < out@.len() implies !((
                    #[trigger] out@[a]).0@ == (#[trigger] out@[k]).0@ && out@[a].1
                        == out@[k].1) by {
                        if a == p && k > p {
                            assert(out@[k] == pre[k - 1]);
                            assert(!pair_matches(pre, k - 1, sym@, num));
                        } else if k == p && a < p {
                            assert(out@[a] == pre[a]);
                            assert(!pair_matches(pre, a, sym@, num));
                        } else if a < p && k < p {
                            assert(out@[a] == pre[a] && out@[k] == pre[k]);
                        } else if a > p && k > p {
                            assert(out@[a] == pre[a - 1] && out@[k] == pre[k - 1]);
                        } else if a < p && k > p {
                            assert(out@[a] == pre[a] && out@[k] == pre[k - 1]);
                        }
                    }
                    // Every earlier row still has its entry, at its old or
                    // shifted position.
                    assert forall|j2: int| 0 <= j2 < j + 1 implies #[trigger] row_in_entries(
                        *self,
                        out@,
                        j2,
                    ) by {
                        if j2 == j {
                            assert(pair_matches(
                                out@,
                                p as int,
                                self.element_symbols@[j2]@,
                                self.atomic_nums@[j2],
                            ));
                        } else {
                            assert(row_in_entries(*self, pre, j2));
                            let w = choose|w: int|
                                0 <= w < pre.len() && #[trigger] pair_matches(
                                    pre,
                                    w,
                                    self.element_symbols@[j2]@,
                                    self.atomic_nums@[j2],
                                );
                            if w < p {
                                assert(pair_matches(
                                    out@,
                                    w,
                                    self.element_symbols@[j2]@,
                                    self.atomic_nums@[j2],
                                ));
                            } else {
                                assert(out@[w + 1] == pre[w]);
                                assert(pair_matches(
                                    out@,
                                    w + 1,
                                    self.element_symbols@[j2]@,
                                    self.atomic_nums@[j2],
                                ));
                            }
                        }
                    }
                    // Every entry still names a row.
                    assert forall|i2: int| 0 <= i2 < out@.len() implies #[trigger] entry_from_table(
                        *self,
                        out@,
                        i2,
                    ) by {
                        if i2 == p {
                            assert(pair_matches(
                                out@,
                                i2,
                                self.element_symbols@[j as int]@,
                                self.atomic_nums@[j as int],
                            ));
                        } else {
                            let i_old: int = if i2 < p {
                                i2
                            } else {
                                i2 - 1
                            };
                            assert(entry_from_table(*self, pre, i_old));
                            let w = choose|w: int|
                                0 <= w < self.size && #[trigger] pair_matches(
                                    pre,
                                    i_old,
                                    self.element_symbols@[w]@,
                                    self.atomic_nums@[w],
                                );
                            assert(out@[i2] == pre[i_old]);
                            assert(pair_matches(
                                out@,
                                i2,
                                self.element_symbols@[w]@,
                                self.atomic_nums@[w],
                            ));
                        }
                    }
                }
            }
            proof {
                if found {
                    let w = choose|i2: int|
                        0 <= i2 < out@.len() && #[trigger] pair_matches(out@, i2, sym@, num);
                    assert forall|j2: int| 0 <= j2 < j + 1 implies #[trigger] row_in_entries(
                        *self,
                        out@,
                        j2,
                    ) by {
                        if j2 == j {
                            assert(pair_matches(
                                out@,
                                w,
                                self.element_symbols@[j2]@,
                                self.atomic_nums@[j2],
                            ));
                        }
                    }
                }
            }
            j = j + 1;
        }
        out
    }
}

/// The key a sort compares: the atom id, or the atomic number.
pub open spec fn sort_key<T: ModelInfo>(by_id: bool, a: Atom<T>) -> int {
    if by_id {
        a.atom_id as int
    } else {
        a.atomic_number as int
    }
}

/// Sorts rows by the chosen key, ascending, keeping them as a multiset.
fn sort_rows<T: ModelInfo>(rows: Vec<Atom<T>>, by_id: bool) -> (r: Vec<Atom<T>>)
    ensures
        r@.to_multiset() == rows@.to_multiset(),
        r@.len() == rows@.len(),
        forall|i: int, j: int|
            0 <= i < j < r@.len() ==> sort_key(by_id, #[trigger] r@[i]) <= sort_key(
                by_id,
                #[trigger] r@[j],
            ),
{
    broadcast use vstd::seq_lib::group_to_multiset_ensures;

    let mut src = rows;
    let ghost given = src@;
    let mut out: Vec<Atom<T>> = Vec::new();
    proof {
        assert(out@.to_multiset().add(src@.to_multiset()) =~= given.to_multiset());
    }
    while src.len() > 0
        invariant
            out@.to_multiset().add(src@.to_multiset()) == given.to_multiset(),
            out@.len() + src@.len() == given.len(),
            forall|i: int, j: int|
                0 <= i < j < out@.len() ==> sort_key(by_id, #[trigger] out@[i]) <= sort_key(
                    by_id,
                    #[trigger] out@[j],
                ),
            forall|i: int, j: int|
                0 <= i < out@.len() && 0 <= j < src@.len() ==> sort_key(by_id, #[trigger] out@[i])
                    <= sort_key(by_id, #[trigger] src@[j]),
        decreases src@.len(),
    {
        // Find the first row with the least key.
        let mut m: usize = 0;
        let mut k: usize = 1;
        while k < src.len()
            invariant
                m < src@.len(),
                k <= src@.len(),
                src@.len() > 0,
                forall|i: int|
                    0 <= i < k && i < src@.len() ==> sort_key(by_id, src@[m as int]) <= sort_key(
                        by_id,
                        #[trigger] src@[i],
                    ),
            decreases src@.len() - k,
        {
            let smaller: bool = if by_id {
                src[k].atom_id < src[m].atom_id
            } else {
                src[k].atomic_number < src[m].atomic_number
            };
            if smaller {
                m = k;
            }
            k = k + 1;
        }
        let ghost pre = src@;
        let ghost pre_out = out@;
        let x = src.remove(m);
        out.push(x);
        proof {
            pre.to_multiset_ensures();
            pre_out.to_multiset_ensures();
            assert(src@ == pre.remove(m as int));
            assert(pre.remove(m as int).to_multiset() =~= pre.to_multiset().remove(
                pre[m as int],
            ));
            assert(out@ == pre_out.push(x));
            assert(pre_out.push(x).to_multiset() =~= pre_out.to_multiset().insert(x));
            assert(pre.contains(x)) by {
                assert(pre[m as int] == x);
            }
            assert(pre.to_multiset().count(x) > 0);
            assert(out@.to_multiset().add(src@.to_multiset()) =~= pre_out.to_multiset().add(
                pre.to_multiset(),
            ));
            // The removed row carries the least key of what was left, so
            // both order invariants are kept.
            assert forall|i: int, j: int|
                0 <= i < out@.len() && 0 <= j < src@.len() implies sort_key(
                by_id,
                #[trigger] out@[i],
            ) <= sort_key(by_id, #[trigger] src@[j]) by {
                if j < m {
                    assert(src@[j] == pre[j]);
                } else {
                    assert(src@[j] == pre[j + 1]);
                }
                if i < out@.len() - 1 {
                    assert(out@[i] == pre_out[i]);
                } else {
                    assert(out@[i] == x);
                }
            }
            assert forall|i: int, j: int| 0 <= i < j < out@.len() implies sort_key(
                by_id,
                #[trigger] out@[i],
            ) <= sort_key(by_id, #[trigger] out@[j]) by {
                if j < out@.len() - 1 {
                    assert(out@[i] == pre_out[i] && out@[j] == pre_out[j]);
                } else {
                    assert(out@[i] == pre_out[i] && out@[j] == x && x == pre[m as int]);
                }
            }
        }
    }
    proof {
        assert(src@.to_multiset() =~= vstd::multiset::Multiset::<Atom<T>>::empty());
        assert(out@.to_multiset() =~= given.to_multiset());
    }
    out
}

/// The largest id in a column, `0` when it is empty.
pub open spec fn spec_max_id(ids: Seq<u32>) -> int
    decreases ids.len(),
{
    if ids.len() == 0 {
        0
    } else {
        let pre = spec_max_id(ids.drop_last());
        if ids.last() > pre {
            ids.last() as int
        } else {
            pre
        }
    }
}

} // verus!
