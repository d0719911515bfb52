//! Lattice basis vectors and the whole structural model.
use vstd::prelude::*;
use core::marker::PhantomData;
use crate::atom::AtomCollection;
use crate::atom::Coord3;
use crate::atom::spec_max_id;
use crate::error::InvalidIndex;
use crate::model_type::ModelInfo;
use crate::model_type::Settings;

verus! {

/// The three cartesian basis vectors of a periodic cell.
#[derive(Debug)]
pub struct LatticeVectors<T: ModelInfo> {
    /// Basis vector a.
    pub a: Coord3,
    /// Basis vector b.
    pub b: Coord3,
    /// Basis vector c.
    pub c: Coord3,
    /// Dialect marker.
    pub model_type: PhantomData<T>,
}

impl<T: ModelInfo> LatticeVectors<T> {
    /// All components are well-formed decimals.
    pub open spec fn wf(self) -> bool {
        self.a.wf() && self.b.wf() && self.c.wf()
    }

    /// Wraps three basis vectors.
    pub fn new(a: Coord3, b: Coord3, c: Coord3) -> (r: Self)
        ensures
            r.a == a,
            r.b == b,
            r.c == c,
    {
        LatticeVectors { a, b, c, model_type: PhantomData }
    }

    /// Basis vector a.
    pub fn vector_a(&self) -> (r: &Coord3)
        ensures
            r == self.a,
    {
        &self.a
    }

    /// Basis vector b.
    pub fn vector_b(&self) -> (r: &Coord3)
        ensures
            r == self.b,
    {
        &self.b
    }

    /// Basis vector c.
    pub fn vector_c(&self) -> (r: &Coord3)
        ensures
            r == self.c,
    {
        &self.c
    }

    /// Replaces the basis wholesale, as a rotation does.
    pub fn set_vectors(&mut self, a: Coord3, b: Coord3, c: Coord3)
        ensures
            final(self).a == a,
            final(self).b == b,
            final(self).c == c,
    {
        self.a = a;
        self.b = b;
        self.c = c;
    }

    /// Does basis vector a already lie along the positive x axis?  Exactly
    /// then the angle from a to that axis is zero, and the alignment
    /// rotation of the conversion to the CELL dialect must be skipped.
    pub fn a_along_x(&self) -> (r: bool)
        ensures
            r <==> (self.a.y.is_zero() && self.a.z.is_zero() && self.a.x.is_positive()),
    {
        self.a.y.check_zero() && self.a.z.check_zero() && !self.a.x.neg && !self.a.x.check_zero()
    }

    /// Does basis vector b already lie along the positive y axis?  Exactly
    /// then the angle from b to that axis is zero, and the alignment
    /// rotation of the conversion back to the MSI dialect must be skipped.
    pub fn b_along_y(&self) -> (r: bool)
        ensures
            r <==> (self.b.x.is_zero() && self.b.z.is_zero() && self.b.y.is_positive()),
    {
        self.b.x.check_zero() && self.b.z.check_zero() && !self.b.y.neg && !self.b.y.check_zero()
    }
}

/// A whole structural model: an optional lattice basis, the atom table,
/// and the settings, tagged by the dialect marker.
#[derive(Debug)]
pub struct LatticeModel<T: ModelInfo> {
    /// The lattice basis, absent for a non-periodic structure.
    pub lattice_vectors: Option<LatticeVectors<T>>,
    /// The atom table.
    pub atoms: AtomCollection<T>,
    /// The model settings.
    pub settings: Settings<T>,
}

impl<T: ModelInfo> LatticeModel<T> {
    /// The parts are well-formed.
    pub open spec fn wf(self) -> bool {
        &&& (self.lattice_vectors matches Some(v) ==> v.wf())
        &&& self.atoms.wf()
        &&& self.settings.wf()
    }

    /// Assembles a model from its parts.
    pub fn new(
        lattice_vectors: Option<LatticeVectors<T>>,
        atoms: AtomCollection<T>,
        settings: Settings<T>,
    ) -> (r: Self)
        ensures
            r.lattice_vectors == lattice_vectors,
            r.atoms == atoms,
            r.settings == settings,
    {
        Self { lattice_vectors, atoms, settings }
    }

    /// The lattice basis, when the model is periodic.
    pub fn lattice_vectors(&self) -> (r: &Option<LatticeVectors<T>>)
        ensures
            r == self.lattice_vectors,
    {
        &self.lattice_vectors
    }

    /// The atom table.
    pub fn atoms(&self) -> (r: &AtomCollection<T>)
        ensures
            r == self.atoms,
    {
        &self.atoms
    }

    /// The settings.
    pub fn settings(&self) -> (r: &Settings<T>)
        ensures
            r == self.settings,
    {
        &self.settings
    }

    /// Replaces the whole fractional-coordinate column, as the conversion
    /// does after the transform matrix has been applied; fails exactly when
    /// the column length differs from the atom count.
    pub fn set_fractional_column(&mut self, frac: Vec<Option<Coord3>>) -> (r: Result<
        (),
        InvalidIndex,
    >)
        requires
            old(self).wf(),
            forall|i: int|
                0 <= i < frac@.len() ==> ((#[trigger] frac@[i]) matches Some(c) ==> c.wf()),
        ensures
            final(self).wf(),
            r is Ok <==> frac@.len() == old(self).atoms.size,
            r is Ok ==> *final(self) == (LatticeModel {
                atoms: AtomCollection { fractional_xyz: frac, ..old(self).atoms },
                ..*old(self)
            }),
            r is Err ==> *final(self) == *old(self),
    {
        if frac.len() == self.atoms.size {
            self.atoms.fractional_xyz = frac;
            Ok(())
        } else {
            Err(InvalidIndex)
        }
    }

    /// Merges two models: the atom tables are concatenated with the second
    /// operand's ids shifted past the first's largest id, and the first
    /// operand's lattice and settings are kept.
    pub fn merge(self, rhs: Self) -> (r: Self)
        requires
            self.wf(),
            rhs.wf(),
            self.atoms.size + rhs.atoms.size <= usize::MAX,
            forall|i: int|
                0 <= i < rhs.atoms.atom_ids@.len() ==> (#[trigger] rhs.atoms.atom_ids@[i])
                    + spec_max_id(self.atoms.atom_ids@) <= u32::MAX,
        ensures
            r.wf(),
            r.lattice_vectors == self.lattice_vectors,
            r.settings == self.settings,
            r.atoms.size == self.atoms.size + rhs.atoms.size,
            r.atoms.element_symbols@ == self.atoms.element_symbols@ + rhs.atoms.element_symbols@,
            r.atoms.atomic_nums@ == self.atoms.atomic_nums@ + rhs.atoms.atomic_nums@,
            r.atoms.xyz_coords@ == self.atoms.xyz_coords@ + rhs.atoms.xyz_coords@,
            r.atoms.atom_ids@.len() == self.atoms.atom_ids@.len() + rhs.atoms.atom_ids@.len(),
            forall|i: int|
                0 <= i < self.atoms.atom_ids@.len() ==> (#[trigger] r.atoms.atom_ids@[i])
                    == self.atoms.atom_ids@[i],
            forall|i: int|
                0 <= i < rhs.atoms.atom_ids@.len() ==> (#[trigger] r.atoms.atom_ids@[self.atoms.atom_ids@.len()
                    + i]) == rhs.atoms.atom_ids@[i] + spec_max_id(self.atoms.atom_ids@),
    {
        let Self { lattice_vectors, atoms, settings } = self;
        let new_atoms = atoms.merge(rhs.atoms);
        Self { lattice_vectors, atoms: new_atoms, settings }
    }
}

} // verus!
