//! Bond data: located and skipped by the parser, kept only as raw pairs.
use vstd::prelude::*;
use core::marker::PhantomData;
use crate::model_type::ModelInfo;

verus! {

/// The multiplicity of a bond.
#[derive(Debug, Clone, Copy, PartialEq, Eq, Structural)]
pub enum BondType {
    /// A single bond.
    Single,
    /// A double bond.
    Double,
    /// A triple bond.
    Triple,
}

/// A bond between two atoms, by their ids.
#[derive(Debug, Clone, Copy, PartialEq, Eq, Structural)]
pub struct Bond {
    /// Id of the first atom.
    pub first: u32,
    /// Id of the second atom.
    pub second: u32,
}

/// The bonds of a model, one multiplicity per bond.
#[derive(Debug)]
pub struct Bonds<T: ModelInfo> {
    /// The bonded atom pairs.
    pub bonds: Vec<Bond>,
    /// The multiplicity of each bond.
    pub bond_types: Vec<BondType>,
    /// Dialect marker.
    pub format_type: PhantomData<T>,
}

impl<T: ModelInfo> Bonds<T> {
    /// One multiplicity per bond.
    pub open spec fn wf(self) -> bool {
        self.bonds@.len() == self.bond_types@.len()
    }

    /// An empty bond list.
    pub fn empty() -> (r: Self)
        ensures
            r.wf(),
            r.bonds@.len() == 0,
    {
        Bonds { bonds: Vec::new(), bond_types: Vec::new(), format_type: PhantomData }
    }
}

} // verus!
