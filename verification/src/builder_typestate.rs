//! Typestate markers for staged builders: a field is assigned or it is not,
//! and only a fully assigned builder can finish.
use vstd::prelude::*;

verus! {

/// The stage is done.
#[derive(Debug)]
pub struct Yes;

/// The stage is still open.
#[derive(Debug)]
pub struct No;

/// A stage marker.
pub trait ToAssign {

}

/// A stage marker of a completed stage.
pub trait Assigned: ToAssign {

}

/// A stage marker of an open stage.
pub trait NotAssigned: ToAssign {

}

impl ToAssign for Yes {

}

impl ToAssign for No {

}

impl Assigned for Yes {

}

impl NotAssigned for No {

}

} // verus!
