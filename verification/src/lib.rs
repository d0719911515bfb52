//! A verified model of the MSI crystal-structure text dialect: a literal
//! scanner, an order-independent structural parser, semantic extractors, an
//! atom table with a staged builder, and the model-level operations (merge,
//! reordering, serialization) on top of them.
pub mod atom;
pub mod atom_builder;
pub mod bond;
pub mod builder_typestate;
pub mod error;
pub mod export;
pub mod extract;
pub mod format;
pub mod lattice;
pub mod laws;
pub mod model_type;
pub mod numeric;
pub mod scanner;
pub mod state_machine;

use vstd::prelude::*;

verus! {

/// Is the document a parseable MSI model?  It must hold a model scope, the
/// scope must end at its terminator once no field matches any more, and
/// the settings, lattice vectors and atom table must all extract cleanly
/// from the buckets.
pub open spec fn msi_parse_ok(input: Seq<u8>) -> bool {
    match state_machine::model_entry(input) {
        Some(entry) => {
            let fs = state_machine::field_contents(input, entry);
            let fe = state_machine::fields_end(input, entry);
            &&& fe < input.len() && input[fe] == state_machine::RPAREN
            &&& extract::settings_parse_ok(state_machine::attrs_of(fs))
            &&& extract::lattice_parse_ok(state_machine::attrs_of(fs))
            &&& extract::atoms_parse_ok(state_machine::atoms_of(fs))
        },
        None => false,
    }
}

/// Does the model hold exactly what the document describes?  Settings,
/// lattice vectors and atom columns each match the semantic extraction of
/// the buckets that the field walk accumulates.
pub open spec fn msi_parse_result(
    input: Seq<u8>,
    m: lattice::LatticeModel<model_type::MsiModel>,
) -> bool {
    match state_machine::model_entry(input) {
        Some(entry) => {
            let fs = state_machine::field_contents(input, entry);
            &&& extract::spec_settings_result(state_machine::attrs_of(fs), m.settings)
            &&& extract::spec_lattice_result(state_machine::attrs_of(fs), m.lattice_vectors)
            &&& extract::spec_atoms_result(state_machine::atoms_of(fs), m.atoms)
        },
        None => false,
    }
}

/// Parses a whole MSI document into a structural model: enter the model
/// scope, walk its fields in whatever order they come, and extract the
/// settings, the lattice vectors and the atom table.  Succeeds exactly on
/// parseable documents; no partial model is ever returned.
pub fn parse(input: &[u8]) -> (r: Result<
    lattice::LatticeModel<model_type::MsiModel>,
    error::ParseError,
>)
    ensures
        match r {
            Ok(m) => m.wf() && msi_parse_ok(input@) && msi_parse_result(input@, m),
            Err(e) => !msi_parse_ok(input@),
        },
{
    let loaded = state_machine::MsiParser::new(input);
    let started = match loaded.starts() {
        Ok(x) => x,
        Err(e) => {
            return Err(e);
        },
    };
    let analyzed = match started.analyze() {
        Ok(x) => x,
        Err(e) => {
            return Err(e);
        },
    };
    analyzed.build_lattice_model()
}

} // verus!
