//! All artifacts of a contract.
use crate::contract::{ContractIR, ContractV};
use crate::lowering::{circuit_output, contract_errors};
use crate::zkir_emitter::{emit_contract, ContractZkirOutput};
use vstd::prelude::*;

verus! {

/// All generated artifacts for a single contract.
pub struct ContractArtifacts {
    /// The circuits, one per circuit function.
    pub zkir: ContractZkirOutput,
    /// Contract metadata JSON.
    pub contract_info_json: String,
}

/// Whether every circuit of a contract lowers without an error.
pub open spec fn lowers(cx: ContractV) -> bool {
    contract_errors(cx, cx.circuits.len()).len() == 0
}

/// Generates all artifacts for a contract; `contract_info_json` is its
/// serialized metadata.
///
/// Returns `Err` with the collected emission errors when any circuit contains
/// a construct that cannot be lowered soundly. Callers must fail compilation
/// on `Err`: a circuit with silently dropped constructs would let a proof
/// verify while enforcing less than the contract source.
pub fn generate_artifacts(
    contract: &ContractIR,
    contract_info_json: String,
) -> (r: Result<ContractArtifacts, Vec<String>>)
    ensures
        r is Ok <==> lowers(contract@),
        match r {
            Ok(a) => a.contract_info_json@ == contract_info_json@ && a.zkir.errors@.len() == 0
                && a.zkir.circuits.deep_view() == Seq::new(
                contract@.circuits.len(),
                |i: int| circuit_output(contract@, contract@.circuits[i]),
            ),
            Err(errors) => errors.deep_view() == contract_errors(contract@, contract@.circuits.len()),
        },
{
    let zkir = emit_contract(contract);
    assert(zkir.errors.deep_view().len() == zkir.errors@.len());
    if zkir.errors.len() != 0 {
        return Err(zkir.errors);
    }
    Ok(ContractArtifacts { zkir, contract_info_json })
}

} // verus!
