//! Contract bundle: what a deployment tool needs to deploy a contract and call
//! its circuits. The circuits per entry point, the contract metadata and the
//! entry point names.
use crate::codegen::{generate_artifacts, lowers};
use crate::contract::{ContractIR, ContractV};
use crate::lowering::{circuit_output, contract_errors};
use crate::names::NameMap;
use crate::zkir::{IrSource, IrSourceV};
use crate::zkir_emitter::ZkirOutput;
use vstd::prelude::*;

verus! {

/// A compiled contract bundle ready for deployment.
pub struct ContractBundle {
    /// Contract name.
    pub name: String,
    /// The circuit per entry point.
    pub circuits: NameMap<IrSource>,
    /// Contract metadata JSON.
    pub contract_info_json: String,
    /// Entry point names (circuit function names).
    pub entry_points: Vec<String>,
}

/// The circuits of the first `n` circuit functions by name; a later function
/// replaces an earlier one of the same name.
pub open spec fn circuit_table(cx: ContractV, n: nat) -> Map<Seq<char>, IrSourceV>
    decreases n,
{
    if n == 0 || n > cx.circuits.len() {
        Map::empty()
    } else {
        circuit_table(cx, (n - 1) as nat).insert(
            cx.circuits[n - 1].name,
            circuit_output(cx, cx.circuits[n - 1]).ir_source,
        )
    }
}

/// Every entry point has its circuit.
pub proof fn every_entry_point_has_a_circuit(cx: ContractV, n: nat, i: int)
    requires
        0 <= i < n <= cx.circuits.len(),
    ensures
        circuit_table(cx, n).contains_key(cx.circuits[i].name),
    decreases n,
{
    if i < n - 1 {
        every_entry_point_has_a_circuit(cx, (n - 1) as nat, i);
    }
}

/// Builds the bundle of a contract; `contract_info_json` is its serialized
/// metadata. Fails, with the emission errors, when a circuit does not lower.
#[verifier::rlimit(50)]
pub fn build_bundle(contract: &ContractIR, contract_info_json: String) -> (r: Result<ContractBundle, Vec<String>>)
    ensures
        r is Ok <==> lowers(contract@),
        match r {
            Ok(b) => {
                &&& b.name@ == contract@.name
                &&& b.circuits@ == circuit_table(contract@, contract@.circuits.len())
                &&& b.contract_info_json@ == contract_info_json@
                &&& b.entry_points.deep_view() == Seq::new(
                    contract@.circuits.len(),
                    |i: int| contract@.circuits[i].name,
                )
            },
            Err(errors) => errors.deep_view() == contract_errors(contract@, contract@.circuits.len()),
        },
{
    let artifacts = match generate_artifacts(contract, contract_info_json) {
        Ok(a) => a,
        Err(errors) => {
            return Err(errors);
        }
    };
    let ghost cs = contract@.circuits;
    let mut rest: Vec<ZkirOutput> = artifacts.zkir.circuits;
    assert(rest.deep_view().len() == rest@.len());
    let mut circuits: NameMap<IrSource> = NameMap::new();
    let mut entry_points: Vec<String> = Vec::new();
    let mut i: usize = 0;
    proof {
        assert forall|j: int| 0 <= j < rest@.len() implies (#[trigger] rest@[j])@ == circuit_output(
            contract@,
            cs[j],
        ) by {
            assert(rest.deep_view()[j] == rest@[j]@);
        }
    }
    while i < contract.circuits.len()
        invariant
            i <= contract.circuits@.len(),
            cs == contract@.circuits,
            cs.len() == contract.circuits@.len(),
            rest@.len() == cs.len() - i,
            forall|j: int|
                0 <= j < rest@.len() ==> (#[trigger] rest@[j])@ == circuit_output(contract@, cs[j + i]),
            circuits@ == circuit_table(contract@, i as nat),
            entry_points@.len() == i,
            forall|j: int| 0 <= j < i ==> (#[trigger] entry_points@[j])@ == cs[j].name,
        decreases contract.circuits@.len() - i,
    {
        assert(cs[i as int] == contract.circuits@[i as int].deep_view());
        let ghost before = rest@;
        assert(before[0]@ == circuit_output(contract@, cs[0 + i]));
        let c = rest.remove(0);
        assert forall|j: int| 0 <= j < rest@.len() implies (#[trigger] rest@[j])@ == circuit_output(
            contract@,
            cs[j + i + 1],
        ) by {
            assert(rest@[j] == before[j + 1]);
        }
        circuits.insert(c.circuit_name, c.ir_source);
        entry_points.push(contract.circuits[i].name.clone());
        i += 1;
    }
    assert(entry_points.deep_view() =~= Seq::new(cs.len(), |i: int| cs[i].name));
    Ok(
        ContractBundle {
            name: contract.name.clone(),
            circuits,
            contract_info_json: artifacts.contract_info_json,
            entry_points,
        },
    )
}

} // verus!
