//! Compiler for privacy-preserving contracts: contract syntax to circuit
//! instructions and host-side transcript builders.
pub mod access_laws;
pub mod agreement_laws;
pub mod aligned;
pub mod attrs;
pub mod body;
pub mod body_laws;
pub mod bundle;
pub mod circuit_laws;
pub mod code;
pub mod codegen;
pub mod containers;
pub mod contract;
pub mod decl_laws;
pub mod declared_laws;
pub mod declaring;
pub mod deploy_codegen;
pub mod deploy_laws;
pub mod emission;
pub mod emission_laws;
pub mod error;
pub mod event_laws;
pub mod expr;
pub mod get_laws;
pub mod group_laws;
pub mod helper_graph;
pub mod host_laws;
pub mod host_value_laws;
pub mod layout_laws;
pub mod ledger_free;
pub mod lowering;
pub mod lowering_laws;
pub mod machine;
pub mod merkle_laws;
pub mod names;
pub mod nocturne_type;
pub mod operation_groups;
pub mod operation_laws;
pub mod order_laws;
pub mod parse;
pub mod parse_body;
pub mod parse_laws;
pub mod permutation_laws;
pub mod place_laws;
pub mod private_events;
pub mod private_inputs;
pub mod program_laws;
pub mod reading;
pub mod renaming_laws;
pub mod snippets;
pub mod source_laws;
pub mod splice_laws;
pub mod statement_laws;
pub mod syntax;
pub mod text;
pub mod transcript;
pub mod transcript_codegen;
pub mod transcript_laws;
pub mod transcript_values;
pub mod typing;
pub mod value_laws;
pub mod vm_laws;
pub mod vm_ops;
pub mod walk_laws;
pub mod witness_free;
pub mod witness_laws;
pub mod yields;
pub mod zkir;
pub mod zkir_emitter;
