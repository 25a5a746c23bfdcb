//! Verified core of a SNARK that checks CROWN neural-network bounds over the
//! BN254 scalar field.

pub mod activation_matrix;
pub mod activation_matrix_prover;
pub mod activation_step;
pub mod activation_step_prover;
pub mod architecture;
pub mod bias_accumulator;
pub mod bias_accumulator_prover;
pub mod binding;
pub mod cert;
pub mod chain;
pub mod chain_init;
pub mod clear_pcs;
pub mod code_products;
pub mod column_set;
pub mod columns;
pub mod commit;
pub mod commit_all;
pub mod commit_laws;
pub mod commit_pass;
pub mod critical_identities;
pub mod critical_parts;
pub mod critical_prover;
pub mod critical_rows;
pub mod critical_witness;
pub mod envelope;
pub mod eq_two_product;
pub mod errors;
pub mod expr;
pub mod field;
pub mod gadget_laws;
pub mod hidden_driver;
pub mod hidden_identity;
pub mod hidden_parts;
pub mod hidden_pass;
pub mod hidden_pass_prover;
pub mod hidden_proving;
pub mod hidden_ready;
pub mod inner_product;
pub mod layer_scale_api;
pub mod linear_chain;
pub mod linear_step;
pub mod linear_step_prover;
pub mod logup;
pub mod lookup_laws;
pub mod lookup_pair;
pub mod matrix_laws;
pub mod mle;
pub mod mle_laws;
pub mod network;
pub mod openings;
pub mod operation_laws;
pub mod params;
pub mod pass_laws;
pub mod pcs;
pub mod picked;
pub mod poly;
pub mod pos_range;
pub mod prover_laws;
pub mod public_binding;
pub mod qarray;
pub mod range_per_tensor;
pub mod refusal_laws;
pub mod relaxation_laws;
pub mod relu_chain;
pub mod relu_d_boolean;
pub mod relu_lookup_1d;
pub mod relu_lower_offset;
pub mod relu_step;
pub mod relu_upper_endpoint;
pub mod ring;
pub mod round_laws;
pub mod scale;
pub mod shape_laws;
pub mod shapes;
pub mod sshape_critical_point;
pub mod sshape_endpoint;
pub mod sshape_endpoint_api;
pub mod sshape_endpoint_prover;
pub mod sshape_helpers;
pub mod sshape_identities;
pub mod sshape_laws;
pub mod sshape_witness;
pub mod statement_laws;
pub mod step_laws;
pub mod sumcheck;
pub mod table_mle;
pub mod trace;
pub mod transcript;
pub mod transcript_laws;
pub mod value_laws;
pub mod zero_check;
