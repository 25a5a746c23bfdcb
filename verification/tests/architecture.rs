//! Shapes that follow from an architecture.

use crown_snark::architecture::{
    activation_neuron_count, activation_step_metadata, chain_a_cols, chain_len,
    check_activation_chain_shape, linear_step_metadata, relaxation_n_vars, step_counts,
};
use crown_snark::errors::SnarkError;
use crown_snark::network::{ActivationKind, LayerShape, NetworkArchitecture, Property};
use crown_snark::shapes::{n_vars_from_logs, native_matrix_n_vars, native_vector_n_vars};

fn arch() -> NetworkArchitecture {
    NetworkArchitecture {
        layers: vec![
            LayerShape::Linear { in_dim: 5, out_dim: 17 },
            LayerShape::Activation { kind: ActivationKind::Tanh },
            LayerShape::Linear { in_dim: 17, out_dim: 4 },
            LayerShape::Activation { kind: ActivationKind::ReLU },
        ],
    }
}

#[test]
fn widths_are_walked_from_the_output() {
    assert_eq!(chain_a_cols(&arch()), vec![5, 17, 17, 4, 4]);
    assert_eq!(activation_neuron_count(&arch(), 1), 17);
    assert_eq!(activation_neuron_count(&arch(), 3), 4);
    assert_eq!(relaxation_n_vars(&arch(), 1), 6);
    assert_eq!(relaxation_n_vars(&arch(), 3), 2);
    assert_eq!(step_counts(&arch()), (2, 2));
    assert_eq!(chain_len(&arch()), 5);
    assert_eq!(arch().output_dim(), 4);
    assert_eq!(arch().truncate_to(1).output_dim(), 17);
    assert_eq!(NetworkArchitecture { layers: vec![] }.output_dim(), 0);
}

#[test]
fn steps_have_canonical_shapes() {
    let property = Property { rows: 3, cols: 4 };
    assert_eq!(
        linear_step_metadata(&arch(), &property),
        vec![(2, (2, 2), (2, 5)), (0, (2, 5), (5, 3))]
    );
    let steps = activation_step_metadata(&arch(), &property);
    assert_eq!(steps, vec![(3, (2, 2)), (1, (2, 5))]);
    check_activation_chain_shape(&steps, &arch(), &property).expect("canonical");
    let mut wrong = steps.clone();
    wrong[1].1 .0 += 1;
    assert!(matches!(
        check_activation_chain_shape(&wrong, &arch(), &property),
        Err(SnarkError::ArchitectureMismatch { what: "activation step (layer_idx, dims) mismatch" })
    ));
    assert!(matches!(
        check_activation_chain_shape(&[], &arch(), &property),
        Err(SnarkError::ArchitectureMismatch {
            what: "activation step count != n_activation in network"
        })
    ));
}

#[test]
fn tensors_are_committed_with_even_numbers_of_variables() {
    assert_eq!(native_vector_n_vars(0), 2);
    assert_eq!(native_vector_n_vars(4), 2);
    assert_eq!(native_vector_n_vars(5), 4);
    assert_eq!(native_vector_n_vars(17), 6);
    assert_eq!(native_matrix_n_vars(2, 2), 2);
    assert_eq!(native_matrix_n_vars(2, 3), 4);
    assert_eq!(native_matrix_n_vars(4, 9), 6);
    assert_eq!(n_vars_from_logs(&[]), 2);
    assert_eq!(n_vars_from_logs(&[1, 2]), 4);
    assert_eq!(n_vars_from_logs(&[3, 3]), 6);
}
