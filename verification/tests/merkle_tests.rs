use merkle::circuit::{merkle_circuit, verify, MerkleError};
use merkle::field::{felt_from_limbs, felt_from_u64, mux1, mux_hash, simple_hash, Felt};
use merkle::step::{step_constraint_list, ConstraintKind, StepKind};
use merkle::witness::{merkle_super_circuit, witness, Inputs};

fn all_ones_inputs(n: usize, root: Felt) -> Inputs {
    Inputs {
        leaf: felt_from_u64(1),
        root,
        path_indices: vec![felt_from_u64(1); n],
        siblings: vec![felt_from_u64(1); n],
    }
}

// The hash chain 1, 931*1 + 2358, ... : the value after k applications of
// simple_hash(h, 1) starting from 1.
fn chain(k: usize) -> u64 {
    let mut h: u64 = 1;
    for _ in 0..k {
        h = 931 * h + 2358;
    }
    h
}

#[test]
fn simple_hash_concrete() {
    let r = simple_hash(felt_from_u64(1), felt_from_u64(1));
    assert_eq!(r, felt_from_u64(3289));
    let r2 = simple_hash(felt_from_u64(2), felt_from_u64(3));
    assert_eq!(r2, felt_from_u64(931 * 2 + 2358 * 3));
}

#[test]
fn mux1_selects() {
    let a = felt_from_u64(5);
    let b = felt_from_u64(9);
    assert_eq!(mux1(a, b, felt_from_u64(1)), a);
    assert_eq!(mux1(a, b, felt_from_u64(0)), b);
}

#[test]
fn mux_hash_orders_operands() {
    let a = felt_from_u64(17);
    let b = felt_from_u64(23);
    assert_eq!(mux_hash(a, b, felt_from_u64(1)), simple_hash(a, b));
    assert_eq!(mux_hash(a, b, felt_from_u64(0)), simple_hash(b, a));
}

#[test]
fn from_limbs_reduces_modulo_order() {
    // The field order itself reduces to zero, and order + 5 to 5.
    let zero = felt_from_limbs(
        0x43e1f593f0000001,
        0x2833e84879b97091,
        0xb85045b68181585d,
        0x30644e72e131a029,
    );
    assert_eq!(zero, felt_from_u64(0));
    let five = felt_from_limbs(
        0x43e1f593f0000001 + 5,
        0x2833e84879b97091,
        0xb85045b68181585d,
        0x30644e72e131a029,
    );
    assert_eq!(five, felt_from_u64(5));
}

#[test]
fn witness_rejects_zero_levels() {
    let inputs = all_ones_inputs(0, felt_from_u64(1));
    assert_eq!(witness(&inputs, 0).unwrap_err(), MerkleError::ZeroLevels);
    assert!(merkle_circuit(0).is_err());
    assert_eq!(
        merkle_super_circuit(&inputs, 0).unwrap_err(),
        MerkleError::ZeroLevels
    );
}

#[test]
fn witness_rejects_wrong_lengths() {
    let mut inputs = all_ones_inputs(5, felt_from_u64(1));
    inputs.path_indices.pop();
    assert_eq!(
        witness(&inputs, 5).unwrap_err(),
        MerkleError::PathIndicesLength
    );
    let mut inputs2 = all_ones_inputs(5, felt_from_u64(1));
    inputs2.siblings.push(felt_from_u64(1));
    assert_eq!(
        witness(&inputs2, 5).unwrap_err(),
        MerkleError::SiblingsLength
    );
}

#[test]
fn witness_rows_carry_the_fold() {
    let n = 7;
    let inputs = all_ones_inputs(n, felt_from_u64(chain(n - 1)));
    let rows = witness(&inputs, n).unwrap();
    assert_eq!(rows.len(), n);
    for (i, row) in rows.iter().enumerate() {
        assert_eq!(row.leaf, felt_from_u64(1));
        assert_eq!(row.root, felt_from_u64(chain(n - 1)));
        assert_eq!(row.path_index, felt_from_u64(1));
        assert_eq!(row.sibling, felt_from_u64(1));
        assert_eq!(row.hash, felt_from_u64(chain(i)));
    }
}

#[test]
fn true_root_satisfies_circuit() {
    let n = 7;
    let inputs = all_ones_inputs(n, felt_from_u64(chain(n - 1)));
    let (circuit, rows) = merkle_super_circuit(&inputs, n).unwrap();
    assert!(verify(&circuit, &rows));
}

#[test]
fn wrong_root_fails_terminal_equality() {
    let n = 7;
    let inputs = all_ones_inputs(n, felt_from_u64(1));
    let (circuit, rows) = merkle_super_circuit(&inputs, n).unwrap();
    assert!(!verify(&circuit, &rows));
}

#[test]
fn tampered_sibling_fails() {
    let n = 7;
    let mut inputs = all_ones_inputs(n, felt_from_u64(chain(n - 1)));
    inputs.siblings[2] = felt_from_u64(7);
    let (circuit, rows) = merkle_super_circuit(&inputs, n).unwrap();
    assert!(!verify(&circuit, &rows));
}

#[test]
fn tampered_leaf_fails() {
    let n = 7;
    let mut inputs = all_ones_inputs(n, felt_from_u64(chain(n - 1)));
    inputs.leaf = felt_from_u64(2);
    let (circuit, rows) = merkle_super_circuit(&inputs, n).unwrap();
    assert!(!verify(&circuit, &rows));
}

#[test]
fn nonboolean_path_index_fails() {
    let n = 7;
    let mut inputs = all_ones_inputs(n, felt_from_u64(chain(n - 1)));
    inputs.path_indices[3] = felt_from_u64(2);
    let (circuit, rows) = merkle_super_circuit(&inputs, n).unwrap();
    assert!(!verify(&circuit, &rows));
}

#[test]
fn single_level_boundary() {
    // With one row the single template is terminal: the verdict is
    // `root == leaf` (no level is folded by a transition) with a boolean
    // selector.
    let inputs = Inputs {
        leaf: felt_from_u64(4),
        root: felt_from_u64(4),
        path_indices: vec![felt_from_u64(1)],
        siblings: vec![felt_from_u64(9)],
    };
    let (circuit, rows) = merkle_super_circuit(&inputs, 1).unwrap();
    assert_eq!(rows.len(), 1);
    assert!(verify(&circuit, &rows));
    let mut tampered = inputs.clone();
    tampered.root = felt_from_u64(5);
    let (circuit2, rows2) = merkle_super_circuit(&tampered, 1).unwrap();
    assert!(!verify(&circuit2, &rows2));
}

#[test]
fn witness_is_deterministic() {
    let n = 11;
    let inputs = all_ones_inputs(n, felt_from_u64(1));
    let rows1 = witness(&inputs, n).unwrap();
    let rows2 = witness(&inputs, n).unwrap();
    assert_eq!(rows1, rows2);
}

#[test]
fn eleven_levels_all_ones() {
    // After ten applications of h -> 931*h + 2358 starting from 1 the chain
    // value is 1729599974186173894476955699681, which no longer fits u64.
    let n = 11;
    let true_root = felt_from_limbs(0x2d154cd641c0c9e1, 0x15d4a390ed, 0, 0);
    let inputs = all_ones_inputs(n, true_root);
    let (circuit, rows) = merkle_super_circuit(&inputs, n).unwrap();
    assert!(verify(&circuit, &rows));

    // The fixed example with root = 1 is not satisfiable.
    let ones = all_ones_inputs(n, felt_from_u64(1));
    let (circuit2, rows2) = merkle_super_circuit(&ones, n).unwrap();
    assert!(!verify(&circuit2, &rows2));
}

#[test]
fn circuit_template_layout() {
    let circuit = merkle_circuit(4).unwrap();
    assert_eq!(circuit.row_count(), 4);
    assert_eq!(circuit.template_at(0), StepKind::First);
    assert_eq!(circuit.template_at(1), StepKind::Middle);
    assert_eq!(circuit.template_at(2), StepKind::Middle);
    assert_eq!(circuit.template_at(3), StepKind::Last);
    let single = merkle_circuit(1).unwrap();
    assert_eq!(single.row_count(), 1);
    assert_eq!(single.template_at(0), StepKind::Last);
}

#[test]
fn declared_constraint_lists() {
    assert_eq!(
        step_constraint_list(StepKind::First),
        vec![ConstraintKind::BooleanSelector, ConstraintKind::HashTransition]
    );
    assert_eq!(
        step_constraint_list(StepKind::Middle),
        vec![ConstraintKind::BooleanSelector, ConstraintKind::HashTransition]
    );
    assert_eq!(
        step_constraint_list(StepKind::Last),
        vec![ConstraintKind::BooleanSelector, ConstraintKind::RootEquality]
    );
}

#[test]
fn verify_rejects_length_mismatch() {
    let n = 7;
    let inputs = all_ones_inputs(n, felt_from_u64(chain(n - 1)));
    let rows = witness(&inputs, n).unwrap();
    let smaller = merkle_circuit(n - 1).unwrap();
    assert!(!verify(&smaller, &rows));
}
