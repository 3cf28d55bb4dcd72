//! The laws the circuit obeys, stated over the spec-level model and proved
//! once and for all: the generated witness satisfies the assembled circuit
//! exactly when the claimed root is the true fold, a wrong root or a
//! non-boolean selector leaves the circuit unsatisfied, a single-row circuit
//! answers to both the first and the last template, and the witness
//! generator is deterministic.
use vstd::prelude::*;
use crate::circuit::{
    circuit_satisfied, merkle_rows_satisfy, merkle_templates, opt_next, rows_view,
};
use crate::field::{
    fr_order, lemma_boolean_selector_of_bit, lemma_felt_value_injective,
    lemma_mux_hash_bound, lemma_mux_hash_decomposition, lemma_mux_hash_injective_hash,
    lemma_mux_hash_injective_sibling, lemma_small_nonboolean_selector_violates, spec_mux_hash,
};
use crate::step::{
    boolean_selector_holds, constraint_holds, hash_transition_holds, root_equality_holds,
    step_constraints, step_holds, ConstraintKind, RowValues, RowView, StepKind,
};
use crate::witness::{fold_hash, witness_row, witness_rows, InputsView};

verus! {

/// A first or middle row's template holds exactly when the selector is
/// boolean and the hash transition to the next row (vacuous when there is
/// none) holds.
pub proof fn lemma_step_holds_transitional(k: StepKind, cur: RowView, next: Option<RowView>)
    requires
        k == StepKind::First || k == StepKind::Middle,
    ensures
        step_holds(k, cur, next) == (boolean_selector_holds(cur) && constraint_holds(
            ConstraintKind::HashTransition,
            cur,
            next,
        )),
{
    assert(step_constraints(k)[0] == ConstraintKind::BooleanSelector);
    assert(step_constraints(k)[1] == ConstraintKind::HashTransition);
    if boolean_selector_holds(cur) && constraint_holds(ConstraintKind::HashTransition, cur, next) {
        assert forall|i: int|
            0 <= i < step_constraints(k).len() implies constraint_holds(
            #[trigger] step_constraints(k)[i],
            cur,
            next,
        ) by {
            if i != 0 {
                assert(i == 1);
            }
        }
    }
    if step_holds(k, cur, next) {
        assert(constraint_holds(step_constraints(k)[0], cur, next));
        assert(constraint_holds(step_constraints(k)[1], cur, next));
    }
}

/// The last row's template holds exactly when the selector is boolean and
/// the row's hash equals the claimed root.
pub proof fn lemma_step_holds_last(cur: RowView, next: Option<RowView>)
    ensures
        step_holds(StepKind::Last, cur, next) == (boolean_selector_holds(cur)
            && root_equality_holds(cur)),
{
    let k = StepKind::Last;
    assert(step_constraints(k)[0] == ConstraintKind::BooleanSelector);
    assert(step_constraints(k)[1] == ConstraintKind::RootEquality);
    if boolean_selector_holds(cur) && root_equality_holds(cur) {
        assert forall|i: int|
            0 <= i < step_constraints(k).len() implies constraint_holds(
            #[trigger] step_constraints(k)[i],
            cur,
            next,
        ) by {
            if i != 0 {
                assert(i == 1);
            }
        }
    }
    if step_holds(k, cur, next) {
        assert(constraint_holds(step_constraints(k)[0], cur, next));
        assert(constraint_holds(step_constraints(k)[1], cur, next));
    }
}

/// Backend agreement: checking every constraint declared by the assembled
/// template sequence gives the same verdict as the per-position reading of
/// the Merkle circuit — every selector boolean, every adjacent pair obeying
/// the hash recurrence, and the last row's hash equal to the root.
pub proof fn lemma_backend_agreement(n: nat, rows: Seq<RowView>)
    requires
        rows.len() == n,
        n >= 1,
    ensures
        circuit_satisfied(merkle_templates(n), rows) == merkle_rows_satisfy(rows),
{
    let ts = merkle_templates(n);
    assert(ts.len() == n);
    if circuit_satisfied(ts, rows) {
        assert forall|i: int| 0 <= i < n implies boolean_selector_holds(#[trigger] rows[i]) by {
            assert(step_holds(ts[i], rows[i], opt_next(rows, i)));
            if i == n - 1 {
                lemma_step_holds_last(rows[i], opt_next(rows, i));
            } else {
                lemma_step_holds_transitional(ts[i], rows[i], opt_next(rows, i));
            }
        }
        assert forall|i: int|
            0 <= i < n - 1 implies hash_transition_holds(#[trigger] rows[i], rows[i + 1]) by {
            assert(step_holds(ts[i], rows[i], opt_next(rows, i)));
            lemma_step_holds_transitional(ts[i], rows[i], opt_next(rows, i));
            assert(opt_next(rows, i) == Option::Some(rows[i + 1]));
        }
        assert(step_holds(ts[n - 1], rows[n - 1], opt_next(rows, n - 1)));
        lemma_step_holds_last(rows[n - 1], opt_next(rows, n - 1));
        assert(merkle_rows_satisfy(rows));
    }
    if merkle_rows_satisfy(rows) {
        assert forall|i: int|
            0 <= i < rows.len() implies step_holds(
            #[trigger] ts[i],
            rows[i],
            opt_next(rows, i),
        ) by {
            if i == n - 1 {
                assert(ts[i] == StepKind::Last);
                assert(boolean_selector_holds(rows[i]));
                assert(root_equality_holds(rows[i]));
                lemma_step_holds_last(rows[i], opt_next(rows, i));
            } else {
                assert(ts[i] == StepKind::First || ts[i] == StepKind::Middle);
                assert(boolean_selector_holds(rows[i]));
                assert(hash_transition_holds(rows[i], rows[i + 1]));
                assert(opt_next(rows, i) == Option::Some(rows[i + 1]));
                lemma_step_holds_transitional(ts[i], rows[i], opt_next(rows, i));
            }
        }
        assert(circuit_satisfied(ts, rows));
    }
}

/// Soundness of the trace: for every depth and all inputs with boolean path
/// indices whose root is the true fold of the leaf through the sibling
/// levels the circuit consumes, the generated assignment satisfies every
/// declared constraint of the assembled circuit.
pub proof fn lemma_true_root_satisfies(iv: InputsView, n: nat)
    requires
        n >= 1,
        iv.path_indices.len() == n,
        iv.siblings.len() == n,
        forall|i: int| 0 <= i < n ==> ((#[trigger] iv.path_indices[i]) == 0
            || iv.path_indices[i] == 1),
        iv.root == fold_hash(iv, n - 1),
    ensures
        merkle_rows_satisfy(witness_rows(iv, n)),
        circuit_satisfied(merkle_templates(n), witness_rows(iv, n)),
{
    let rows = witness_rows(iv, n);
    assert(rows.len() == n);
    assert forall|i: int| 0 <= i < n implies boolean_selector_holds(#[trigger] rows[i]) by {
        lemma_boolean_selector_of_bit(iv.path_indices[i]);
        assert(rows[i] == witness_row(iv, i));
    }
    assert forall|i: int|
        0 <= i < n - 1 implies hash_transition_holds(#[trigger] rows[i], rows[i + 1]) by {
        lemma_mux_hash_decomposition(fold_hash(iv, i), iv.siblings[i], iv.path_indices[i]);
        assert(rows[i + 1].hash == fold_hash(iv, i + 1));
        assert(fold_hash(iv, i + 1) == spec_mux_hash(
            fold_hash(iv, i),
            iv.siblings[i],
            iv.path_indices[i],
        ));
    }
    assert(rows[n - 1].hash == fold_hash(iv, n - 1));
    assert(root_equality_holds(rows[n - 1]));
    lemma_backend_agreement(n, rows);
}

/// Tampering with the root (or with anything that changes the true fold
/// away from the claimed root) breaks the last row's terminal equality: the
/// generated assignment no longer satisfies the circuit.
pub proof fn lemma_wrong_root_unsatisfied(iv: InputsView, n: nat)
    requires
        n >= 1,
        iv.root != fold_hash(iv, n - 1),
    ensures
        !merkle_rows_satisfy(witness_rows(iv, n)),
        !circuit_satisfied(merkle_templates(n), witness_rows(iv, n)),
{
    let rows = witness_rows(iv, n);
    assert(rows[n - 1] == witness_row(iv, n - 1));
    assert(!root_equality_holds(rows[n - 1]));
    lemma_backend_agreement(n, rows);
}

/// Inputs that agree on the leaf and on every level below `k` fold to the
/// same hash at `k`.
proof fn lemma_fold_congruence(iv1: InputsView, iv2: InputsView, k: int)
    requires
        k >= 0,
        iv1.leaf == iv2.leaf,
        forall|t: int| 0 <= t < k ==> iv1.siblings[t] == iv2.siblings[t],
        forall|t: int| 0 <= t < k ==> iv1.path_indices[t] == iv2.path_indices[t],
    ensures
        fold_hash(iv1, k) == fold_hash(iv2, k),
    decreases k,
{
    if k > 0 {
        lemma_fold_congruence(iv1, iv2, k - 1);
    }
}

/// Folding through shared boolean levels preserves a difference in the
/// running hash: the combining function is injective in the hash operand.
proof fn lemma_fold_preserves_difference(iv1: InputsView, iv2: InputsView, k0: int, k: int)
    requires
        0 <= k0 <= k,
        fold_hash(iv1, k0) != fold_hash(iv2, k0),
        fold_hash(iv1, k0) < fr_order(),
        fold_hash(iv2, k0) < fr_order(),
        forall|t: int| k0 <= t < k ==> iv1.siblings[t] == iv2.siblings[t],
        forall|t: int| k0 <= t < k ==> iv1.path_indices[t] == iv2.path_indices[t],
        forall|t: int| k0 <= t < k ==> ((#[trigger] iv1.path_indices[t]) == 0
            || iv1.path_indices[t] == 1),
    ensures
        fold_hash(iv1, k) != fold_hash(iv2, k),
        fold_hash(iv1, k) < fr_order(),
        fold_hash(iv2, k) < fr_order(),
    decreases k - k0,
{
    if k > k0 {
        lemma_fold_preserves_difference(iv1, iv2, k0, k - 1);
        lemma_mux_hash_injective_hash(
            fold_hash(iv1, k - 1),
            fold_hash(iv2, k - 1),
            iv1.siblings[k - 1],
            iv1.path_indices[k - 1],
        );
        lemma_mux_hash_bound(fold_hash(iv1, k - 1), iv1.siblings[k - 1], iv1.path_indices[k - 1]);
        lemma_mux_hash_bound(fold_hash(iv2, k - 1), iv2.siblings[k - 1], iv2.path_indices[k - 1]);
    }
}

/// Tampering with the leaf alone, when the selectors are boolean and the
/// untampered root was true, leaves the circuit unsatisfied: the fold is
/// injective in the leaf because the combining coefficients are invertible.
pub proof fn lemma_leaf_tamper_unsatisfied(iv: InputsView, iv2: InputsView, n: nat)
    requires
        n >= 1,
        iv2.root == iv.root,
        forall|t: int| 0 <= t < n ==> iv2.siblings[t] == iv.siblings[t],
        forall|t: int| 0 <= t < n ==> iv2.path_indices[t] == iv.path_indices[t],
        forall|t: int| 0 <= t < n ==> ((#[trigger] iv.path_indices[t]) == 0
            || iv.path_indices[t] == 1),
        iv2.leaf != iv.leaf,
        iv.leaf < fr_order(),
        iv2.leaf < fr_order(),
        iv.root == fold_hash(iv, n - 1),
    ensures
        !merkle_rows_satisfy(witness_rows(iv2, n)),
        !circuit_satisfied(merkle_templates(n), witness_rows(iv2, n)),
{
    lemma_fold_preserves_difference(iv, iv2, 0, n - 1);
    lemma_wrong_root_unsatisfied(iv2, n);
}

/// Tampering with one sibling that a transition consumes (every level but
/// the last), when the selectors are boolean and the untampered root was
/// true, leaves the circuit unsatisfied: the fold is injective in each
/// consumed sibling. The last level's sibling is carried by the last row
/// but consumed by no constraint, so it is not covered.
pub proof fn lemma_sibling_tamper_unsatisfied(iv: InputsView, iv2: InputsView, n: nat, j: int)
    requires
        n >= 2,
        0 <= j < n - 1,
        iv2.leaf == iv.leaf,
        iv2.root == iv.root,
        forall|t: int| 0 <= t < n ==> iv2.path_indices[t] == iv.path_indices[t],
        forall|t: int| 0 <= t < n && t != j ==> iv2.siblings[t] == iv.siblings[t],
        iv2.siblings[j] != iv.siblings[j],
        iv.siblings[j] < fr_order(),
        iv2.siblings[j] < fr_order(),
        forall|t: int| 0 <= t < n ==> ((#[trigger] iv.path_indices[t]) == 0
            || iv.path_indices[t] == 1),
        iv.root == fold_hash(iv, n - 1),
    ensures
        !merkle_rows_satisfy(witness_rows(iv2, n)),
        !circuit_satisfied(merkle_templates(n), witness_rows(iv2, n)),
{
    lemma_fold_congruence(iv, iv2, j);
    let f = fold_hash(iv, j);
    lemma_mux_hash_injective_sibling(f, iv.siblings[j], iv2.siblings[j], iv.path_indices[j]);
    assert(fold_hash(iv, j + 1) != fold_hash(iv2, j + 1));
    lemma_mux_hash_bound(f, iv.siblings[j], iv.path_indices[j]);
    lemma_mux_hash_bound(f, iv2.siblings[j], iv2.path_indices[j]);
    lemma_fold_preserves_difference(iv, iv2, j + 1, n - 1);
    lemma_wrong_root_unsatisfied(iv2, n);
}

/// A non-boolean path index violates the boolean-selector constraint at its
/// row, so the generated assignment leaves the circuit unsatisfied. Shown
/// for every selector whose product `s*(s - 1)` stays below the field
/// order; the unrestricted statement rests on the order being prime, which
/// is beyond what is proved here.
pub proof fn lemma_nonboolean_selector_unsatisfied(iv: InputsView, n: nat, j: int)
    requires
        n >= 1,
        0 <= j < n,
        iv.path_indices[j] != 0,
        iv.path_indices[j] != 1,
        iv.path_indices[j] * (iv.path_indices[j] - 1) < fr_order(),
    ensures
        !merkle_rows_satisfy(witness_rows(iv, n)),
        !circuit_satisfied(merkle_templates(n), witness_rows(iv, n)),
{
    let rows = witness_rows(iv, n);
    assert(rows[j] == witness_row(iv, j));
    lemma_small_nonboolean_selector_violates(iv.path_indices[j]);
    assert(!boolean_selector_holds(rows[j]));
    lemma_backend_agreement(n, rows);
}

/// The single-row circuit holds its row to the first and the last template
/// at once: with no next row the first template's transition is vacuous, so
/// the assembled row count of one checks exactly the conjunction of the two
/// templates' constraint sets.
pub proof fn lemma_single_row_is_first_and_last(cur: RowView)
    ensures
        circuit_satisfied(merkle_templates(1), seq![cur]) == (step_holds(
            StepKind::First,
            cur,
            Option::None,
        ) && step_holds(StepKind::Last, cur, Option::None)),
{
    let rows: Seq<RowView> = seq![cur];
    let ts = merkle_templates(1);
    assert(ts.len() == 1);
    assert(ts[0] == StepKind::Last);
    assert(opt_next(rows, 0) == Option::<RowView>::None);
    lemma_step_holds_transitional(StepKind::First, cur, Option::None);
    lemma_step_holds_last(cur, Option::None);
    if step_holds(StepKind::First, cur, Option::None) && step_holds(
        StepKind::Last,
        cur,
        Option::None,
    ) {
        assert forall|i: int|
            0 <= i < rows.len() implies step_holds(
            #[trigger] ts[i],
            rows[i],
            opt_next(rows, i),
        ) by {
            assert(i == 0);
        }
        assert(circuit_satisfied(ts, rows));
    }
    if circuit_satisfied(ts, rows) {
        assert(step_holds(ts[0], rows[0], opt_next(rows, 0)));
    }
}

/// The verdict of a one-level circuit on its generated witness: the single
/// row carries the leaf as its hash, so the circuit is satisfied exactly
/// when the selector is boolean and the claimed root equals the leaf.
pub proof fn lemma_single_level_verdict(iv: InputsView)
    ensures
        merkle_rows_satisfy(witness_rows(iv, 1)) == (boolean_selector_holds(witness_row(iv, 0))
            && iv.root == iv.leaf),
{
    let rows = witness_rows(iv, 1);
    assert(rows.len() == 1);
    assert(rows[0] == witness_row(iv, 0));
    assert(rows[0].hash == iv.leaf);
    if boolean_selector_holds(witness_row(iv, 0)) && iv.root == iv.leaf {
        assert forall|i: int| 0 <= i < 1 implies boolean_selector_holds(#[trigger] rows[i]) by {
            assert(i == 0);
        }
        assert(root_equality_holds(rows[0]));
        assert(merkle_rows_satisfy(rows));
    }
    if merkle_rows_satisfy(rows) {
        assert(boolean_selector_holds(rows[0]));
        assert(root_equality_holds(rows[0]));
    }
}

/// Determinism of the witness generator: two concrete assignments with the
/// generated view for the same inputs and depth are the same assignment,
/// byte for byte, because the field representation is canonical.
pub proof fn lemma_witness_deterministic(
    iv: InputsView,
    n: nat,
    rows1: Seq<RowValues>,
    rows2: Seq<RowValues>,
)
    requires
        rows_view(rows1) == witness_rows(iv, n),
        rows_view(rows2) == witness_rows(iv, n),
    ensures
        rows1 == rows2,
{
    assert(rows_view(rows1).len() == rows1.len());
    assert(rows_view(rows2).len() == rows2.len());
    assert(witness_rows(iv, n).len() == n);
    assert(rows1.len() == n);
    assert(rows2.len() == n);
    assert forall|i: int| 0 <= i < n implies rows1[i] == rows2[i] by {
        assert(rows_view(rows1)[i] == rows1[i]@);
        assert(rows_view(rows2)[i] == rows2[i]@);
        assert(rows_view(rows1)[i] == rows_view(rows2)[i]);
        assert(rows1[i]@ == rows2[i]@);
        lemma_felt_value_injective(rows1[i].leaf, rows2[i].leaf);
        lemma_felt_value_injective(rows1[i].root, rows2[i].root);
        lemma_felt_value_injective(rows1[i].path_index, rows2[i].path_index);
        lemma_felt_value_injective(rows1[i].sibling, rows2[i].sibling);
        lemma_felt_value_injective(rows1[i].hash, rows2[i].hash);
    }
    assert(rows1 =~= rows2);
}

} // verus!
