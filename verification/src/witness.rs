//! The witness generator (trace): derives the per-row assignment sequence
//! from the caller-supplied inputs, threading the running hash through the
//! rows, and the composition layer that pairs it with the assembled circuit.
use vstd::prelude::*;
use crate::circuit::{merkle_circuit, merkle_templates, rows_view, Circuit, MerkleError};
use crate::field::{mux_hash, spec_mux_hash, Felt};
use crate::step::{RowValues, RowView};

verus! {

/// The caller-supplied witness request: the leaf, the claimed root, and one
/// path index and sibling per tree level. Every path index is expected to be
/// boolean; a non-boolean one surfaces as an unsatisfied selector
/// constraint, not as an error.
#[derive(Clone, Debug)]
pub struct Inputs {
    pub leaf: Felt,
    pub root: Felt,
    pub path_indices: Vec<Felt>,
    pub siblings: Vec<Felt>,
}

/// The mathematical content of the inputs.
pub ghost struct InputsView {
    pub leaf: nat,
    pub root: nat,
    pub path_indices: Seq<nat>,
    pub siblings: Seq<nat>,
}

impl View for Inputs {
    type V = InputsView;

    open spec fn view(&self) -> InputsView {
        InputsView {
            leaf: self.leaf@,
            root: self.root@,
            path_indices: self.path_indices@.map_values(|f: Felt| f@),
            siblings: self.siblings@.map_values(|f: Felt| f@),
        }
    }
}

/// The hash accumulated after folding the first `k` levels into the leaf:
/// `fold_hash(iv, 0) = leaf` and
/// `fold_hash(iv, k+1) = mux_hash(fold_hash(iv, k), siblings[k], path_indices[k])`.
pub open spec fn fold_hash(iv: InputsView, k: int) -> nat
    decreases k,
{
    if k <= 0 {
        iv.leaf
    } else {
        spec_mux_hash(fold_hash(iv, k - 1), iv.siblings[k - 1], iv.path_indices[k - 1])
    }
}

/// The row the generator emits at position `i`: the inputs' leaf and root,
/// the level's path index and sibling, and the hash folded over the levels
/// before `i`.
pub open spec fn witness_row(iv: InputsView, i: int) -> RowView {
    RowView {
        leaf: iv.leaf,
        root: iv.root,
        path_index: iv.path_indices[i],
        sibling: iv.siblings[i],
        hash: fold_hash(iv, i),
    }
}

/// The full assignment the generator emits for a circuit of `n` rows.
pub open spec fn witness_rows(iv: InputsView, n: nat) -> Seq<RowView> {
    Seq::new(n, |i: int| witness_row(iv, i))
}

/// Computes the full per-row assignment for a circuit of `n_levels` rows.
/// Fails fast on the configuration errors: a zero row count, or input
/// sequences whose length is not exactly `n_levels`.
pub fn witness(inputs: &Inputs, n_levels: usize) -> (res: Result<Vec<RowValues>, MerkleError>)
    ensures
        res is Ok <==> (n_levels > 0 && inputs.path_indices@.len() == n_levels
            && inputs.siblings@.len() == n_levels),
        n_levels == 0 ==> res == Result::<Vec<RowValues>, MerkleError>::Err(
            MerkleError::ZeroLevels,
        ),
        n_levels > 0 && inputs.path_indices@.len() != n_levels ==> res == Result::<
            Vec<RowValues>,
            MerkleError,
        >::Err(MerkleError::PathIndicesLength),
        n_levels > 0 && inputs.path_indices@.len() == n_levels && inputs.siblings@.len()
            != n_levels ==> res == Result::<Vec<RowValues>, MerkleError>::Err(
            MerkleError::SiblingsLength,
        ),
        res matches Ok(rows) ==> rows_view(rows@) == witness_rows(inputs@, n_levels as nat),
{
    if n_levels == 0 {
        return Err(MerkleError::ZeroLevels);
    }
    if inputs.path_indices.len() != n_levels {
        return Err(MerkleError::PathIndicesLength);
    }
    if inputs.siblings.len() != n_levels {
        return Err(MerkleError::SiblingsLength);
    }
    let mut rows: Vec<RowValues> = Vec::new();
    let mut hash = inputs.leaf;
    let mut i: usize = 0;
    while i < n_levels
        invariant
            i <= n_levels,
            n_levels > 0,
            inputs.path_indices@.len() == n_levels,
            inputs.siblings@.len() == n_levels,
            rows@.len() == i,
            forall|j: int| 0 <= j < i ==> rows@[j]@ == witness_row(inputs@, j),
            hash@ == fold_hash(inputs@, i as int),
        decreases n_levels - i,
    {
        rows.push(
            RowValues {
                leaf: inputs.leaf,
                root: inputs.root,
                path_index: inputs.path_indices[i],
                sibling: inputs.siblings[i],
                hash,
            },
        );
        hash = mux_hash(hash, inputs.siblings[i], inputs.path_indices[i]);
        i += 1;
    }
    proof {
        assert(rows_view(rows@) =~= witness_rows(inputs@, n_levels as nat));
    }
    Ok(rows)
}

/// The composition layer: assembles the circuit of `n_levels` rows and
/// derives its full assignment from the inputs, returning both for the
/// proving backend. Performs no computation of its own beyond wiring.
pub fn merkle_super_circuit(inputs: &Inputs, n_levels: usize) -> (res: Result<
    (Circuit, Vec<RowValues>),
    MerkleError,
>)
    ensures
        res is Ok <==> (n_levels > 0 && inputs.path_indices@.len() == n_levels
            && inputs.siblings@.len() == n_levels),
        n_levels == 0 ==> (res matches Err(e) && e == MerkleError::ZeroLevels),
        n_levels > 0 && inputs.path_indices@.len() != n_levels ==> (res matches Err(e)
            && e == MerkleError::PathIndicesLength),
        n_levels > 0 && inputs.path_indices@.len() == n_levels && inputs.siblings@.len()
            != n_levels ==> (res matches Err(e) && e == MerkleError::SiblingsLength),
        res matches Ok(p) ==> p.0@ == merkle_templates(n_levels as nat) && rows_view(p.1@)
            == witness_rows(inputs@, n_levels as nat),
{
    let rows = match witness(inputs, n_levels) {
        Ok(rows) => rows,
        Err(e) => {
            return Err(e);
        },
    };
    let circuit = match merkle_circuit(n_levels) {
        Ok(c) => c,
        Err(e) => {
            return Err(e);
        },
    };
    Ok((circuit, rows))
}

} // verus!
