//! The circuit assembler: wires the three row templates into an ordered
//! sequence of rows, one template per row, and checks an assignment against
//! every constraint the assembled circuit declares.
use vstd::prelude::*;
use crate::step::{
    boolean_selector_holds, check_step, hash_transition_holds, opt_row_view,
    root_equality_holds, step_holds, RowValues, RowView, StepKind,
};

verus! {

/// Configuration errors: reported before any constraint work is done.
#[derive(Clone, Copy, PartialEq, Eq, Structural, Debug)]
pub enum MerkleError {
    /// `n_levels = 0`: there is no row to instantiate.
    ZeroLevels,
    /// `path_indices` does not have exactly `n_levels` entries.
    PathIndicesLength,
    /// `siblings` does not have exactly `n_levels` entries.
    SiblingsLength,
}

/// Immutable assembly parameters: the total row count and the templates
/// pinned to the first and last row.
#[derive(Clone, Copy, PartialEq, Eq, Structural, Debug)]
pub struct CircuitConfig {
    pub row_count: usize,
    pub first_template: StepKind,
    pub last_template: StepKind,
}

/// The template sequence an assembly produces: the last row gets the last
/// template, row 0 gets the first template, and every row between is a
/// middle row. In a single-row circuit the one row is terminal, so it gets
/// the last template; the first template's transition constraint is vacuous
/// there.
pub open spec fn assembled_templates(cfg: CircuitConfig) -> Seq<StepKind> {
    Seq::new(
        cfg.row_count as nat,
        |i: int|
            if i == cfg.row_count - 1 {
                cfg.last_template
            } else if i == 0 {
                cfg.first_template
            } else {
                StepKind::Middle
            },
    )
}

/// The template sequence of the Merkle circuit of `n` rows: first,
/// middle x (n-2), last.
pub open spec fn merkle_templates(n: nat) -> Seq<StepKind> {
    Seq::new(
        n,
        |i: int|
            if i == n - 1 {
                StepKind::Last
            } else if i == 0 {
                StepKind::First
            } else {
                StepKind::Middle
            },
    )
}

/// An assembled circuit: an ordered sequence of row templates, one per row.
#[derive(Debug)]
pub struct Circuit {
    templates: Vec<StepKind>,
}

impl View for Circuit {
    type V = Seq<StepKind>;

    closed spec fn view(&self) -> Seq<StepKind> {
        self.templates@
    }
}

impl Circuit {
    /// Wires `cfg.row_count` rows, pinning the first and last templates to
    /// their positions. A row count of zero is a configuration error.
    pub fn assemble(cfg: CircuitConfig) -> (res: Result<Circuit, MerkleError>)
        ensures
            res is Ok <==> cfg.row_count > 0,
            cfg.row_count == 0 ==> res == Result::<Circuit, MerkleError>::Err(
                MerkleError::ZeroLevels,
            ),
            res matches Ok(c) ==> c@ == assembled_templates(cfg),
    {
        if cfg.row_count == 0 {
            return Err(MerkleError::ZeroLevels);
        }
        let n = cfg.row_count;
        let mut templates: Vec<StepKind> = Vec::new();
        let mut i: usize = 0;
        while i < n
            invariant
                i <= n,
                0 < n == cfg.row_count,
                templates@.len() == i,
                forall|j: int| 0 <= j < i ==> templates@[j] == assembled_templates(cfg)[j],
            decreases n - i,
        {
            let k = if i == n - 1 {
                cfg.last_template
            } else if i == 0 {
                cfg.first_template
            } else {
                StepKind::Middle
            };
            templates.push(k);
            i += 1;
        }
        proof {
            assert(templates@ =~= assembled_templates(cfg));
        }
        Ok(Circuit { templates })
    }

    /// The number of rows of the circuit.
    pub fn row_count(&self) -> (n: usize)
        ensures
            n == self@.len(),
    {
        self.templates.len()
    }

    /// The template pinned to one row.
    pub fn template_at(&self, i: usize) -> (k: StepKind)
        requires
            i < self@.len(),
        ensures
            k == self@[i as int],
    {
        self.templates[i]
    }
}

/// Assembles the Merkle circuit of `n_levels` rows: first, middle x (n-2),
/// last. `n_levels = 0` is a configuration error.
pub fn merkle_circuit(n_levels: usize) -> (res: Result<Circuit, MerkleError>)
    ensures
        res is Ok <==> n_levels > 0,
        n_levels == 0 ==> res == Result::<Circuit, MerkleError>::Err(MerkleError::ZeroLevels),
        res matches Ok(c) ==> c@ == merkle_templates(n_levels as nat),
{
    let cfg = CircuitConfig {
        row_count: n_levels,
        first_template: StepKind::First,
        last_template: StepKind::Last,
    };
    let res = Circuit::assemble(cfg);
    proof {
        if n_levels > 0 {
            assert(assembled_templates(cfg) =~= merkle_templates(n_levels as nat));
        }
    }
    res
}

/// The view of one row's sequence of concrete values.
pub open spec fn rows_view(rows: Seq<RowValues>) -> Seq<RowView> {
    rows.map_values(|r: RowValues| r@)
}

/// The row after row `i`, where one exists.
pub open spec fn opt_next(rows: Seq<RowView>, i: int) -> Option<RowView> {
    if i + 1 < rows.len() {
        Option::Some(rows[i + 1])
    } else {
        Option::None
    }
}

/// Whether an assignment satisfies every constraint declared by a template
/// sequence: one template per row, each row checked against its own values
/// and (for transition constraints) the next row's.
pub open spec fn circuit_satisfied(templates: Seq<StepKind>, rows: Seq<RowView>) -> bool {
    &&& templates.len() == rows.len()
    &&& forall|i: int|
        0 <= i < rows.len() ==> step_holds(#[trigger] templates[i], rows[i], opt_next(rows, i))
}

/// The per-position reading of the Merkle circuit's constraints: every row's
/// selector is boolean, every adjacent pair obeys the hash recurrence, and
/// the last row's hash equals the claimed root.
pub open spec fn merkle_rows_satisfy(rows: Seq<RowView>) -> bool {
    &&& rows.len() >= 1
    &&& forall|i: int| 0 <= i < rows.len() ==> boolean_selector_holds(#[trigger] rows[i])
    &&& forall|i: int|
        0 <= i < rows.len() - 1 ==> hash_transition_holds(#[trigger] rows[i], rows[i + 1])
    &&& root_equality_holds(rows[rows.len() - 1])
}

/// Checks every declared constraint of an assembled circuit against a
/// concrete assignment: the satisfiability verdict of the backend contract.
pub fn verify(circuit: &Circuit, assignment: &Vec<RowValues>) -> (b: bool)
    ensures
        b == circuit_satisfied(circuit@, rows_view(assignment@)),
{
    let ghost rows = rows_view(assignment@);
    if circuit.row_count() != assignment.len() {
        return false;
    }
    let n = assignment.len();
    let mut i: usize = 0;
    while i < n
        invariant
            i <= n,
            n == assignment@.len(),
            n == circuit@.len(),
            rows == rows_view(assignment@),
            forall|j: int| 0 <= j < i ==> step_holds(#[trigger] circuit@[j], rows[j], opt_next(rows, j)),
        decreases n - i,
    {
        let next: Option<&RowValues> = if i + 1 < n {
            Some(&assignment[i + 1])
        } else {
            None
        };
        proof {
            assert(opt_row_view(next) == opt_next(rows, i as int));
        }
        if !check_step(circuit.template_at(i), &assignment[i], next) {
            assert(!step_holds(circuit@[i as int], rows[i as int], opt_next(rows, i as int)));
            return false;
        }
        i += 1;
    }
    true
}

} // verus!
