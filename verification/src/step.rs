//! Row templates: the signals one row carries, the constraints each template
//! imposes on a row (and, for the transition constraint, on the next row),
//! and the executable evaluation of those constraints against concrete rows.
use vstd::prelude::*;
use crate::field::{
    felt_eq, felt_from_u64, felt_mul, felt_sub, fmul, fsub, mux1, simple_hash, spec_mux1,
    spec_simple_hash, Felt,
};

verus! {

/// The mathematical content of one row: the value of each forward signal.
pub ghost struct RowView {
    pub leaf: nat,
    pub root: nat,
    pub path_index: nat,
    pub sibling: nat,
    pub hash: nat,
}

/// Concrete assignment for one row: `{leaf, root, path_index, sibling, hash}`.
#[derive(Clone, Copy, PartialEq, Eq, Structural, Debug)]
pub struct RowValues {
    pub leaf: Felt,
    pub root: Felt,
    pub path_index: Felt,
    pub sibling: Felt,
    pub hash: Felt,
}

impl View for RowValues {
    type V = RowView;

    open spec fn view(&self) -> RowView {
        RowView {
            leaf: self.leaf@,
            root: self.root@,
            path_index: self.path_index@,
            sibling: self.sibling@,
            hash: self.hash@,
        }
    }
}

/// The three row templates: the first row, the rows between, and the last
/// row of a path.
#[derive(Clone, Copy, PartialEq, Eq, Structural, Debug)]
pub enum StepKind {
    First,
    Middle,
    Last,
}

/// The constraints a row template can declare. The two internal mux signals
/// are defined by their constraints, so they appear here already inlined
/// into the hash transition.
#[derive(Clone, Copy, PartialEq, Eq, Structural, Debug)]
pub enum ConstraintKind {
    /// `path_index * (1 - path_index) = 0`.
    BooleanSelector,
    /// `hash' = simple_hash(m0, m1)` for the next row's hash, with
    /// `m0 = mux1(hash, sibling, path_index)` and
    /// `m1 = mux1(sibling, hash, path_index)`.
    HashTransition,
    /// `hash = root`.
    RootEquality,
}

/// The internal signal `m0 = mux1(hash, sibling, path_index)` of a row.
pub open spec fn mux_signal_0(r: RowView) -> nat {
    spec_mux1(r.hash, r.sibling, r.path_index)
}

/// The internal signal `m1 = mux1(sibling, hash, path_index)` of a row.
pub open spec fn mux_signal_1(r: RowView) -> nat {
    spec_mux1(r.sibling, r.hash, r.path_index)
}

/// The boolean-selector constraint: `path_index * (1 - path_index) = 0`.
pub open spec fn boolean_selector_holds(r: RowView) -> bool {
    fmul(r.path_index, fsub(1, r.path_index)) == 0
}

/// The hash recurrence: the next row's hash equals `simple_hash` of the
/// current row's two mux signals.
pub open spec fn hash_transition_holds(cur: RowView, next: RowView) -> bool {
    next.hash == spec_simple_hash(mux_signal_0(cur), mux_signal_1(cur))
}

/// The terminal equality `hash = root`.
pub open spec fn root_equality_holds(r: RowView) -> bool {
    r.hash == r.root
}

/// The constraint list each template declares: first and middle rows share
/// the selector and transition constraints; the last row replaces the
/// transition with the terminal equality.
pub open spec fn step_constraints(k: StepKind) -> Seq<ConstraintKind> {
    match k {
        StepKind::First => seq![ConstraintKind::BooleanSelector, ConstraintKind::HashTransition],
        StepKind::Middle => seq![ConstraintKind::BooleanSelector, ConstraintKind::HashTransition],
        StepKind::Last => seq![ConstraintKind::BooleanSelector, ConstraintKind::RootEquality],
    }
}

/// Whether one declared constraint holds of a row and (when one exists) the
/// row after it. A transition constraint on a row with no successor is
/// vacuous.
pub open spec fn constraint_holds(c: ConstraintKind, cur: RowView, next: Option<RowView>) -> bool {
    match c {
        ConstraintKind::BooleanSelector => boolean_selector_holds(cur),
        ConstraintKind::HashTransition => match next {
            Option::Some(nx) => hash_transition_holds(cur, nx),
            Option::None => true,
        },
        ConstraintKind::RootEquality => root_equality_holds(cur),
    }
}

/// Whether every constraint a template declares holds of a row.
pub open spec fn step_holds(k: StepKind, cur: RowView, next: Option<RowView>) -> bool {
    forall|i: int|
        0 <= i < step_constraints(k).len() ==> constraint_holds(
            #[trigger] step_constraints(k)[i],
            cur,
            next,
        )
}

/// The view of an optional next row.
pub open spec fn opt_row_view(next: Option<&RowValues>) -> Option<RowView> {
    match next {
        Option::Some(nx) => Option::Some(nx@),
        Option::None => Option::None,
    }
}

/// The constraint list of a template, as data for a row-by-row checker.
pub fn step_constraint_list(k: StepKind) -> (v: Vec<ConstraintKind>)
    ensures
        v@ == step_constraints(k),
{
    let mut v: Vec<ConstraintKind> = Vec::new();
    v.push(ConstraintKind::BooleanSelector);
    match k {
        StepKind::First => v.push(ConstraintKind::HashTransition),
        StepKind::Middle => v.push(ConstraintKind::HashTransition),
        StepKind::Last => v.push(ConstraintKind::RootEquality),
    }
    proof {
        assert(v@ =~= step_constraints(k));
    }
    v
}

/// Evaluates one declared constraint against a concrete row and its
/// optional successor.
pub fn eval_constraint(c: ConstraintKind, cur: &RowValues, next: Option<&RowValues>) -> (b: bool)
    ensures
        b == constraint_holds(c, cur@, opt_row_view(next)),
{
    match c {
        ConstraintKind::BooleanSelector => {
            let one = felt_from_u64(1);
            let zero = felt_from_u64(0);
            let sel = felt_mul(cur.path_index, felt_sub(one, cur.path_index));
            felt_eq(sel, zero)
        },
        ConstraintKind::HashTransition => match next {
            Option::Some(nx) => {
                let m0 = mux1(cur.hash, cur.sibling, cur.path_index);
                let m1 = mux1(cur.sibling, cur.hash, cur.path_index);
                felt_eq(nx.hash, simple_hash(m0, m1))
            },
            Option::None => true,
        },
        ConstraintKind::RootEquality => felt_eq(cur.hash, cur.root),
    }
}

/// Evaluates every constraint a template declares against a concrete row.
pub fn check_step(k: StepKind, cur: &RowValues, next: Option<&RowValues>) -> (b: bool)
    ensures
        b == step_holds(k, cur@, opt_row_view(next)),
{
    let cs = step_constraint_list(k);
    let mut i: usize = 0;
    while i < cs.len()
        invariant
            i <= cs.len(),
            cs@ == step_constraints(k),
            forall|j: int|
                0 <= j < i ==> constraint_holds(
                    #[trigger] step_constraints(k)[j],
                    cur@,
                    opt_row_view(next),
                ),
        decreases cs@.len() - i,
    {
        if !eval_constraint(cs[i], cur, next) {
            assert(!constraint_holds(step_constraints(k)[i as int], cur@, opt_row_view(next)));
            return false;
        }
        i += 1;
    }
    true
}

} // verus!
