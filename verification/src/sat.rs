//! The satisfiability solver of the `varisat` crate, as far as the scheduler
//! uses it: load a formula, search, read the model.

use vstd::prelude::*;
use varisat::solver::SolverError;
use varisat::{CnfFormula, Solver};
use crate::cnf::{formula_clauses, formula_satisfied, model_consistent, Literal, Variable};

verus! {

/// `varisat::Solver`. Nothing is known of its state but through
/// `solver_clauses` and `solver_plain`.
#[verifier::external_type_specification]
#[verifier::external_body]
pub struct ExSolver<'a>(Solver<'a>);

/// `varisat::solver::SolverError`, the reasons for which a search can end
/// without a verdict. The scheduler does not look into it.
#[verifier::external_type_specification]
#[verifier::external_body]
pub struct ExSolverError(SolverError);

/// The clauses that were loaded into a `varisat::Solver`.
pub uninterp spec fn solver_clauses(solver: Solver<'static>) -> Seq<Seq<Literal>>;

/// Whether a `varisat::Solver` is as `Solver::new` made it, but for the
/// clauses loaded and the searches run since: it writes and checks no proof,
/// none of its variables is hidden or a witness, and nothing is assumed.
pub uninterp spec fn solver_plain(solver: Solver<'static>) -> bool;

/// `Solver::new`: a plain solver without clauses.
#[verifier::external_body]
pub(crate) fn solver_new() -> (solver: Solver<'static>)
    ensures
        solver_clauses(solver) == Seq::<Seq<Literal>>::empty(),
        solver_plain(solver),
{
    Solver::new()
}

/// `Solver::add_formula`: loads the clauses of the formula after those the
/// solver already holds. `varisat` panics when a clause constrains a witness
/// variable, which a plain solver does not have.
#[verifier::external_body]
pub(crate) fn solver_add_formula(solver: &mut Solver<'static>, formula: &CnfFormula)
    requires
        solver_plain(*old(solver)),
    ensures
        solver_clauses(*final(solver)) == solver_clauses(*old(solver)) + formula_clauses(*formula),
        solver_plain(*final(solver)),
{
    solver.add_formula(formula);
}

/// `Solver::solve`: searches for a model of the loaded clauses. Nothing is
/// claimed of the verdict; the clauses stay as they are. `varisat` panics
/// when asked to search after an error in writing or checking a proof, which
/// a plain solver cannot have met.
#[verifier::external_body]
pub(crate) fn solver_solve(solver: &mut Solver<'static>) -> (verdict: Result<bool, SolverError>)
    requires
        solver_plain(*old(solver)),
    ensures
        solver_clauses(*final(solver)) == solver_clauses(*old(solver)),
        solver_plain(*final(solver)),
{
    solver.solve()
}

/// `Solver::model`: the literals that the last search made true, if it found
/// the clauses satisfiable and none was loaded since. The model of a plain
/// solver holds at most one literal of each variable, and it holds a literal
/// of every loaded clause.
#[verifier::external_body]
pub(crate) fn solver_model(solver: &Solver<'static>) -> (model: Option<Vec<Literal>>)
    requires
        solver_plain(*solver),
    ensures
        model matches Some(m) ==> model_consistent(m@) && formula_satisfied(
            m@,
            solver_clauses(*solver),
        ),
{
    solver.model().map(
        |lits| lits.iter().map(
            |l| Literal { var: Variable { index: l.index() }, polarity: l.is_positive() },
        ).collect(),
    )
}

} // verus!
