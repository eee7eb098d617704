//! Formulas in conjunctive normal form: variables, literals, clauses and what
//! it means for a model to satisfy them, together with the formula container
//! of the `varisat` crate in which the clauses are collected.

use vstd::prelude::*;
use varisat::{CnfFormula, ExtendFormula, Lit};

verus! {

/// The number of variables a formula can hold. `varisat` packs a literal into
/// 32 bits and keeps four of them for tags, which leaves 2^28 variables.
pub const MAX_VARIABLES: usize = 0x1000_0000;

/// A boolean unknown of a formula, named by its zero-based index.
#[derive(Debug, Clone, Copy, PartialEq, Eq, Hash, Structural)]
pub struct Variable {
    pub index: usize,
}

/// A variable or its negation. `polarity` is `true` for the variable itself
/// and `false` for its negation.
#[derive(Debug, Clone, Copy, PartialEq, Eq, Hash, Structural)]
pub struct Literal {
    pub var: Variable,
    pub polarity: bool,
}

/// The literal that holds when the variable is true.
pub open spec fn positive(var: Variable) -> Literal {
    Literal { var, polarity: true }
}

/// The literal that holds when the variable is false.
pub open spec fn negative(var: Variable) -> Literal {
    Literal { var, polarity: false }
}

/// A model, given as the list of literals it makes true, satisfies a clause
/// when it holds one of the clause's literals.
pub open spec fn clause_satisfied(model: Seq<Literal>, clause: Seq<Literal>) -> bool {
    exists|i: int| 0 <= i < clause.len() && model.contains(#[trigger] clause[i])
}

/// A model satisfies a formula when it satisfies each of its clauses.
pub open spec fn formula_satisfied(model: Seq<Literal>, clauses: Seq<Seq<Literal>>) -> bool {
    forall|c: int| 0 <= c < clauses.len() ==> clause_satisfied(model, #[trigger] clauses[c])
}

/// A model is consistent when it never holds a literal together with its
/// negation.
pub open spec fn model_consistent(model: Seq<Literal>) -> bool {
    forall|i: int, j: int|
        0 <= i < model.len() && 0 <= j < model.len() && (#[trigger] model[i]).var == (
        #[trigger] model[j]).var ==> model[i].polarity == model[j].polarity
}

/// Every literal of the clause names a variable below `bound`.
pub open spec fn clause_within(clause: Seq<Literal>, bound: int) -> bool {
    forall|i: int| 0 <= i < clause.len() ==> (#[trigger] clause[i]).var.index < bound
}

/// `varisat::CnfFormula`, the container in which the clauses are collected.
/// Nothing is known of what it holds but through `formula_clauses` and
/// `formula_var_count`.
#[verifier::external_type_specification]
#[verifier::external_body]
pub struct ExCnfFormula(CnfFormula);

/// The clauses of a `varisat::CnfFormula`, in the order in which they were
/// added.
pub uninterp spec fn formula_clauses(formula: CnfFormula) -> Seq<Seq<Literal>>;

/// The variable count of a `varisat::CnfFormula`: one more than the largest
/// variable index it has handed out or seen in a clause.
pub uninterp spec fn formula_var_count(formula: CnfFormula) -> nat;

/// `CnfFormula::new`: a formula without clauses and without variables.
#[verifier::external_body]
pub(crate) fn formula_new() -> (formula: CnfFormula)
    ensures
        formula_clauses(formula) == Seq::<Seq<Literal>>::empty(),
        formula_var_count(formula) == 0,
{
    CnfFormula::new()
}

/// `ExtendFormula::new_var` on a `CnfFormula`: hands out the variable whose
/// index is the current variable count and raises the count by one. The
/// clauses stay as they are. `varisat` does not support indices from
/// `MAX_VARIABLES` on, so the count has to be below it.
#[verifier::external_body]
pub(crate) fn formula_new_var(formula: &mut CnfFormula) -> (var: Variable)
    requires
        formula_var_count(*old(formula)) < MAX_VARIABLES,
    ensures
        var.index == formula_var_count(*old(formula)),
        formula_var_count(*final(formula)) == formula_var_count(*old(formula)) + 1,
        formula_clauses(*final(formula)) == formula_clauses(*old(formula)),
{
    Variable { index: formula.new_var().index() }
}

/// `ExtendFormula::add_clause` on a `CnfFormula`: appends the clause. The
/// variable count rises to cover the clause's variables and is otherwise
/// unchanged.
#[verifier::external_body]
pub(crate) fn formula_add_clause(formula: &mut CnfFormula, clause: &Vec<Literal>)
    requires
        clause_within(clause@, MAX_VARIABLES as int),
    ensures
        formula_clauses(*final(formula)) == formula_clauses(*old(formula)).push(clause@),
        formula_var_count(*final(formula)) >= formula_var_count(*old(formula)),
        clause_within(clause@, formula_var_count(*final(formula)) as int),
        formula_var_count(*final(formula)) == formula_var_count(*old(formula)) || exists|i: int|
            0 <= i < clause.len() && formula_var_count(*final(formula)) == (
            #[trigger] clause[i]).var.index + 1,
{
    let lits: Vec<Lit> = clause.iter().map(|l| Lit::from_index(l.var.index, l.polarity)).collect();
    formula.add_clause(&lits);
}

/// `CnfFormula::iter`: the clauses in the order in which they were added.
#[verifier::external_body]
pub(crate) fn formula_to_clauses(formula: &CnfFormula) -> (clauses: Vec<Vec<Literal>>)
    ensures
        clauses@.len() == formula_clauses(*formula).len(),
        forall|c: int|
            0 <= c < clauses@.len() ==> (#[trigger] clauses@[c])@ == formula_clauses(*formula)[c],
{
    formula.iter().map(
        |clause| clause.iter().map(
            |l| Literal { var: Variable { index: l.index() }, polarity: l.is_positive() },
        ).collect(),
    ).collect()
}

} // verus!
