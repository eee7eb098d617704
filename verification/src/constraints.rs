//! Building the formula: the feasible slots of a requirement, the variables
//! of its meetings and the clauses over them.

use vstd::prelude::*;
use varisat::CnfFormula;
use crate::cnf::{
    clause_within, formula_add_clause, formula_clauses, formula_var_count, Literal, Variable,
    MAX_VARIABLES,
};
use crate::domain::{educator_views, student_views, Educator, Schedule, Student, TimeSlot};
use crate::encoding::{
    all_educators_known, educator_known, exclusion_clause, exclusion_row, exclusion_rows,
    existence_clause, feasible_slots, is_first_educator, is_first_unknown, requirement_clauses,
    slot_keys,
};
use crate::registry::{
    lemma_request_all, lemma_request_all_grows, lemma_variable_stable, request_all, variables_of,
    MeetingKeyView, VariableRegistry,
};
use crate::sequences::lemma_prefix_of_length;

verus! {

/// Whether the slot is among the given slots.
pub fn contains_slot(slots: &Vec<TimeSlot>, slot: TimeSlot) -> (found: bool)
    ensures
        found == slots@.contains(slot),
{
    let mut i: usize = 0;
    while i < slots.len()
        invariant
            i <= slots.len(),
            forall|j: int| 0 <= j < i ==> slots@[j] != slot,
        decreases slots.len() - i,
    {
        if slots[i] == slot {
            return true;
        }
        i += 1;
    }
    false
}

/// The slots in which both the student and the educator are available, each
/// once, in the order in which the student first lists them.
pub fn find_feasible_slots(student: &Schedule, educator: &Schedule) -> (slots: Vec<TimeSlot>)
    ensures
        slots@ == feasible_slots(student@, educator@),
{
    let mut slots: Vec<TimeSlot> = Vec::new();
    let mut i: usize = 0;
    while i < student.available_slots.len()
        invariant
            i <= student.available_slots.len(),
            slots@ == feasible_slots(student@.take(i as int), educator@),
        decreases student.available_slots.len() - i,
    {
        let slot = student.available_slots[i];
        proof {
            assert(student@.take(i + 1).drop_last() =~= student@.take(i as int));
        }
        if contains_slot(&educator.available_slots, slot) && !contains_slot(&slots, slot) {
            slots.push(slot);
        }
        i += 1;
    }
    proof {
        assert(student@.take(i as int) =~= student@);
    }
    slots
}

/// The position of the first educator with this id, if there is one.
pub fn find_educator(educators: &Vec<Educator>, id: &String) -> (found: Option<usize>)
    ensures
        match found {
            Some(k) => is_first_educator(educator_views(educators@), id@, k as int),
            None => !educator_known(educator_views(educators@), id@),
        },
{
    let mut k: usize = 0;
    while k < educators.len()
        invariant
            k <= educators.len(),
            forall|j: int| 0 <= j < k ==> (#[trigger] educator_views(educators@)[j]).id != id@,
        decreases educators.len() - k,
    {
        if educators[k].id == *id {
            return Some(k);
        }
        k += 1;
    }
    None
}

/// The first requirement that names an educator who is not on the list, as
/// the position of its student and its position among that student's
/// requirements; `None` if every requirement names a listed educator.
pub fn first_unknown_educator(students: &Vec<Student>, educators: &Vec<Educator>) -> (found: Option<
    (usize, usize),
>)
    ensures
        match found {
            Some((i, r)) => is_first_unknown(
                student_views(students@),
                educator_views(educators@),
                i as int,
                r as int,
            ),
            None => all_educators_known(student_views(students@), educator_views(educators@)),
        },
{
    let ghost all = student_views(students@);
    let ghost listed = educator_views(educators@);
    let mut i: usize = 0;
    while i < students.len()
        invariant
            i <= students.len(),
            all == student_views(students@),
            listed == educator_views(educators@),
            forall|i2: int, r2: int|
                0 <= i2 < i && 0 <= r2 < all[i2].requirements.len() ==> educator_known(
                    listed,
                    (#[trigger] all[i2].requirements[r2]).educator_id,
                ),
        decreases students.len() - i,
    {
        let student = &students[i];
        let mut r: usize = 0;
        while r < student.educator_meeting_requirements.len()
            invariant
                i < students.len(),
                student == &students[i as int],
                r <= student.educator_meeting_requirements.len(),
                all == student_views(students@),
                listed == educator_views(educators@),
                forall|i2: int, r2: int|
                    0 <= i2 < i && 0 <= r2 < all[i2].requirements.len() ==> educator_known(
                        listed,
                        (#[trigger] all[i2].requirements[r2]).educator_id,
                    ),
                forall|r2: int|
                    0 <= r2 < r ==> educator_known(
                        listed,
                        (#[trigger] all[i as int].requirements[r2]).educator_id,
                    ),
            decreases student.educator_meeting_requirements.len() - r,
        {
            let requirement = &student.educator_meeting_requirements[r];
            assert(all[i as int].requirements[r as int] == requirement@);
            match find_educator(educators, &requirement.educator_id) {
                Some(_) => {},
                None => {
                    return Some((i, r));
                },
            }
            r += 1;
        }
        i += 1;
    }
    None
}

/// The clause that asks for at least one of the meetings.
pub fn existence_literals(vars: &Vec<Variable>) -> (clause: Vec<Literal>)
    ensures
        clause@ == existence_clause(vars@),
{
    let mut clause: Vec<Literal> = Vec::new();
    let mut i: usize = 0;
    while i < vars.len()
        invariant
            i <= vars.len(),
            clause@ == existence_clause(vars@.take(i as int)),
        decreases vars.len() - i,
    {
        clause.push(Literal { var: vars[i], polarity: true });
        proof {
            assert(clause@ =~= existence_clause(vars@.take(i + 1)));
        }
        i += 1;
    }
    proof {
        assert(vars@.take(i as int) =~= vars@);
    }
    clause
}

/// The clause that forbids both meetings at once.
pub fn exclusion_literals(a: Variable, b: Variable) -> (clause: Vec<Literal>)
    ensures
        clause@ == exclusion_clause(a, b),
{
    let mut clause: Vec<Literal> = Vec::new();
    clause.push(Literal { var: a, polarity: false });
    clause.push(Literal { var: b, polarity: false });
    proof {
        assert(clause@ =~= exclusion_clause(a, b));
    }
    clause
}


/// The position of the first educator with this id, for an id that some
/// educator of the list has.
pub fn resolve_educator(educators: &Vec<Educator>, id: &String) -> (k: usize)
    requires
        educator_known(educator_views(educators@), id@),
    ensures
        is_first_educator(educator_views(educators@), id@, k as int),
{
    let ghost listed = educator_views(educators@);
    let ghost witness = choose|w: int| 0 <= w < listed.len() && (#[trigger] listed[w]).id == id@;
    let mut k: usize = 0;
    while !(educators[k].id == *id)
        invariant
            listed == educator_views(educators@),
            0 <= witness < educators.len(),
            listed[witness].id == id@,
            k <= witness,
            forall|j: int| 0 <= j < k ==> (#[trigger] listed[j]).id != id@,
        decreases witness - k,
    {
        assert(listed[k as int].id != id@);
        k += 1;
    }
    k
}

/// Appends the clauses of one requirement to the formula: the existence
/// clause over `vars`, unless `vars` is empty, and the pairwise exclusion
/// clauses, if `vars` has more variables than `meetings_per_week`.
pub(crate) fn add_requirement_clauses(
    formula: &mut CnfFormula,
    vars: &Vec<Variable>,
    meetings_per_week: u32,
)
    requires
        formula_var_count(*old(formula)) <= MAX_VARIABLES,
        forall|i: int|
            0 <= i < vars.len() ==> (#[trigger] vars[i]).index < formula_var_count(*old(formula)),
    ensures
        formula_clauses(*final(formula)) == formula_clauses(*old(formula)) + requirement_clauses(
            vars@,
            meetings_per_week as nat,
        ),
        formula_var_count(*final(formula)) == formula_var_count(*old(formula)),
{
    let ghost base = formula_clauses(*formula);
    let ghost count = formula_var_count(*formula);
    let n: usize = vars.len();
    if n > 0 {
        let clause = existence_literals(vars);
        assert(clause_within(clause@, count as int)) by {
            assert forall|i: int| 0 <= i < clause@.len() implies (#[trigger] clause@[i]).var.index
                < count by {
                assert(clause@[i].var == vars[i]);
            }
        }
        formula_add_clause(formula, &clause);
    }
    let ghost asked = formula_clauses(*formula);
    if (meetings_per_week as usize) < n {
        let mut i: usize = 0;
        while i < n
            invariant
                n == vars.len(),
                i <= n,
                count <= MAX_VARIABLES,
                forall|k: int| 0 <= k < vars.len() ==> (#[trigger] vars[k]).index < count,
                formula_var_count(*formula) == count,
                formula_clauses(*formula) == asked + exclusion_rows(vars@, i as int),
            decreases n - i,
        {
            let mut j: usize = i + 1;
            while j < n
                invariant
                    n == vars.len(),
                    i < n,
                    i < j <= n,
                    count <= MAX_VARIABLES,
                    forall|k: int| 0 <= k < vars.len() ==> (#[trigger] vars[k]).index < count,
                    formula_var_count(*formula) == count,
                    formula_clauses(*formula) == asked + exclusion_rows(vars@, i as int)
                        + exclusion_row(vars@, i as int, j as int),
                decreases n - j,
            {
                let clause = exclusion_literals(vars[i], vars[j]);
                assert(clause_within(clause@, count as int)) by {
                    assert(clause@[0].var == vars[i as int]);
                    assert(clause@[1].var == vars[j as int]);
                }
                formula_add_clause(formula, &clause);
                proof {
                    assert(formula_clauses(*formula) =~= asked + exclusion_rows(vars@, i as int)
                        + exclusion_row(vars@, i as int, j + 1));
                }
                j += 1;
            }
            proof {
                assert(formula_clauses(*formula) =~= asked + exclusion_rows(vars@, i + 1));
            }
            i += 1;
        }
        proof {
            assert(formula_clauses(*formula) =~= base + requirement_clauses(
                vars@,
                meetings_per_week as nat,
            ));
        }
    } else {
        proof {
            assert(formula_clauses(*formula) =~= base + requirement_clauses(
                vars@,
                meetings_per_week as nat,
            ));
        }
    }
}

/// Requests a variable for the meeting of the student with the educator in
/// each of the slots, in order, and returns the variables. The answer is
/// `None` when the formula cannot hold that many variables.
pub(crate) fn register_meetings(
    registry: &mut VariableRegistry,
    formula: &mut CnfFormula,
    student_id: &String,
    educator_id: &String,
    slots: &Vec<TimeSlot>,
) -> (vars: Option<Vec<Variable>>)
    requires
        old(registry).wf(),
        formula_var_count(*old(formula)) == old(registry)@.len(),
    ensures
        final(registry).wf(),
        formula_var_count(*final(formula)) == final(registry)@.len(),
        formula_clauses(*final(formula)) == formula_clauses(*old(formula)),
        old(registry)@.is_prefix_of(final(registry)@),
        vars is Some <==> request_all(
            old(registry)@,
            slot_keys(student_id@, educator_id@, slots@),
        ).len() <= MAX_VARIABLES,
        vars matches Some(v) ==> {
            &&& final(registry)@ == request_all(
                old(registry)@,
                slot_keys(student_id@, educator_id@, slots@),
            )
            &&& v@ == variables_of(final(registry)@, slot_keys(student_id@, educator_id@, slots@))
        },
        vars is None ==> final(registry)@ == request_all(
            old(registry)@,
            slot_keys(student_id@, educator_id@, slots@),
        ).take(MAX_VARIABLES as int),
{
    let ghost wanted = slot_keys(student_id@, educator_id@, slots@);
    let ghost start = registry@;
    let mut vars: Vec<Variable> = Vec::new();
    let mut k: usize = 0;
    proof {
        assert(wanted.take(0) =~= Seq::<MeetingKeyView>::empty());
        assert(vars@ =~= variables_of(registry@, wanted.take(0)));
        lemma_request_all(start, wanted.take(0));
    }
    while k < slots.len()
        invariant
            k <= slots.len(),
            wanted == slot_keys(student_id@, educator_id@, slots@),
            start == old(registry)@,
            start.no_duplicates(),
            registry.wf(),
            formula_var_count(*formula) == registry@.len(),
            formula_clauses(*formula) == formula_clauses(*old(formula)),
            registry@ == request_all(start, wanted.take(k as int)),
            start.is_prefix_of(registry@),
            vars@ == variables_of(registry@, wanted.take(k as int)),
        decreases slots.len() - k,
    {
        let ghost before = registry@;
        let ghost next = wanted.take(k + 1);
        proof {
            assert(next.drop_last() =~= wanted.take(k as int));
            assert(next.last() == wanted[k as int]);
            lemma_request_all(start, wanted.take(k as int));
            lemma_request_all(start, next);
        }
        match registry.get_or_create(formula, student_id, educator_id, slots[k]) {
            Some(var) => {
                vars.push(var);
                proof {
                    assert forall|i: int| 0 <= i < next.len() implies vars@[i] == variables_of(
                        registry@,
                        next,
                    )[i] by {
                        if i < k {
                            assert(next[i] == wanted.take(k as int)[i]);
                            lemma_variable_stable(before, registry@, next[i]);
                        }
                    }
                    assert(vars@ =~= variables_of(registry@, next));
                }
            },
            None => {
                proof {
                    assert(next.is_prefix_of(wanted)) by {
                        assert(next =~= wanted.subrange(0, next.len() as int));
                    }
                    lemma_request_all_grows(start, wanted.take(k as int), wanted);
                    lemma_request_all_grows(start, next, wanted);
                    lemma_prefix_of_length(registry@, request_all(start, wanted));
                }
                return None;
            },
        }
        k += 1;
    }
    proof {
        assert(wanted.take(k as int) =~= wanted);
    }
    Some(vars)
}

/// Adds what one requirement asks for: registers the feasible meetings of
/// the student with the educator and appends the requirement's clauses over
/// their variables. Returns `false`, with the clauses untouched, when the
/// formula cannot hold the variables that the feasible meetings need.
pub(crate) fn add_requirement(
    registry: &mut VariableRegistry,
    formula: &mut CnfFormula,
    student_id: &String,
    student_schedule: &Schedule,
    educator: &Educator,
    meetings_per_week: u32,
) -> (added: bool)
    requires
        old(registry).wf(),
        formula_var_count(*old(formula)) == old(registry)@.len(),
    ensures
        final(registry).wf(),
        formula_var_count(*final(formula)) == final(registry)@.len(),
        old(registry)@.is_prefix_of(final(registry)@),
        ({
            let wanted = slot_keys(
                student_id@,
                educator.id@,
                feasible_slots(student_schedule@, educator.schedule@),
            );
            &&& added <==> request_all(old(registry)@, wanted).len() <= MAX_VARIABLES
            &&& added ==> final(registry)@ == request_all(old(registry)@, wanted)
            &&& added ==> formula_clauses(*final(formula)) == formula_clauses(*old(formula))
                + requirement_clauses(
                variables_of(final(registry)@, wanted),
                meetings_per_week as nat,
            )
            &&& !added ==> formula_clauses(*final(formula)) == formula_clauses(*old(formula))
            &&& !added ==> final(registry)@ == request_all(old(registry)@, wanted).take(
                MAX_VARIABLES as int,
            )
        }),
{
    let slots = find_feasible_slots(student_schedule, &educator.schedule);
    let ghost wanted = slot_keys(student_id@, educator.id@, slots@);
    match register_meetings(registry, formula, student_id, &educator.id, &slots) {
        Some(vars) => {
            proof {
                lemma_request_all(old(registry)@, wanted);
                assert forall|i: int| 0 <= i < vars.len() implies (#[trigger] vars[i]).index
                    < registry@.len() by {
                    registry.lemma_variable_in_range(wanted[i]);
                }
            }
            add_requirement_clauses(formula, &vars, meetings_per_week);
            true
        },
        None => false,
    }
}

} // verus!
