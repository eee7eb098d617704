//! What holds of every formula the scheduler builds, and of every model of
//! such a formula.

use vstd::prelude::*;
use crate::cnf::{
    clause_satisfied, formula_satisfied, model_consistent, positive, Literal, Variable,
    MAX_VARIABLES,
};
use crate::decoded::decoded;
use crate::domain::{EducatorView, StudentView};
use crate::encoding::{
    all_positive, clauses_before, excludes_pair, exclusion_clause, exclusion_clauses,
    existence_clause, keys_before, lemma_clauses_before_prefix, lemma_exclusion_rows,
    lemma_keys_before_prefix, requirement_block, requirement_clauses, requirement_keys,
    student_clauses, wanted_clauses, wanted_keys,
};
use crate::registry::{
    lemma_request_all, lemma_request_all_present, lemma_variable_injective, request_all,
    variable_of, variables_of, MeetingKeyView,
};

verus! {

/// The formula is made of the requirements' blocks: the block of requirement
/// `r` of student `i` stands in the clauses of all the students, right after
/// the clauses emitted before that requirement is reached.
pub proof fn lemma_block_placement(
    keys: Seq<MeetingKeyView>,
    students: Seq<StudentView>,
    educators: Seq<EducatorView>,
    i: int,
    r: int,
)
    requires
        0 <= i < students.len(),
        0 <= r < students[i].requirements.len(),
    ensures
        ({
            let all = wanted_clauses(keys, students, educators, students.len() as int);
            let block = requirement_block(keys, students[i], educators, r);
            let offset = clauses_before(keys, students, educators, i, r).len() as int;
            &&& offset + block.len() <= all.len()
            &&& all.subrange(offset, offset + block.len()) == block
        }),
{
    let all = wanted_clauses(keys, students, educators, students.len() as int);
    let block = requirement_block(keys, students[i], educators, r);
    let before = clauses_before(keys, students, educators, i, r);
    let through = clauses_before(keys, students, educators, i, r + 1);
    lemma_clauses_before_prefix(keys, students, educators, i, r + 1);
    assert(through =~= before + block);
    assert forall|c: int| 0 <= c < block.len() implies all[before.len() + c] == block[c] by {
        assert(through[before.len() + c] == all.subrange(0, through.len() as int)[before.len()
            + c]);
    }
    assert(all.subrange(before.len() as int, (before.len() + block.len()) as int) =~= block);
}

/// Clause number `c` of the formula belongs to the block of requirement `r`
/// of student `i`.
pub open spec fn in_block(
    keys: Seq<MeetingKeyView>,
    students: Seq<StudentView>,
    educators: Seq<EducatorView>,
    i: int,
    r: int,
    c: int,
) -> bool {
    let offset = clauses_before(keys, students, educators, i, r).len();
    &&& 0 <= i < students.len()
    &&& 0 <= r < students[i].requirements.len()
    &&& offset <= c < offset + requirement_block(keys, students[i], educators, r).len()
}

/// Every clause of a student's first requirements belongs to the block of
/// one of them; the lemma returns its number.
pub proof fn lemma_find_requirement(
    keys: Seq<MeetingKeyView>,
    student: StudentView,
    educators: Seq<EducatorView>,
    n: int,
    c: int,
) -> (r: int)
    requires
        0 <= c < student_clauses(keys, student, educators, n).len(),
    ensures
        0 <= r < n,
        student_clauses(keys, student, educators, r).len() <= c < student_clauses(
            keys,
            student,
            educators,
            r,
        ).len() + requirement_block(keys, student, educators, r).len(),
    decreases n,
{
    if c < student_clauses(keys, student, educators, n - 1).len() {
        lemma_find_requirement(keys, student, educators, n - 1, c)
    } else {
        n - 1
    }
}

/// Every clause of the first students belongs to the block of one of their
/// requirements; the lemma returns the student's and the requirement's
/// number.
pub proof fn lemma_find_block(
    keys: Seq<MeetingKeyView>,
    students: Seq<StudentView>,
    educators: Seq<EducatorView>,
    n: int,
    c: int,
) -> (at: (int, int))
    requires
        n <= students.len(),
        0 <= c < wanted_clauses(keys, students, educators, n).len(),
    ensures
        at.0 < n,
        in_block(keys, students, educators, at.0, at.1, c),
    decreases n,
{
    let earlier = wanted_clauses(keys, students, educators, n - 1);
    if c < earlier.len() {
        lemma_find_block(keys, students, educators, n - 1, c)
    } else {
        let student = students[n - 1];
        let r = lemma_find_requirement(
            keys,
            student,
            educators,
            student.requirements.len() as int,
            c - earlier.len(),
        );
        (n - 1, r)
    }
}

/// The keys of every requirement are among the keys that the students ask
/// for.
pub proof fn lemma_requirement_keys_registered(
    keys: Seq<MeetingKeyView>,
    students: Seq<StudentView>,
    educators: Seq<EducatorView>,
    i: int,
    r: int,
)
    requires
        0 <= i < students.len(),
        0 <= r < students[i].requirements.len(),
        forall|k: int|
            0 <= k < wanted_keys(students, educators, students.len() as int).len()
                ==> keys.contains(
                #[trigger] wanted_keys(students, educators, students.len() as int)[k],
            ),
    ensures
        forall|k: int|
            0 <= k < requirement_keys(students[i], educators, r).len() ==> keys.contains(
                #[trigger] requirement_keys(students[i], educators, r)[k],
            ),
{
    let wanted = wanted_keys(students, educators, students.len() as int);
    let asked = requirement_keys(students[i], educators, r);
    let earlier = keys_before(students, educators, i, r);
    lemma_keys_before_prefix(students, educators, i, r + 1);
    assert(keys_before(students, educators, i, r + 1) =~= earlier + asked);
    assert forall|k: int| 0 <= k < asked.len() implies keys.contains(#[trigger] asked[k]) by {
        assert((earlier + asked)[earlier.len() + k] == wanted.subrange(
            0,
            (earlier + asked).len() as int,
        )[earlier.len() + k]);
        assert(asked[k] == wanted[earlier.len() + k]);
    }
}

/// Clause completeness: a requirement with feasible meetings has exactly one
/// existence clause. It comes first in the requirement's block, its literals
/// are the positive literals of the feasible meetings' variables, one for
/// one, and no other clause of the block is made of positive literals. A
/// requirement without feasible meetings has no clause at all.
pub proof fn lemma_clause_completeness(vars: Seq<Variable>, meetings_per_week: nat)
    ensures
        ({
            let block = requirement_clauses(vars, meetings_per_week);
            &&& vars.len() == 0 ==> block.len() == 0
            &&& vars.len() > 0 ==> {
                &&& block.len() > 0
                &&& block[0] == existence_clause(vars)
                &&& all_positive(block[0])
                &&& forall|c: int| 0 < c < block.len() ==> !all_positive(#[trigger] block[c])
            }
            &&& existence_clause(vars).len() == vars.len()
            &&& forall|k: int|
                0 <= k < vars.len() ==> (#[trigger] existence_clause(vars)[k]) == positive(vars[k])
        }),
{
    let block = requirement_clauses(vars, meetings_per_week);
    lemma_exclusion_rows(vars, vars.len() as int);
    if vars.len() > 0 {
        assert forall|c: int| 0 < c < block.len() implies !all_positive(#[trigger] block[c]) by {
            let clause = exclusion_clauses(vars)[c - 1];
            assert(block[c] == clause);
            assert(excludes_pair(vars, clause));
            let (a, b) = choose|a: int, b: int|
                0 <= a < b < vars.len() && clause == #[trigger] exclusion_clause(vars[a], vars[b]);
            assert(!clause[0].polarity);
        }
    } else {
        assert(exclusion_clauses(vars) =~= Seq::<Seq<Literal>>::empty());
    }
}

/// Clause completeness in the formula: for a requirement with feasible
/// meetings, the clauses of all the students hold its existence clause at
/// the head of its block, over the variables of exactly its feasible
/// meetings, and no other clause of the block is made of positive literals.
pub proof fn lemma_existence_clause_in_formula(
    keys: Seq<MeetingKeyView>,
    students: Seq<StudentView>,
    educators: Seq<EducatorView>,
    i: int,
    r: int,
)
    requires
        0 <= i < students.len(),
        0 <= r < students[i].requirements.len(),
        requirement_keys(students[i], educators, r).len() > 0,
    ensures
        ({
            let all = wanted_clauses(keys, students, educators, students.len() as int);
            let vars = variables_of(keys, requirement_keys(students[i], educators, r));
            let offset = clauses_before(keys, students, educators, i, r).len() as int;
            let size = requirement_block(keys, students[i], educators, r).len() as int;
            &&& 0 < size
            &&& offset + size <= all.len()
            &&& all[offset] == existence_clause(vars)
            &&& forall|c: int| offset < c < offset + size ==> !all_positive(#[trigger] all[c])
        }),
{
    let all = wanted_clauses(keys, students, educators, students.len() as int);
    let vars = variables_of(keys, requirement_keys(students[i], educators, r));
    let block = requirement_block(keys, students[i], educators, r);
    let offset = clauses_before(keys, students, educators, i, r).len() as int;
    lemma_block_placement(keys, students, educators, i, r);
    lemma_clause_completeness(vars, students[i].requirements[r].meetings_per_week);
    assert forall|c: int| offset <= c < offset + block.len() implies all[c] == block[c
        - offset] by {
        assert(all.subrange(offset, offset + block.len())[c - offset] == all[c]);
    }
}

/// Where the existence clauses of two lists of registered keys hold the same
/// literals, a key of the first list is a key of the second.
pub proof fn lemma_same_literals_same_keys(
    keys: Seq<MeetingKeyView>,
    first: Seq<MeetingKeyView>,
    second: Seq<MeetingKeyView>,
    key: MeetingKeyView,
)
    requires
        keys.len() <= MAX_VARIABLES,
        forall|k: int| 0 <= k < first.len() ==> keys.contains(#[trigger] first[k]),
        forall|k: int| 0 <= k < second.len() ==> keys.contains(#[trigger] second[k]),
        existence_clause(variables_of(keys, first)).to_set() == existence_clause(
            variables_of(keys, second),
        ).to_set(),
        first.contains(key),
    ensures
        second.contains(key),
{
    let clause = existence_clause(variables_of(keys, first));
    let other = existence_clause(variables_of(keys, second));
    let k = first.index_of(key);
    let literal = positive(variable_of(keys, key));
    assert(clause[k] == literal);
    assert(clause.to_set().contains(literal));
    assert(other.contains(literal));
    let k2 = other.index_of(literal);
    assert(other[k2] == positive(variable_of(keys, second[k2])));
    lemma_variable_injective(keys, key, second[k2]);
}

/// One existence clause per requirement, in the whole formula: unless
/// another requirement has the same feasible meetings, the existence clause
/// of a requirement is the only clause of the formula that is made of the
/// positive literals of exactly the requirement's feasible meetings, in
/// whatever order.
pub proof fn lemma_one_existence_clause(
    keys: Seq<MeetingKeyView>,
    students: Seq<StudentView>,
    educators: Seq<EducatorView>,
    i: int,
    r: int,
)
    requires
        0 <= i < students.len(),
        0 <= r < students[i].requirements.len(),
        requirement_keys(students[i], educators, r).len() > 0,
        keys.len() <= MAX_VARIABLES,
        forall|k: int|
            0 <= k < wanted_keys(students, educators, students.len() as int).len()
                ==> keys.contains(
                #[trigger] wanted_keys(students, educators, students.len() as int)[k],
            ),
        forall|i2: int, r2: int|
            0 <= i2 < students.len() && 0 <= r2 < students[i2].requirements.len() && (i2 != i
                || r2 != r) ==> (#[trigger] requirement_keys(
                students[i2],
                educators,
                r2,
            )).to_set() != requirement_keys(students[i], educators, r).to_set(),
    ensures
        ({
            let all = wanted_clauses(keys, students, educators, students.len() as int);
            let vars = variables_of(keys, requirement_keys(students[i], educators, r));
            let offset = clauses_before(keys, students, educators, i, r).len() as int;
            forall|c: int|
                0 <= c < all.len() ==> (all_positive(#[trigger] all[c]) && all[c].to_set()
                    == existence_clause(vars).to_set() <==> c == offset)
        }),
{
    let all = wanted_clauses(keys, students, educators, students.len() as int);
    let asked = requirement_keys(students[i], educators, r);
    let vars = variables_of(keys, asked);
    let offset = clauses_before(keys, students, educators, i, r).len() as int;
    lemma_existence_clause_in_formula(keys, students, educators, i, r);
    lemma_requirement_keys_registered(keys, students, educators, i, r);
    assert forall|c: int| 0 <= c < all.len() implies (all_positive(#[trigger] all[c])
        && all[c].to_set() == existence_clause(vars).to_set() <==> c == offset) by {
        if all_positive(all[c]) && all[c].to_set() == existence_clause(vars).to_set() {
            let (i2, r2) = lemma_find_block(keys, students, educators, students.len() as int, c);
            let asked2 = requirement_keys(students[i2], educators, r2);
            let vars2 = variables_of(keys, asked2);
            let offset2 = clauses_before(keys, students, educators, i2, r2).len() as int;
            lemma_existence_clause_in_formula(keys, students, educators, i2, r2);
            lemma_requirement_keys_registered(keys, students, educators, i2, r2);
            assert(c == offset2);
            assert(all[c] == existence_clause(vars2));
            if i2 != i || r2 != r {
                assert forall|key: MeetingKeyView| asked2.contains(key) implies asked.contains(
                    key,
                ) by {
                    lemma_same_literals_same_keys(keys, asked2, asked, key);
                }
                assert forall|key: MeetingKeyView| asked.contains(key) implies asked2.contains(
                    key,
                ) by {
                    lemma_same_literals_same_keys(keys, asked, asked2, key);
                }
                assert(asked2.to_set() =~= asked.to_set());
            }
        }
    }
}

/// Cardinality: where a requirement has more feasible meetings than meetings
/// asked for, its block holds the exclusion clause of every unordered pair of
/// the feasible meetings' variables.
pub proof fn lemma_cardinality(vars: Seq<Variable>, meetings_per_week: nat)
    requires
        meetings_per_week < vars.len(),
    ensures
        forall|a: int, b: int|
            0 <= a < b < vars.len() ==> requirement_clauses(vars, meetings_per_week).contains(
                #[trigger] exclusion_clause(vars[a], vars[b]),
            ),
{
    let block = requirement_clauses(vars, meetings_per_week);
    lemma_exclusion_rows(vars, vars.len() as int);
    assert forall|a: int, b: int| 0 <= a < b < vars.len() implies block.contains(
        #[trigger] exclusion_clause(vars[a], vars[b]),
    ) by {
        let clause = exclusion_clause(vars[a], vars[b]);
        let c = exclusion_clauses(vars).index_of(clause);
        assert(block[1 + c] == clause);
    }
}

/// What a model of a requirement's block says of the feasible meetings: at
/// least one of them takes place, and where there are more of them than
/// meetings asked for, no two of them take place, whatever the number asked
/// for.
pub proof fn lemma_block_model(model: Seq<Literal>, vars: Seq<Variable>, meetings_per_week: nat)
    requires
        model_consistent(model),
        formula_satisfied(model, requirement_clauses(vars, meetings_per_week)),
    ensures
        vars.len() > 0 ==> exists|k: int|
            0 <= k < vars.len() && model.contains(positive(#[trigger] vars[k])),
        meetings_per_week < vars.len() ==> forall|a: int, b: int|
            0 <= a < b < vars.len() ==> !(model.contains(positive(#[trigger] vars[a]))
                && model.contains(positive(#[trigger] vars[b]))),
{
    let block = requirement_clauses(vars, meetings_per_week);
    if vars.len() > 0 {
        let clause = existence_clause(vars);
        assert(block[0] == clause);
        assert(clause_satisfied(model, block[0]));
        let k = choose|k: int| 0 <= k < clause.len() && model.contains(#[trigger] clause[k]);
        assert(clause[k] == positive(vars[k]));
    }
    if meetings_per_week < vars.len() {
        lemma_cardinality(vars, meetings_per_week);
        assert forall|a: int, b: int| 0 <= a < b < vars.len() implies !(model.contains(
            positive(#[trigger] vars[a]),
        ) && model.contains(positive(#[trigger] vars[b]))) by {
            let clause = exclusion_clause(vars[a], vars[b]);
            let c = block.index_of(clause);
            assert(clause_satisfied(model, block[c]));
            let k = choose|k: int| 0 <= k < clause.len() && model.contains(#[trigger] clause[k]);
            if model.contains(positive(vars[a])) && model.contains(positive(vars[b])) {
                let held = clause[k];
                let at = model.index_of(held);
                if k == 0 {
                    let other = model.index_of(positive(vars[a]));
                    assert(model[at].var == model[other].var);
                } else {
                    let other = model.index_of(positive(vars[b]));
                    assert(model[at].var == model[other].var);
                }
            }
        }
    }
}

/// Cardinality in the formula: for a requirement with more feasible meetings
/// than meetings asked for, the clauses of all the students hold the
/// exclusion clause of every unordered pair of its feasible meetings, so a
/// consistent model of them lets at most one of these meetings take place,
/// however many were asked for.
pub proof fn lemma_cardinality_in_formula(
    keys: Seq<MeetingKeyView>,
    students: Seq<StudentView>,
    educators: Seq<EducatorView>,
    i: int,
    r: int,
    model: Seq<Literal>,
)
    requires
        0 <= i < students.len(),
        0 <= r < students[i].requirements.len(),
        students[i].requirements[r].meetings_per_week < requirement_keys(
            students[i],
            educators,
            r,
        ).len(),
    ensures
        ({
            let all = wanted_clauses(keys, students, educators, students.len() as int);
            let vars = variables_of(keys, requirement_keys(students[i], educators, r));
            &&& forall|a: int, b: int|
                0 <= a < b < vars.len() ==> all.contains(
                    #[trigger] exclusion_clause(vars[a], vars[b]),
                )
            &&& model_consistent(model) && formula_satisfied(model, all) ==> forall|a: int, b: int|
                0 <= a < b < vars.len() ==> !(model.contains(positive(#[trigger] vars[a]))
                    && model.contains(positive(#[trigger] vars[b])))
        }),
{
    let all = wanted_clauses(keys, students, educators, students.len() as int);
    let vars = variables_of(keys, requirement_keys(students[i], educators, r));
    let meetings = students[i].requirements[r].meetings_per_week;
    let block = requirement_block(keys, students[i], educators, r);
    let offset = clauses_before(keys, students, educators, i, r).len() as int;
    lemma_block_placement(keys, students, educators, i, r);
    lemma_cardinality(vars, meetings);
    assert forall|c: int| 0 <= c < block.len() implies all[offset + c] == #[trigger] block[c] by {
        assert(all.subrange(offset, offset + block.len())[c] == all[offset + c]);
    }
    assert forall|a: int, b: int| 0 <= a < b < vars.len() implies all.contains(
        #[trigger] exclusion_clause(vars[a], vars[b]),
    ) by {
        let c = block.index_of(exclusion_clause(vars[a], vars[b]));
        assert(all[offset + c] == block[c]);
    }
    if model_consistent(model) && formula_satisfied(model, all) {
        assert forall|c: int| 0 <= c < block.len() implies clause_satisfied(
            model,
            #[trigger] block[c],
        ) by {
            assert(clause_satisfied(model, all[offset + c]));
        }
        lemma_block_model(model, vars, meetings);
    }
}

/// A schedule meets requirement number `r` of the student when it has an
/// entry for each feasible meeting of the requirement, at least one of the
/// feasible meetings takes place, and, where there are more feasible
/// meetings than meetings asked for, no two of them take place.
pub open spec fn requirement_met(
    schedule: Map<MeetingKeyView, bool>,
    student: StudentView,
    educators: Seq<EducatorView>,
    r: int,
) -> bool {
    let keys = requirement_keys(student, educators, r);
    &&& forall|k: int| 0 <= k < keys.len() ==> schedule.dom().contains(#[trigger] keys[k])
    &&& keys.len() > 0 ==> exists|k: int| 0 <= k < keys.len() && schedule[#[trigger] keys[k]]
    &&& student.requirements[r].meetings_per_week < keys.len() ==> forall|a: int, b: int|
        0 <= a < b < keys.len() ==> !(schedule[#[trigger] keys[a]] && schedule[#[trigger] keys[b]])
}

/// A schedule meets every requirement of every student.
pub open spec fn requirements_met(
    schedule: Map<MeetingKeyView, bool>,
    students: Seq<StudentView>,
    educators: Seq<EducatorView>,
) -> bool {
    forall|i: int, r: int|
        0 <= i < students.len() && 0 <= r < students[i].requirements.len()
            ==> #[trigger] requirement_met(schedule, students[i], educators, r)
}

/// The schedule read from a model of the formula meets every requirement:
/// whenever the registry holds the keys that the students ask for and the
/// formula holds their clauses, a consistent model of the formula decodes to
/// a schedule in which each requirement with feasible meetings has a meeting,
/// and has no second one where its feasible meetings outnumber the meetings
/// asked for.
pub proof fn lemma_model_meets_requirements(
    keys: Seq<MeetingKeyView>,
    clauses: Seq<Seq<Literal>>,
    students: Seq<StudentView>,
    educators: Seq<EducatorView>,
    model: Seq<Literal>,
)
    requires
        forall|k: int|
            0 <= k < wanted_keys(students, educators, students.len() as int).len()
                ==> keys.contains(
                #[trigger] wanted_keys(students, educators, students.len() as int)[k],
            ),
        forall|c: int|
            0 <= c < wanted_clauses(keys, students, educators, students.len() as int).len()
                ==> clauses.contains(
                #[trigger] wanted_clauses(keys, students, educators, students.len() as int)[c],
            ),
        model_consistent(model),
        formula_satisfied(model, clauses),
    ensures
        requirements_met(decoded(keys, model), students, educators),
{
    let schedule = decoded(keys, model);
    let all = wanted_clauses(keys, students, educators, students.len() as int);
    assert forall|i: int, r: int|
        0 <= i < students.len() && 0 <= r < students[i].requirements.len()
        implies #[trigger] requirement_met(schedule, students[i], educators, r) by {
        let asked = requirement_keys(students[i], educators, r);
        let vars = variables_of(keys, asked);
        let meetings = students[i].requirements[r].meetings_per_week;
        let block = requirement_block(keys, students[i], educators, r);
        let offset = clauses_before(keys, students, educators, i, r).len() as int;
        lemma_requirement_keys_registered(keys, students, educators, i, r);
        lemma_block_placement(keys, students, educators, i, r);
        assert forall|c: int| 0 <= c < block.len() implies clause_satisfied(
            model,
            #[trigger] block[c],
        ) by {
            assert(block[c] == all.subrange(offset, offset + block.len())[c]);
            assert(block[c] == all[offset + c]);
            let at = clauses.index_of(all[offset + c]);
            assert(clause_satisfied(model, clauses[at]));
        }
        lemma_block_model(model, vars, meetings);
        if asked.len() > 0 {
            let k = choose|k: int|
                0 <= k < vars.len() && model.contains(positive(#[trigger] vars[k]));
            assert(schedule[asked[k]]);
        }
        if meetings < asked.len() {
            assert forall|a: int, b: int| 0 <= a < b < asked.len() implies !(schedule[
                #[trigger] asked[a]] && schedule[#[trigger] asked[b]]) by {
                assert(schedule[asked[a]] == model.contains(positive(vars[a])));
                assert(schedule[asked[b]] == model.contains(positive(vars[b])));
            }
        }
    }
}

/// Building twice changes nothing a solver can tell: when the requirements
/// are added a second time, no key is registered, every meeting keeps its
/// variable, and the longer formula has the same models as the first one, so
/// a schedule found for one satisfies the other.
pub proof fn lemma_rebuild_keeps_models(
    start_keys: Seq<MeetingKeyView>,
    start_clauses: Seq<Seq<Literal>>,
    students: Seq<StudentView>,
    educators: Seq<EducatorView>,
)
    requires
        start_keys.no_duplicates(),
    ensures
        ({
            let wanted = wanted_keys(students, educators, students.len() as int);
            let keys = request_all(start_keys, wanted);
            let clauses = start_clauses + wanted_clauses(
                keys,
                students,
                educators,
                students.len() as int,
            );
            let keys_again = request_all(keys, wanted);
            let clauses_again = clauses + wanted_clauses(
                keys_again,
                students,
                educators,
                students.len() as int,
            );
            &&& keys_again == keys
            &&& forall|model: Seq<Literal>|
                #![trigger formula_satisfied(model, clauses_again)]
                #![trigger formula_satisfied(model, clauses)]
                formula_satisfied(model, clauses_again) <==> formula_satisfied(model, clauses)
        }),
{
    let wanted = wanted_keys(students, educators, students.len() as int);
    let keys = request_all(start_keys, wanted);
    let block = wanted_clauses(keys, students, educators, students.len() as int);
    let clauses = start_clauses + block;
    let clauses_again = clauses + block;
    lemma_request_all(start_keys, wanted);
    lemma_request_all_present(keys, wanted);
    assert forall|model: Seq<Literal>|
        #![trigger formula_satisfied(model, clauses_again)]
        #![trigger formula_satisfied(model, clauses)]
        formula_satisfied(model, clauses_again) <==> formula_satisfied(model, clauses) by {
        if formula_satisfied(model, clauses_again) {
            assert forall|c: int| 0 <= c < clauses.len() implies clause_satisfied(
                model,
                #[trigger] clauses[c],
            ) by {
                assert(clauses[c] == clauses_again[c]);
            }
        }
        if formula_satisfied(model, clauses) {
            assert forall|c: int| 0 <= c < clauses_again.len() implies clause_satisfied(
                model,
                #[trigger] clauses_again[c],
            ) by {
                if c < clauses.len() {
                    assert(clauses_again[c] == clauses[c]);
                } else {
                    assert(clauses_again[c] == clauses[start_clauses.len() + (c - clauses.len())]);
                }
            }
        }
    }
}

} // verus!
