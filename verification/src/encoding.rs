//! What the formula of a scheduling problem is.
//!
//! Every requirement of every student contributes the keys of its feasible
//! meetings to the registry and a block of clauses to the formula: one clause
//! that asks for a meeting, and, where there are more feasible slots than
//! meetings asked for, one clause for each pair of feasible meetings that
//! forbids both at once.

use vstd::prelude::*;
use crate::cnf::{negative, positive, Literal, Variable, MAX_VARIABLES};
use crate::domain::{EducatorView, StudentView, TimeSlot};
use crate::registry::{
    lemma_variables_stable, meeting_key, request_all, variables_of, MeetingKeyView,
};
use crate::sequences::{lemma_prefix_concat, lemma_prefix_reflexive, lemma_prefix_transitive};

verus! {

/// The slots in which both parties are available: each slot of the student
/// that the educator offers too, once, in the order in which the student
/// first lists it.
pub open spec fn feasible_slots(student_slots: Seq<TimeSlot>, educator_slots: Seq<TimeSlot>) -> Seq<
    TimeSlot,
>
    decreases student_slots.len(),
{
    if student_slots.len() == 0 {
        Seq::empty()
    } else {
        let earlier = feasible_slots(student_slots.drop_last(), educator_slots);
        let slot = student_slots.last();
        if educator_slots.contains(slot) && !earlier.contains(slot) {
            earlier.push(slot)
        } else {
            earlier
        }
    }
}

/// The feasible slots are the intersection of the two availabilities, as a
/// set: no slot twice, and a slot is feasible exactly when both offer it.
pub proof fn lemma_feasible_slots(student_slots: Seq<TimeSlot>, educator_slots: Seq<TimeSlot>)
    ensures
        feasible_slots(student_slots, educator_slots).no_duplicates(),
        feasible_slots(student_slots, educator_slots).len() <= student_slots.len(),
        forall|slot: TimeSlot|
            feasible_slots(student_slots, educator_slots).contains(slot) <==> {
                &&& student_slots.contains(slot)
                &&& educator_slots.contains(slot)
            },
    decreases student_slots.len(),
{
    let feasible = feasible_slots(student_slots, educator_slots);
    if student_slots.len() > 0 {
        let shorter = student_slots.drop_last();
        let earlier = feasible_slots(shorter, educator_slots);
        let last = student_slots.last();
        lemma_feasible_slots(shorter, educator_slots);
        assert forall|slot: TimeSlot| feasible.contains(slot) <==> student_slots.contains(slot)
            && educator_slots.contains(slot) by {
            if feasible.contains(slot) {
                let i = feasible.index_of(slot);
                if i < earlier.len() {
                    assert(earlier[i] == slot);
                    assert(shorter.contains(slot));
                    let k = shorter.index_of(slot);
                    assert(student_slots[k] == slot);
                } else {
                    assert(slot == last);
                    assert(student_slots[student_slots.len() - 1] == slot);
                }
            }
            if student_slots.contains(slot) && educator_slots.contains(slot) {
                let k = student_slots.index_of(slot);
                if k < shorter.len() {
                    assert(shorter[k] == slot);
                    assert(earlier.contains(slot));
                    let i = earlier.index_of(slot);
                    assert(feasible[i] == slot);
                } else if earlier.contains(slot) {
                    let i = earlier.index_of(slot);
                    assert(feasible[i] == slot);
                } else {
                    assert(feasible[earlier.len() as int] == slot);
                }
            }
        }
    }
}

/// Some educator of the list has this id.
pub open spec fn educator_known(educators: Seq<EducatorView>, id: Seq<char>) -> bool {
    exists|k: int| 0 <= k < educators.len() && (#[trigger] educators[k]).id == id
}

/// Educator number `k` is the first of the list with this id.
pub open spec fn is_first_educator(educators: Seq<EducatorView>, id: Seq<char>, k: int) -> bool {
    &&& 0 <= k < educators.len()
    &&& educators[k].id == id
    &&& forall|j: int| 0 <= j < k ==> (#[trigger] educators[j]).id != id
}

/// The position of the first educator with this id.
pub open spec fn educator_index(educators: Seq<EducatorView>, id: Seq<char>) -> int {
    choose|k: int| is_first_educator(educators, id, k)
}

/// The first educator with a given id is the one that `educator_index` names.
pub proof fn lemma_educator_index(educators: Seq<EducatorView>, id: Seq<char>, k: int)
    requires
        is_first_educator(educators, id, k),
    ensures
        educator_index(educators, id) == k,
{
    let chosen = educator_index(educators, id);
    assert(is_first_educator(educators, id, chosen));
    if chosen < k {
        assert(educators[chosen].id != id);
    }
    if k < chosen {
        assert(educators[k].id != id);
    }
}

/// Every requirement names an educator of the list.
pub open spec fn all_educators_known(
    students: Seq<StudentView>,
    educators: Seq<EducatorView>,
) -> bool {
    forall|i: int, r: int|
        0 <= i < students.len() && 0 <= r < students[i].requirements.len() ==> educator_known(
            educators,
            (#[trigger] students[i].requirements[r]).educator_id,
        )
}

/// Requirement `r` of student `i` names no educator of the list, and it is
/// the first requirement to do so, going through the students in order and
/// through each student's requirements in order.
pub open spec fn is_first_unknown(
    students: Seq<StudentView>,
    educators: Seq<EducatorView>,
    i: int,
    r: int,
) -> bool {
    &&& 0 <= i < students.len()
    &&& 0 <= r < students[i].requirements.len()
    &&& !educator_known(educators, students[i].requirements[r].educator_id)
    &&& forall|i2: int, r2: int|
        0 <= i2 < students.len() && 0 <= r2 < students[i2].requirements.len() && (i2 < i || (i2
            == i && r2 < r)) ==> educator_known(
            educators,
            (#[trigger] students[i2].requirements[r2]).educator_id,
        )
}

/// The clause that asks for at least one of the meetings to take place.
pub open spec fn existence_clause(vars: Seq<Variable>) -> Seq<Literal> {
    vars.map_values(|var: Variable| positive(var))
}

/// The clause that forbids two meetings to take place both.
pub open spec fn exclusion_clause(a: Variable, b: Variable) -> Seq<Literal> {
    seq![negative(a), negative(b)]
}

/// The exclusion clauses of variable number `i` with the variables after it
/// and before number `end`, in order.
pub open spec fn exclusion_row(vars: Seq<Variable>, i: int, end: int) -> Seq<Seq<Literal>>
    decreases end - i,
{
    if end <= i + 1 {
        Seq::empty()
    } else {
        exclusion_row(vars, i, end - 1).push(exclusion_clause(vars[i], vars[end - 1]))
    }
}

/// The exclusion clauses of the first `rows` variables, each with the
/// variables after it.
pub open spec fn exclusion_rows(vars: Seq<Variable>, rows: int) -> Seq<Seq<Literal>>
    decreases rows,
{
    if rows <= 0 {
        Seq::empty()
    } else {
        exclusion_rows(vars, rows - 1) + exclusion_row(vars, rows - 1, vars.len() as int)
    }
}

/// One exclusion clause for each unordered pair of the variables: the
/// pairwise encoding of "at most one".
pub open spec fn exclusion_clauses(vars: Seq<Variable>) -> Seq<Seq<Literal>> {
    exclusion_rows(vars, vars.len() as int)
}

/// The clauses of a requirement whose feasible meetings have the variables
/// `vars`: the existence clause, unless there is no feasible meeting, and the
/// exclusion clauses, if there are more feasible meetings than meetings asked
/// for.
pub open spec fn requirement_clauses(vars: Seq<Variable>, meetings_per_week: nat) -> Seq<
    Seq<Literal>,
> {
    (if vars.len() > 0 {
        seq![existence_clause(vars)]
    } else {
        Seq::empty()
    }) + (if meetings_per_week < vars.len() {
        exclusion_clauses(vars)
    } else {
        Seq::empty()
    })
}

/// Every literal of the clause is positive.
pub open spec fn all_positive(clause: Seq<Literal>) -> bool {
    forall|i: int| 0 <= i < clause.len() ==> (#[trigger] clause[i]).polarity
}

/// The clause is the exclusion clause of two of the variables.
pub open spec fn excludes_pair(vars: Seq<Variable>, clause: Seq<Literal>) -> bool {
    exists|a: int, b: int|
        0 <= a < b < vars.len() && clause == #[trigger] exclusion_clause(vars[a], vars[b])
}

/// A row holds the exclusion clause of each pair it stands for, and nothing
/// else.
pub proof fn lemma_exclusion_row(vars: Seq<Variable>, i: int, end: int)
    requires
        0 <= i < vars.len(),
        end <= vars.len(),
    ensures
        forall|b: int|
            i < b < end ==> exclusion_row(vars, i, end).contains(
                #[trigger] exclusion_clause(vars[i], vars[b]),
            ),
        forall|c: int|
            0 <= c < exclusion_row(vars, i, end).len() ==> excludes_pair(
                vars,
                #[trigger] exclusion_row(vars, i, end)[c],
            ),
    decreases end - i,
{
    let row = exclusion_row(vars, i, end);
    if end > i + 1 {
        let shorter = exclusion_row(vars, i, end - 1);
        lemma_exclusion_row(vars, i, end - 1);
        assert forall|b: int| i < b < end implies row.contains(
            #[trigger] exclusion_clause(vars[i], vars[b]),
        ) by {
            if b < end - 1 {
                let c = shorter.index_of(exclusion_clause(vars[i], vars[b]));
                assert(row[c] == exclusion_clause(vars[i], vars[b]));
            } else {
                assert(row[shorter.len() as int] == exclusion_clause(vars[i], vars[b]));
            }
        }
        assert forall|c: int| 0 <= c < row.len() implies excludes_pair(vars, #[trigger] row[c]) by {
            if c < shorter.len() {
                assert(row[c] == shorter[c]);
            } else {
                assert(row[c] == exclusion_clause(vars[i], vars[end - 1]));
            }
        }
    }
}

/// The rows hold the exclusion clause of each pair whose first variable is
/// among them, and nothing else.
pub proof fn lemma_exclusion_rows(vars: Seq<Variable>, rows: int)
    requires
        rows <= vars.len(),
    ensures
        forall|a: int, b: int|
            0 <= a < rows && a < b < vars.len() ==> exclusion_rows(vars, rows).contains(
                #[trigger] exclusion_clause(vars[a], vars[b]),
            ),
        forall|c: int|
            0 <= c < exclusion_rows(vars, rows).len() ==> excludes_pair(
                vars,
                #[trigger] exclusion_rows(vars, rows)[c],
            ),
    decreases rows,
{
    let all = exclusion_rows(vars, rows);
    if rows > 0 {
        let earlier = exclusion_rows(vars, rows - 1);
        let row = exclusion_row(vars, rows - 1, vars.len() as int);
        lemma_exclusion_rows(vars, rows - 1);
        lemma_exclusion_row(vars, rows - 1, vars.len() as int);
        assert forall|a: int, b: int| 0 <= a < rows && a < b < vars.len() implies all.contains(
            #[trigger] exclusion_clause(vars[a], vars[b]),
        ) by {
            let clause = exclusion_clause(vars[a], vars[b]);
            if a < rows - 1 {
                let c = earlier.index_of(clause);
                assert(all[c] == clause);
            } else {
                let c = row.index_of(clause);
                assert(all[earlier.len() + c] == clause);
            }
        }
        assert forall|c: int| 0 <= c < all.len() implies excludes_pair(vars, #[trigger] all[c]) by {
            if c < earlier.len() {
                assert(all[c] == earlier[c]);
            } else {
                assert(all[c] == row[c - earlier.len()]);
            }
        }
    }
}

/// A row has one clause for each variable after its own and before `end`.
pub proof fn lemma_exclusion_row_count(vars: Seq<Variable>, i: int, end: int)
    ensures
        exclusion_row(vars, i, end).len() == if end > i {
            end - i - 1
        } else {
            0
        },
    decreases end - i,
{
    if end > i + 1 {
        lemma_exclusion_row_count(vars, i, end - 1);
    }
}

/// There are as many exclusion clauses as unordered pairs of variables: half
/// of `n * (n - 1)` for `n` variables.
pub proof fn lemma_exclusion_count(vars: Seq<Variable>, rows: int)
    requires
        0 <= rows <= vars.len(),
    ensures
        2 * exclusion_rows(vars, rows).len() == rows * (2 * vars.len() - rows - 1),
        rows == vars.len() ==> 2 * exclusion_clauses(vars).len() == vars.len() * (vars.len() - 1),
    decreases rows,
{
    let n = vars.len() as int;
    if rows > 0 {
        lemma_exclusion_count(vars, rows - 1);
        lemma_exclusion_row_count(vars, rows - 1, n);
        assert((rows - 1) * (2 * n - (rows - 1) - 1) + 2 * (n - rows) == rows * (2 * n - rows - 1))
            by (nonlinear_arith);
    } else {
        assert(rows * (2 * n - rows - 1) == 0) by (nonlinear_arith)
            requires
                rows == 0,
        ;
    }
    if rows == n {
        assert(rows * (2 * n - rows - 1) == n * (n - 1)) by (nonlinear_arith)
            requires
                rows == n,
        ;
    }
}

/// The keys of the meetings of one student with one educator in the given
/// slots, in order.
pub open spec fn slot_keys(
    student_id: Seq<char>,
    educator_id: Seq<char>,
    slots: Seq<TimeSlot>,
) -> Seq<MeetingKeyView> {
    slots.map_values(|slot: TimeSlot| meeting_key(student_id, educator_id, slot))
}

/// The educator that requirement number `r` of the student names.
pub open spec fn requirement_educator(
    student: StudentView,
    educators: Seq<EducatorView>,
    r: int,
) -> EducatorView {
    educators[educator_index(educators, student.requirements[r].educator_id)]
}

/// The keys of the feasible meetings of requirement number `r` of the
/// student.
pub open spec fn requirement_keys(
    student: StudentView,
    educators: Seq<EducatorView>,
    r: int,
) -> Seq<MeetingKeyView> {
    slot_keys(
        student.id,
        student.requirements[r].educator_id,
        feasible_slots(
            student.available_slots,
            requirement_educator(student, educators, r).available_slots,
        ),
    )
}

/// The clauses of requirement number `r` of the student, over the variables
/// that the registered `keys` give its feasible meetings.
pub open spec fn requirement_block(
    keys: Seq<MeetingKeyView>,
    student: StudentView,
    educators: Seq<EducatorView>,
    r: int,
) -> Seq<Seq<Literal>> {
    requirement_clauses(
        variables_of(keys, requirement_keys(student, educators, r)),
        student.requirements[r].meetings_per_week,
    )
}

/// The keys that the first `n` requirements of the student ask for, in the
/// order of the requests.
pub open spec fn student_keys(student: StudentView, educators: Seq<EducatorView>, n: int) -> Seq<
    MeetingKeyView,
>
    decreases n,
{
    if n <= 0 {
        Seq::empty()
    } else {
        student_keys(student, educators, n - 1) + requirement_keys(student, educators, n - 1)
    }
}

/// The clauses of the first `n` requirements of the student, block after
/// block.
pub open spec fn student_clauses(
    keys: Seq<MeetingKeyView>,
    student: StudentView,
    educators: Seq<EducatorView>,
    n: int,
) -> Seq<Seq<Literal>>
    decreases n,
{
    if n <= 0 {
        Seq::empty()
    } else {
        student_clauses(keys, student, educators, n - 1) + requirement_block(
            keys,
            student,
            educators,
            n - 1,
        )
    }
}

/// The keys that the first `n` students ask for, in the order of the
/// requests.
pub open spec fn wanted_keys(
    students: Seq<StudentView>,
    educators: Seq<EducatorView>,
    n: int,
) -> Seq<MeetingKeyView>
    decreases n,
{
    if n <= 0 {
        Seq::empty()
    } else {
        wanted_keys(students, educators, n - 1) + student_keys(
            students[n - 1],
            educators,
            students[n - 1].requirements.len() as int,
        )
    }
}

/// The clauses of the first `n` students, student after student.
pub open spec fn wanted_clauses(
    keys: Seq<MeetingKeyView>,
    students: Seq<StudentView>,
    educators: Seq<EducatorView>,
    n: int,
) -> Seq<Seq<Literal>>
    decreases n,
{
    if n <= 0 {
        Seq::empty()
    } else {
        wanted_clauses(keys, students, educators, n - 1) + student_clauses(
            keys,
            students[n - 1],
            educators,
            students[n - 1].requirements.len() as int,
        )
    }
}

/// The keys that are asked for before requirement `r` of student `i` is
/// reached.
pub open spec fn keys_before(
    students: Seq<StudentView>,
    educators: Seq<EducatorView>,
    i: int,
    r: int,
) -> Seq<MeetingKeyView> {
    wanted_keys(students, educators, i) + student_keys(students[i], educators, r)
}

/// The clauses that are emitted before requirement `r` of student `i` is
/// reached.
pub open spec fn clauses_before(
    keys: Seq<MeetingKeyView>,
    students: Seq<StudentView>,
    educators: Seq<EducatorView>,
    i: int,
    r: int,
) -> Seq<Seq<Literal>> {
    wanted_clauses(keys, students, educators, i) + student_clauses(
        keys,
        students[i],
        educators,
        r,
    )
}

/// Requirement `r` of student `i` is where the variables run out: starting
/// from the registered keys `start`, a formula can hold the variables of all
/// keys asked for before that requirement, and cannot hold those of the
/// requirement as well.
pub open spec fn is_overflow_point(
    start: Seq<MeetingKeyView>,
    students: Seq<StudentView>,
    educators: Seq<EducatorView>,
    i: int,
    r: int,
) -> bool {
    &&& 0 <= i < students.len()
    &&& 0 <= r < students[i].requirements.len()
    &&& request_all(start, keys_before(students, educators, i, r)).len() <= MAX_VARIABLES
    &&& request_all(start, keys_before(students, educators, i, r + 1)).len() > MAX_VARIABLES
}

/// The keys of a student's first requirements begin the keys of more of
/// their requirements.
pub proof fn lemma_student_keys_prefix(
    student: StudentView,
    educators: Seq<EducatorView>,
    r: int,
    n: int,
)
    requires
        0 <= r <= n,
    ensures
        student_keys(student, educators, r).is_prefix_of(student_keys(student, educators, n)),
    decreases n - r,
{
    let part = student_keys(student, educators, r);
    if r == n {
        lemma_prefix_reflexive(part);
    } else {
        lemma_student_keys_prefix(student, educators, r, n - 1);
        lemma_prefix_concat(
            student_keys(student, educators, n - 1),
            Seq::empty(),
            requirement_keys(student, educators, n - 1),
        );
        lemma_prefix_transitive(
            part,
            student_keys(student, educators, n - 1),
            student_keys(student, educators, n),
        );
    }
}

/// The keys of the first students begin the keys of more students.
pub proof fn lemma_wanted_keys_prefix(
    students: Seq<StudentView>,
    educators: Seq<EducatorView>,
    i: int,
    n: int,
)
    requires
        0 <= i <= n,
    ensures
        wanted_keys(students, educators, i).is_prefix_of(wanted_keys(students, educators, n)),
    decreases n - i,
{
    let part = wanted_keys(students, educators, i);
    if i == n {
        lemma_prefix_reflexive(part);
    } else {
        lemma_wanted_keys_prefix(students, educators, i, n - 1);
        lemma_prefix_concat(
            wanted_keys(students, educators, n - 1),
            Seq::empty(),
            student_keys(students[n - 1], educators, students[n - 1].requirements.len() as int),
        );
        lemma_prefix_transitive(
            part,
            wanted_keys(students, educators, n - 1),
            wanted_keys(students, educators, n),
        );
    }
}

/// What is asked for before a requirement is reached begins what all the
/// students ask for.
pub proof fn lemma_keys_before_prefix(
    students: Seq<StudentView>,
    educators: Seq<EducatorView>,
    i: int,
    r: int,
)
    requires
        0 <= i < students.len(),
        0 <= r <= students[i].requirements.len(),
    ensures
        keys_before(students, educators, i, r).is_prefix_of(
            wanted_keys(students, educators, students.len() as int),
        ),
{
    let all = students[i].requirements.len() as int;
    lemma_student_keys_prefix(students[i], educators, r, all);
    lemma_prefix_concat(
        wanted_keys(students, educators, i),
        student_keys(students[i], educators, r),
        student_keys(students[i], educators, all),
    );
    lemma_wanted_keys_prefix(students, educators, i + 1, students.len() as int);
    lemma_prefix_transitive(
        keys_before(students, educators, i, r),
        wanted_keys(students, educators, i + 1),
        wanted_keys(students, educators, students.len() as int),
    );
}

/// The clauses of a student's first requirements begin the clauses of more
/// of their requirements.
pub proof fn lemma_student_clauses_prefix(
    keys: Seq<MeetingKeyView>,
    student: StudentView,
    educators: Seq<EducatorView>,
    r: int,
    n: int,
)
    requires
        0 <= r <= n,
    ensures
        student_clauses(keys, student, educators, r).is_prefix_of(
            student_clauses(keys, student, educators, n),
        ),
    decreases n - r,
{
    let part = student_clauses(keys, student, educators, r);
    if r == n {
        lemma_prefix_reflexive(part);
    } else {
        lemma_student_clauses_prefix(keys, student, educators, r, n - 1);
        lemma_prefix_concat(
            student_clauses(keys, student, educators, n - 1),
            Seq::empty(),
            requirement_block(keys, student, educators, n - 1),
        );
        lemma_prefix_transitive(
            part,
            student_clauses(keys, student, educators, n - 1),
            student_clauses(keys, student, educators, n),
        );
    }
}

/// The clauses of the first students begin the clauses of more students.
pub proof fn lemma_wanted_clauses_prefix(
    keys: Seq<MeetingKeyView>,
    students: Seq<StudentView>,
    educators: Seq<EducatorView>,
    i: int,
    n: int,
)
    requires
        0 <= i <= n,
    ensures
        wanted_clauses(keys, students, educators, i).is_prefix_of(
            wanted_clauses(keys, students, educators, n),
        ),
    decreases n - i,
{
    let part = wanted_clauses(keys, students, educators, i);
    if i == n {
        lemma_prefix_reflexive(part);
    } else {
        lemma_wanted_clauses_prefix(keys, students, educators, i, n - 1);
        lemma_prefix_concat(
            wanted_clauses(keys, students, educators, n - 1),
            Seq::empty(),
            student_clauses(
                keys,
                students[n - 1],
                educators,
                students[n - 1].requirements.len() as int,
            ),
        );
        lemma_prefix_transitive(
            part,
            wanted_clauses(keys, students, educators, n - 1),
            wanted_clauses(keys, students, educators, n),
        );
    }
}

/// The clauses emitted before a requirement is reached begin the clauses of
/// all the students.
pub proof fn lemma_clauses_before_prefix(
    keys: Seq<MeetingKeyView>,
    students: Seq<StudentView>,
    educators: Seq<EducatorView>,
    i: int,
    r: int,
)
    requires
        0 <= i < students.len(),
        0 <= r <= students[i].requirements.len(),
    ensures
        clauses_before(keys, students, educators, i, r).is_prefix_of(
            wanted_clauses(keys, students, educators, students.len() as int),
        ),
{
    let all = students[i].requirements.len() as int;
    lemma_student_clauses_prefix(keys, students[i], educators, r, all);
    lemma_prefix_concat(
        wanted_clauses(keys, students, educators, i),
        student_clauses(keys, students[i], educators, r),
        student_clauses(keys, students[i], educators, all),
    );
    lemma_wanted_clauses_prefix(keys, students, educators, i + 1, students.len() as int);
    lemma_prefix_transitive(
        clauses_before(keys, students, educators, i, r),
        wanted_clauses(keys, students, educators, i + 1),
        wanted_clauses(keys, students, educators, students.len() as int),
    );
}

/// The clauses of a student's first requirements do not change while further
/// keys are registered, once the keys of those requirements are.
pub proof fn lemma_student_clauses_stable(
    before: Seq<MeetingKeyView>,
    after: Seq<MeetingKeyView>,
    student: StudentView,
    educators: Seq<EducatorView>,
    n: int,
)
    requires
        after.no_duplicates(),
        before.is_prefix_of(after),
        forall|k: int|
            0 <= k < student_keys(student, educators, n).len() ==> before.contains(
                #[trigger] student_keys(student, educators, n)[k],
            ),
    ensures
        student_clauses(after, student, educators, n) == student_clauses(
            before,
            student,
            educators,
            n,
        ),
    decreases n,
{
    if n > 0 {
        let earlier = student_keys(student, educators, n - 1);
        let last = requirement_keys(student, educators, n - 1);
        assert forall|k: int| 0 <= k < earlier.len() implies before.contains(
            #[trigger] earlier[k],
        ) by {
            assert(earlier[k] == student_keys(student, educators, n)[k]);
        }
        assert forall|k: int| 0 <= k < last.len() implies before.contains(#[trigger] last[k]) by {
            assert(last[k] == student_keys(student, educators, n)[earlier.len() + k]);
        }
        lemma_student_clauses_stable(before, after, student, educators, n - 1);
        lemma_variables_stable(before, after, last);
    }
}

/// The clauses of the first students do not change while further keys are
/// registered, once the keys of those students are.
pub proof fn lemma_wanted_clauses_stable(
    before: Seq<MeetingKeyView>,
    after: Seq<MeetingKeyView>,
    students: Seq<StudentView>,
    educators: Seq<EducatorView>,
    n: int,
)
    requires
        after.no_duplicates(),
        before.is_prefix_of(after),
        forall|k: int|
            0 <= k < wanted_keys(students, educators, n).len() ==> before.contains(
                #[trigger] wanted_keys(students, educators, n)[k],
            ),
    ensures
        wanted_clauses(after, students, educators, n) == wanted_clauses(
            before,
            students,
            educators,
            n,
        ),
    decreases n,
{
    if n > 0 {
        let earlier = wanted_keys(students, educators, n - 1);
        let student = students[n - 1];
        let all = student.requirements.len() as int;
        let last = student_keys(student, educators, all);
        assert forall|k: int| 0 <= k < earlier.len() implies before.contains(
            #[trigger] earlier[k],
        ) by {
            assert(earlier[k] == wanted_keys(students, educators, n)[k]);
        }
        assert forall|k: int| 0 <= k < last.len() implies before.contains(#[trigger] last[k]) by {
            assert(last[k] == wanted_keys(students, educators, n)[earlier.len() + k]);
        }
        lemma_wanted_clauses_stable(before, after, students, educators, n - 1);
        lemma_student_clauses_stable(before, after, student, educators, all);
    }
}

/// The clauses emitted before a requirement is reached do not change while
/// further keys are registered, once the keys asked for until then are.
pub proof fn lemma_clauses_before_stable(
    before: Seq<MeetingKeyView>,
    after: Seq<MeetingKeyView>,
    students: Seq<StudentView>,
    educators: Seq<EducatorView>,
    i: int,
    r: int,
)
    requires
        after.no_duplicates(),
        before.is_prefix_of(after),
        forall|k: int|
            0 <= k < keys_before(students, educators, i, r).len() ==> before.contains(
                #[trigger] keys_before(students, educators, i, r)[k],
            ),
    ensures
        clauses_before(after, students, educators, i, r) == clauses_before(
            before,
            students,
            educators,
            i,
            r,
        ),
{
    let earlier = wanted_keys(students, educators, i);
    let last = student_keys(students[i], educators, r);
    assert forall|k: int| 0 <= k < earlier.len() implies before.contains(#[trigger] earlier[k]) by {
        assert(earlier[k] == keys_before(students, educators, i, r)[k]);
    }
    assert forall|k: int| 0 <= k < last.len() implies before.contains(#[trigger] last[k]) by {
        assert(last[k] == keys_before(students, educators, i, r)[earlier.len() + k]);
    }
    lemma_wanted_clauses_stable(before, after, students, educators, i);
    lemma_student_clauses_stable(before, after, students[i], educators, r);
}

} // verus!
