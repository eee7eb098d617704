//! The scheduler: from students and educators to a formula, and from a model
//! of the formula to the meetings that take place.

use vstd::prelude::*;
use varisat::CnfFormula;
use crate::cnf::{
    formula_clauses, formula_new, formula_satisfied, formula_to_clauses, formula_var_count,
    model_consistent, Literal, Variable, MAX_VARIABLES,
};
use crate::constraints::{add_requirement, first_unknown_educator, resolve_educator};
use crate::decoded::{decoded, DecodedSchedule};
use crate::domain::{
    educator_views, student_views, Educator, EducatorView, Student, StudentView, TimeSlot,
};
use crate::encoding::{
    all_educators_known, clauses_before, is_first_unknown, is_overflow_point, keys_before,
    lemma_clauses_before_stable, lemma_educator_index, lemma_keys_before_prefix, requirement_keys,
    wanted_clauses, wanted_keys,
};
use crate::laws::{lemma_model_meets_requirements, requirements_met};
use crate::registry::{
    lemma_request_all, lemma_request_all_concat, lemma_request_all_grows, meeting_key, request,
    request_all, variable_of, MeetingKeyView, VariableRegistry,
};
use crate::sat::{solver_add_formula, solver_clauses, solver_model, solver_new, solver_solve};
use crate::sequences::{
    lemma_prefix_of_length, lemma_prefix_of_sum, lemma_prefix_reflexive, lemma_prefix_transitive,
};

verus! {

/// Why no formula could be built.
#[derive(Debug, Clone, Copy, PartialEq, Eq, Structural)]
pub enum SchedulerError {
    /// A requirement names an educator who is not on the list: requirement
    /// number `requirement` of student number `student`, both counted from
    /// zero.
    EducatorNotFound { student: usize, requirement: usize },
    /// The feasible meetings need more variables than a formula can hold.
    TooManyVariables,
}

/// A scheduling problem together with the formula that encodes it and the
/// registry that says which variable stands for which meeting.
pub struct Scheduler {
    students: Vec<Student>,
    educators: Vec<Educator>,
    formula: CnfFormula,
    meeting_vars: VariableRegistry,
}

impl Scheduler {
    /// The students of the problem.
    pub closed spec fn students_view(&self) -> Seq<StudentView> {
        student_views(self.students@)
    }

    /// The educators of the problem.
    pub closed spec fn educators_view(&self) -> Seq<EducatorView> {
        educator_views(self.educators@)
    }

    /// The keys of the registered meetings, in the order of registration.
    pub closed spec fn keys(&self) -> Seq<MeetingKeyView> {
        self.meeting_vars@
    }

    /// The clauses of the formula, in the order in which they were added.
    pub closed spec fn clauses(&self) -> Seq<Seq<Literal>> {
        formula_clauses(self.formula)
    }

    /// The variables of the formula are those of the registry, in order.
    pub closed spec fn variables_match(&self) -> bool {
        &&& self.meeting_vars.variables_in_order()
        &&& formula_var_count(self.formula) == self.meeting_vars@.len()
    }

    /// No meeting is registered twice, and registry and formula agree on the
    /// variables.
    pub open spec fn wf(&self) -> bool {
        &&& self.keys().no_duplicates()
        &&& self.keys().len() <= MAX_VARIABLES
        &&& self.variables_match()
    }

    /// The keys that are registered once every requirement has been added:
    /// those registered now, then the keys that the students ask for, each
    /// where it is first asked for.
    pub open spec fn needed_keys(&self) -> Seq<MeetingKeyView> {
        request_all(
            self.keys(),
            wanted_keys(
                self.students_view(),
                self.educators_view(),
                self.students_view().len() as int,
            ),
        )
    }

    /// This scheduler is `before` with every requirement added: it holds the
    /// needed keys and, after the clauses of `before`, the clauses of every
    /// requirement over the variables of those keys.
    pub open spec fn built_from(&self, before: Scheduler) -> bool {
        &&& self.keys() == before.needed_keys()
        &&& self.clauses() == before.clauses() + wanted_clauses(
            self.keys(),
            before.students_view(),
            before.educators_view(),
            before.students_view().len() as int,
        )
    }

    /// This scheduler is `before` with the requirements added up to the one
    /// at which the variables ran out: it holds as many of the needed keys as
    /// a formula has variables, and, after the clauses of `before`, the
    /// clauses of the requirements before that one.
    pub open spec fn stopped_at_limit(&self, before: Scheduler) -> bool {
        &&& self.keys() == before.needed_keys().take(MAX_VARIABLES as int)
        &&& exists|i: int, r: int|
            {
                &&& is_overflow_point(
                    before.keys(),
                    before.students_view(),
                    before.educators_view(),
                    i,
                    r,
                )
                &&& self.clauses() == before.clauses() + #[trigger] clauses_before(
                    self.keys(),
                    before.students_view(),
                    before.educators_view(),
                    i,
                    r,
                )
            }
    }

    /// What adding the requirements to `before` has left in this scheduler,
    /// for each way in which it can end: everything; nothing, because of the
    /// first requirement that names an unlisted educator; or what came before
    /// the variables ran out.
    pub open spec fn left_by(
        &self,
        before: Scheduler,
        outcome: Result<(), SchedulerError>,
    ) -> bool {
        match outcome {
            Ok(()) => self.built_from(before),
            Err(SchedulerError::EducatorNotFound { student, requirement }) => {
                &&& is_first_unknown(
                    before.students_view(),
                    before.educators_view(),
                    student as int,
                    requirement as int,
                )
                &&& self.keys() == before.keys()
                &&& self.clauses() == before.clauses()
            },
            Err(SchedulerError::TooManyVariables) => {
                &&& all_educators_known(before.students_view(), before.educators_view())
                &&& self.stopped_at_limit(before)
            },
        }
    }

    /// The registry holds every key that the students ask for, and the
    /// formula holds the clauses of every requirement.
    pub open spec fn holds_requirements(&self) -> bool {
        &&& forall|k: int|
            0 <= k < wanted_keys(
                self.students_view(),
                self.educators_view(),
                self.students_view().len() as int,
            ).len() ==> self.keys().contains(
                #[trigger] wanted_keys(
                    self.students_view(),
                    self.educators_view(),
                    self.students_view().len() as int,
                )[k],
            )
        &&& forall|c: int|
            0 <= c < wanted_clauses(
                self.keys(),
                self.students_view(),
                self.educators_view(),
                self.students_view().len() as int,
            ).len() ==> self.clauses().contains(
                #[trigger] wanted_clauses(
                    self.keys(),
                    self.students_view(),
                    self.educators_view(),
                    self.students_view().len() as int,
                )[c],
            )
    }

    /// A scheduler that was built holds the requirements.
    pub proof fn lemma_built_holds_requirements(&self, before: Scheduler)
        requires
            before.keys().no_duplicates(),
            self.students_view() == before.students_view(),
            self.educators_view() == before.educators_view(),
            self.built_from(before),
        ensures
            self.holds_requirements(),
    {
        let wanted = wanted_keys(
            self.students_view(),
            self.educators_view(),
            self.students_view().len() as int,
        );
        let block = wanted_clauses(
            self.keys(),
            self.students_view(),
            self.educators_view(),
            self.students_view().len() as int,
        );
        lemma_request_all(before.keys(), wanted);
        assert forall|c: int| 0 <= c < block.len() implies self.clauses().contains(
            #[trigger] block[c],
        ) by {
            assert(self.clauses()[before.clauses().len() + c] == block[c]);
        }
    }

    /// A scheduler for the given problem, with an empty formula and no
    /// meeting registered.
    pub fn new(students: Vec<Student>, educators: Vec<Educator>) -> (scheduler: Self)
        ensures
            scheduler.wf(),
            scheduler.students_view() == student_views(students@),
            scheduler.educators_view() == educator_views(educators@),
            scheduler.keys() == Seq::<MeetingKeyView>::empty(),
            scheduler.clauses() == Seq::<Seq<Literal>>::empty(),
    {
        Scheduler {
            students,
            educators,
            formula: formula_new(),
            meeting_vars: VariableRegistry::new(),
        }
    }

    /// The decision variable of a meeting, registered now if it was not
    /// before. Equal keys get the same variable, different keys different
    /// ones. The request fails only when the key is new and the formula
    /// cannot hold another variable.
    pub fn get_meeting_var(
        &mut self,
        student_id: &str,
        educator_id: &str,
        slot: &TimeSlot,
    ) -> (found: Result<Variable, SchedulerError>)
        requires
            old(self).wf(),
        ensures
            final(self).wf(),
            final(self).students_view() == old(self).students_view(),
            final(self).educators_view() == old(self).educators_view(),
            final(self).clauses() == old(self).clauses(),
            found is Err <==> !old(self).keys().contains(
                meeting_key(student_id@, educator_id@, *slot),
            ) && old(self).keys().len() == MAX_VARIABLES,
            match found {
                Ok(var) => {
                    &&& final(self).keys() == request(
                        old(self).keys(),
                        meeting_key(student_id@, educator_id@, *slot),
                    )
                    &&& var == variable_of(
                        final(self).keys(),
                        meeting_key(student_id@, educator_id@, *slot),
                    )
                },
                Err(error) => {
                    &&& error == SchedulerError::TooManyVariables
                    &&& final(self).keys() == old(self).keys()
                },
            },
    {
        let student = student_id.to_owned();
        let educator = educator_id.to_owned();
        match self.meeting_vars.get_or_create(&mut self.formula, &student, &educator, *slot) {
            Some(var) => Ok(var),
            None => Err(SchedulerError::TooManyVariables),
        }
    }

    /// Adds the constraints of every requirement of every student to the
    /// formula, student by student and requirement by requirement.
    ///
    /// Nothing is added when a requirement names an educator who is not on
    /// the list; the error names the first such requirement. Building stops
    /// when the formula cannot hold the variables of all feasible meetings.
    pub fn add_meeting_requirements(&mut self) -> (outcome: Result<(), SchedulerError>)
        requires
            old(self).wf(),
        ensures
            final(self).wf(),
            final(self).students_view() == old(self).students_view(),
            final(self).educators_view() == old(self).educators_view(),
            old(self).keys().is_prefix_of(final(self).keys()),
            old(self).clauses().is_prefix_of(final(self).clauses()),
            outcome is Ok <==> all_educators_known(
                old(self).students_view(),
                old(self).educators_view(),
            ) && old(self).needed_keys().len() <= MAX_VARIABLES,
            final(self).left_by(*old(self), outcome),
    {
        let ghost students = self.students_view();
        let ghost educators = self.educators_view();
        let ghost start = self.keys();
        let ghost base = self.clauses();
        proof {
            lemma_prefix_reflexive(start);
            lemma_prefix_reflexive(base);
        }
        match first_unknown_educator(&self.students, &self.educators) {
            Some((student, requirement)) => {
                return Err(SchedulerError::EducatorNotFound { student, requirement });
            },
            None => {},
        }
        let mut i: usize = 0;
        proof {
            assert(request_all(start, keys_before(students, educators, 0, 0)) == start) by {
                assert(keys_before(students, educators, 0, 0) =~= Seq::<MeetingKeyView>::empty());
            }
            assert(base + clauses_before(start, students, educators, 0, 0) =~= base);
        }
        while i < self.students.len()
            invariant
                self.wf(),
                self.students == old(self).students,
                self.educators == old(self).educators,
                students == self.students_view(),
                educators == self.educators_view(),
                start == old(self).keys(),
                base == old(self).clauses(),
                start.no_duplicates(),
                all_educators_known(students, educators),
                i <= self.students.len(),
                self.keys() == request_all(start, wanted_keys(students, educators, i as int)),
                self.clauses() == base + wanted_clauses(
                    self.keys(),
                    students,
                    educators,
                    i as int,
                ),
            decreases self.students.len() - i,
        {
            let mut r: usize = 0;
            proof {
                assert(keys_before(students, educators, i as int, 0) =~= wanted_keys(
                    students,
                    educators,
                    i as int,
                ));
                assert(clauses_before(self.keys(), students, educators, i as int, 0)
                    =~= wanted_clauses(self.keys(), students, educators, i as int));
            }
            while r < self.students[i].educator_meeting_requirements.len()
                invariant
                    self.wf(),
                    self.students == old(self).students,
                    self.educators == old(self).educators,
                    students == self.students_view(),
                    educators == self.educators_view(),
                    start == old(self).keys(),
                    base == old(self).clauses(),
                    start.no_duplicates(),
                    all_educators_known(students, educators),
                    i < self.students.len(),
                    r <= self.students[i as int].educator_meeting_requirements.len(),
                    self.keys() == request_all(
                        start,
                        keys_before(students, educators, i as int, r as int),
                    ),
                    self.clauses() == base + clauses_before(
                        self.keys(),
                        students,
                        educators,
                        i as int,
                        r as int,
                    ),
                decreases self.students[i as int].educator_meeting_requirements.len() - r,
            {
                let student = &self.students[i];
                let requirement = &student.educator_meeting_requirements[r];
                let ghost before = self.keys();
                let ghost asked = keys_before(students, educators, i as int, r as int);
                let ghost wanted = requirement_keys(students[i as int], educators, r as int);
                proof {
                    assert(students[i as int] == student@);
                    assert(students[i as int].requirements[r as int] == requirement@);
                }
                let k: usize = resolve_educator(&self.educators, &requirement.educator_id);
                let educator = &self.educators[k];
                proof {
                    lemma_educator_index(educators, requirement.educator_id@, k as int);
                    assert(educators[k as int] == educator@);
                    assert(keys_before(students, educators, i as int, r + 1) =~= asked + wanted);
                    lemma_request_all_concat(start, asked, wanted);
                    lemma_request_all(start, asked);
                    lemma_request_all(before, wanted);
                }
                let added = add_requirement(
                    &mut self.meeting_vars,
                    &mut self.formula,
                    &student.id,
                    &student.schedule,
                    educator,
                    requirement.meetings_per_week,
                );
                if !added {
                    proof {
                        let needed = old(self).needed_keys();
                        let reached = request_all(start, asked + wanted);
                        lemma_keys_before_prefix(students, educators, i as int, r + 1);
                        lemma_request_all_grows(
                            start,
                            asked + wanted,
                            wanted_keys(students, educators, students.len() as int),
                        );
                        lemma_prefix_of_length(reached, needed);
                        assert(self.keys() =~= needed.take(MAX_VARIABLES as int));
                        lemma_clauses_before_stable(
                            before,
                            self.keys(),
                            students,
                            educators,
                            i as int,
                            r as int,
                        );
                        lemma_prefix_of_sum(base, clauses_before(
                            self.keys(),
                            students,
                            educators,
                            i as int,
                            r as int,
                        ));
                        lemma_prefix_transitive(start, before, self.keys());
                        assert(is_overflow_point(start, students, educators, i as int, r as int));
                    }
                    return Err(SchedulerError::TooManyVariables);
                }
                proof {
                    lemma_clauses_before_stable(
                        before,
                        self.keys(),
                        students,
                        educators,
                        i as int,
                        r as int,
                    );
                    assert(self.clauses() =~= base + clauses_before(
                        self.keys(),
                        students,
                        educators,
                        i as int,
                        r + 1,
                    ));
                }
                r += 1;
            }
            proof {
                assert(keys_before(students, educators, i as int, r as int) =~= wanted_keys(
                    students,
                    educators,
                    i + 1,
                ));
                assert(clauses_before(self.keys(), students, educators, i as int, r as int)
                    =~= wanted_clauses(self.keys(), students, educators, i + 1));
            }
            i += 1;
        }
        proof {
            lemma_request_all(start, wanted_keys(students, educators, students.len() as int));
            lemma_prefix_of_sum(
                base,
                wanted_clauses(self.keys(), students, educators, students.len() as int),
            );
        }
        Ok(())
    }

    /// Reads the schedule from a model of the formula: every registered
    /// meeting gets an entry, and it takes place exactly when the model holds
    /// the positive literal of its variable. Read from a consistent model of
    /// a formula that holds the requirements, the schedule meets them.
    pub fn decode(&self, model: &Vec<Literal>) -> (schedule: DecodedSchedule)
        requires
            self.wf(),
        ensures
            schedule.wf(),
            schedule.keys() == self.keys(),
            schedule@ == decoded(self.keys(), model@),
            self.holds_requirements() && model_consistent(model@) && formula_satisfied(
                model@,
                self.clauses(),
            ) ==> requirements_met(schedule@, self.students_view(), self.educators_view()),
    {
        proof {
            if self.holds_requirements() && model_consistent(model@) && formula_satisfied(
                model@,
                self.clauses(),
            ) {
                lemma_model_meets_requirements(
                    self.keys(),
                    self.clauses(),
                    self.students_view(),
                    self.educators_view(),
                    model@,
                );
            }
        }
        DecodedSchedule::from_model(&self.meeting_vars, model)
    }

    /// Adds the constraints of every requirement, hands the formula to the
    /// solver and, if the solver finds it satisfiable, returns the schedule
    /// that its model describes.
    ///
    /// The errors are those of [`Scheduler::add_meeting_requirements`], and
    /// the solver is not asked when one occurs. `Ok(None)` says that the
    /// solver found no schedule, because there is none or because it gave
    /// up. A schedule that is returned has an entry for each registered
    /// meeting and for no other, is read from a consistent model of the
    /// formula, and meets every requirement.
    pub fn solve(&mut self) -> (outcome: Result<Option<DecodedSchedule>, SchedulerError>)
        requires
            old(self).wf(),
        ensures
            final(self).wf(),
            final(self).students_view() == old(self).students_view(),
            final(self).educators_view() == old(self).educators_view(),
            old(self).keys().is_prefix_of(final(self).keys()),
            old(self).clauses().is_prefix_of(final(self).clauses()),
            outcome is Ok <==> all_educators_known(
                old(self).students_view(),
                old(self).educators_view(),
            ) && old(self).needed_keys().len() <= MAX_VARIABLES,
            final(self).left_by(
                *old(self),
                match outcome {
                    Ok(_) => Ok(()),
                    Err(error) => Err(error),
                },
            ),
            outcome matches Ok(Some(schedule)) ==> {
                &&& schedule.wf()
                &&& schedule.keys() == final(self).keys()
                &&& exists|model: Seq<Literal>|
                    {
                        &&& model_consistent(model)
                        &&& formula_satisfied(model, final(self).clauses())
                        &&& schedule@ == #[trigger] decoded(final(self).keys(), model)
                    }
                &&& requirements_met(
                    schedule@,
                    old(self).students_view(),
                    old(self).educators_view(),
                )
            },
    {
        match self.add_meeting_requirements() {
            Ok(()) => {},
            Err(error) => {
                return Err(error);
            },
        }
        proof {
            self.lemma_built_holds_requirements(*old(self));
        }
        let mut solver = solver_new();
        solver_add_formula(&mut solver, &self.formula);
        proof {
            assert(solver_clauses(solver) =~= self.clauses());
        }
        match solver_solve(&mut solver) {
            Ok(true) => match solver_model(&solver) {
                Some(model) => {
                    let schedule = self.decode(&model);
                    proof {
                        assert(schedule@ == decoded(self.keys(), model@));
                    }
                    Ok(Some(schedule))
                },
                None => Ok(None),
            },
            _ => Ok(None),
        }
    }

    /// The students of the problem.
    pub fn students(&self) -> (students: &Vec<Student>)
        ensures
            student_views(students@) == self.students_view(),
    {
        &self.students
    }

    /// The educators of the problem.
    pub fn educators(&self) -> (educators: &Vec<Educator>)
        ensures
            educator_views(educators@) == self.educators_view(),
    {
        &self.educators
    }

    /// The registry of the meetings that have a variable.
    pub fn registry(&self) -> (registry: &VariableRegistry)
        requires
            self.wf(),
        ensures
            registry.wf(),
            registry@ == self.keys(),
    {
        &self.meeting_vars
    }

    /// The number of variables of the formula, which is the number of
    /// registered meetings.
    pub fn variable_count(&self) -> (count: usize)
        ensures
            count == self.keys().len(),
    {
        self.meeting_vars.len()
    }

    /// The clauses of the formula, in the order in which they were added.
    pub fn clause_list(&self) -> (clauses: Vec<Vec<Literal>>)
        ensures
            clauses@.len() == self.clauses().len(),
            forall|c: int|
                0 <= c < clauses@.len() ==> (#[trigger] clauses@[c])@ == self.clauses()[c],
    {
        formula_to_clauses(&self.formula)
    }
}

} // verus!
