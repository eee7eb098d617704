use scheduler::{
    DecodedSchedule, Literal, Scheduler, SchedulerError, TimeSlot, Variable, VariableRegistry,
    MAX_VARIABLES,
};

fn slot(day: u32, time: u32) -> TimeSlot {
    TimeSlot { day, time }
}

fn positive(index: usize) -> Literal {
    Literal { var: Variable { index }, polarity: true }
}

fn negative(index: usize) -> Literal {
    Literal { var: Variable { index }, polarity: false }
}

fn scheduler_with_three_meetings() -> Scheduler {
    let mut scheduler = Scheduler::new(vec![], vec![]);
    scheduler.get_meeting_var("s1", "e1", &slot(1, 9)).expect("room for a variable");
    scheduler.get_meeting_var("s1", "e1", &slot(1, 10)).expect("room for a variable");
    scheduler.get_meeting_var("s2", "e1", &slot(1, 9)).expect("room for a variable");
    scheduler
}

#[test]
fn equal_keys_get_the_same_variable() {
    let mut scheduler = Scheduler::new(vec![], vec![]);
    let first = scheduler.get_meeting_var("s1", "e1", &slot(1, 9));
    let again = scheduler.get_meeting_var("s1", "e1", &slot(1, 9));
    assert_eq!(first, Ok(Variable { index: 0 }));
    assert_eq!(again, first);
    assert_eq!(scheduler.variable_count(), 1);
}

#[test]
fn a_key_keeps_its_variable_while_others_are_registered() {
    let mut scheduler = Scheduler::new(vec![], vec![]);
    let first = scheduler.get_meeting_var("s1", "e1", &slot(1, 9));
    let other_slot = scheduler.get_meeting_var("s1", "e1", &slot(1, 10));
    let other_student = scheduler.get_meeting_var("s2", "e1", &slot(1, 9));
    let other_educator = scheduler.get_meeting_var("s1", "e2", &slot(1, 9));
    let other_day = scheduler.get_meeting_var("s1", "e1", &slot(2, 9));
    let again = scheduler.get_meeting_var("s1", "e1", &slot(1, 9));
    assert_eq!(first, Ok(Variable { index: 0 }));
    assert_eq!(other_slot, Ok(Variable { index: 1 }));
    assert_eq!(other_student, Ok(Variable { index: 2 }));
    assert_eq!(other_educator, Ok(Variable { index: 3 }));
    assert_eq!(other_day, Ok(Variable { index: 4 }));
    assert_eq!(again, first);
    assert_eq!(scheduler.variable_count(), 5);
    assert!(scheduler.clause_list().is_empty());
}

#[test]
fn ids_are_compared_whole() {
    let mut scheduler = Scheduler::new(vec![], vec![]);
    let joined = scheduler.get_meeting_var("s1e", "1", &slot(1, 9));
    let split = scheduler.get_meeting_var("s1", "e1", &slot(1, 9));
    let empty = scheduler.get_meeting_var("", "", &slot(1, 9));
    assert_eq!(joined, Ok(Variable { index: 0 }));
    assert_eq!(split, Ok(Variable { index: 1 }));
    assert_eq!(empty, Ok(Variable { index: 2 }));
}

#[test]
fn registry_lists_keys_in_order_of_registration() {
    let scheduler = scheduler_with_three_meetings();
    let registry = scheduler.registry();
    assert_eq!(registry.len(), 3);
    assert_eq!(registry.key(0).student_id, "s1");
    assert_eq!(registry.key(0).educator_id, "e1");
    assert_eq!(registry.key(0).slot, slot(1, 9));
    assert_eq!(registry.key(1).slot, slot(1, 10));
    assert_eq!(registry.key(2).student_id, "s2");
    assert_eq!(registry.variable(0), Variable { index: 0 });
    assert_eq!(registry.variable(2), Variable { index: 2 });
}

#[test]
fn lookup_finds_registered_keys_only() {
    let scheduler = scheduler_with_three_meetings();
    let registry = scheduler.registry();
    assert_eq!(registry.lookup("s1", "e1", &slot(1, 10)), Some(Variable { index: 1 }));
    assert_eq!(registry.lookup("s2", "e1", &slot(1, 9)), Some(Variable { index: 2 }));
    assert_eq!(registry.lookup("s2", "e1", &slot(1, 10)), None);
    assert_eq!(registry.lookup("e1", "s1", &slot(1, 9)), None);
}

#[test]
fn a_new_registry_is_empty() {
    let registry = VariableRegistry::new();
    assert_eq!(registry.len(), 0);
    assert_eq!(registry.lookup("s1", "e1", &slot(1, 9)), None);
}

#[test]
fn the_variable_limit_is_that_of_the_solver() {
    assert_eq!(MAX_VARIABLES, 1 << 28);
    assert_eq!(MAX_VARIABLES, varisat::Var::max_count());
    assert_ne!(
        SchedulerError::TooManyVariables,
        SchedulerError::EducatorNotFound { student: 0, requirement: 0 }
    );
}

#[test]
fn decoding_reads_positive_literals() {
    let scheduler = scheduler_with_three_meetings();
    let model = vec![negative(0), positive(1), positive(2)];
    let schedule = scheduler.decode(&model);
    assert_eq!(schedule.len(), 3);
    assert_eq!(schedule.get("s1", "e1", &slot(1, 9)), Some(false));
    assert_eq!(schedule.get("s1", "e1", &slot(1, 10)), Some(true));
    assert_eq!(schedule.get("s2", "e1", &slot(1, 9)), Some(true));
    assert_eq!(schedule.get("s2", "e1", &slot(1, 10)), None);
    let flags: Vec<bool> = schedule.entries().iter().map(|entry| entry.scheduled).collect();
    assert_eq!(flags, vec![false, true, true]);
}

#[test]
fn decoding_a_partial_model_leaves_the_rest_unscheduled() {
    let scheduler = scheduler_with_three_meetings();
    let schedule = scheduler.decode(&vec![positive(2), positive(7)]);
    assert_eq!(schedule.len(), 3);
    assert_eq!(schedule.get("s1", "e1", &slot(1, 9)), Some(false));
    assert_eq!(schedule.get("s1", "e1", &slot(1, 10)), Some(false));
    assert_eq!(schedule.get("s2", "e1", &slot(1, 9)), Some(true));
    let empty = scheduler.decode(&vec![]);
    assert_eq!(empty.entries().iter().filter(|entry| entry.scheduled).count(), 0);
    assert_eq!(empty.len(), 3);
}

#[test]
fn decoded_entries_follow_the_registry() {
    let scheduler = scheduler_with_three_meetings();
    let schedule = DecodedSchedule::from_model(scheduler.registry(), &vec![positive(0)]);
    let entries = schedule.entries();
    assert_eq!(entries.len(), 3);
    assert_eq!(entries[0].key.student_id, "s1");
    assert_eq!(entries[0].key.slot, slot(1, 9));
    assert!(entries[0].scheduled);
    assert_eq!(entries[1].key.slot, slot(1, 10));
    assert!(!entries[1].scheduled);
    assert_eq!(entries[2].key.student_id, "s2");
    assert_eq!(entries[2].key.educator_id, "e1");
    assert!(!entries[2].scheduled);
    let copy = entries[2].key.clone();
    assert_eq!(copy, entries[2].key);
    assert_ne!(copy, entries[1].key);
    assert_eq!(copy.student_id, "s2");
    assert_eq!(copy.educator_id, "e1");
    assert_eq!(copy.slot, slot(1, 9));
}
