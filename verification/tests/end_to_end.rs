use scheduler::{
    DecodedSchedule, Educator, EducatorMeetingRequirement, Literal, Schedule, Scheduler,
    SchedulerError, Student, TimeSlot, Variable,
};

fn slot(day: u32, time: u32) -> TimeSlot {
    TimeSlot { day, time }
}

fn requirement(educator_id: &str, meetings_per_week: u32) -> EducatorMeetingRequirement {
    EducatorMeetingRequirement {
        educator_id: educator_id.to_string(),
        meetings_per_week,
        meeting_duration_minutes: 30,
    }
}

fn student(
    id: &str,
    slots: Vec<TimeSlot>,
    requirements: Vec<EducatorMeetingRequirement>,
) -> Student {
    Student {
        id: id.to_string(),
        name: format!("Student {}", id),
        schedule: Schedule { available_slots: slots },
        educator_meeting_requirements: requirements,
    }
}

fn educator(id: &str, slots: Vec<TimeSlot>) -> Educator {
    Educator {
        id: id.to_string(),
        name: format!("Educator {}", id),
        schedule: Schedule { available_slots: slots },
    }
}

fn scheduled_count(schedule: &DecodedSchedule) -> usize {
    schedule.entries().iter().filter(|entry| entry.scheduled).count()
}

fn positive(index: usize) -> Literal {
    Literal { var: Variable { index }, polarity: true }
}

fn negative(index: usize) -> Literal {
    Literal { var: Variable { index }, polarity: false }
}

#[test]
fn one_pair_two_slots_one_meeting() {
    let students = vec![student("s1", vec![slot(1, 9), slot(1, 10)], vec![requirement("e1", 1)])];
    let educators = vec![educator("e1", vec![slot(1, 9), slot(1, 10)])];
    let mut scheduler = Scheduler::new(students, educators);
    let schedule = scheduler.solve().expect("the educator is listed").expect("satisfiable");
    assert_eq!(schedule.len(), 2);
    let first = schedule.get("s1", "e1", &slot(1, 9)).expect("registered");
    let second = schedule.get("s1", "e1", &slot(1, 10)).expect("registered");
    assert!(first != second);
    assert_eq!(scheduled_count(&schedule), 1);
    assert_eq!(
        scheduler.clause_list(),
        vec![vec![positive(0), positive(1)], vec![negative(0), negative(1)]]
    );
}

#[test]
fn no_common_slot_leaves_the_requirement_out() {
    let students = vec![student("s1", vec![slot(1, 9), slot(1, 10)], vec![requirement("e1", 1)])];
    let educators = vec![educator("e1", vec![slot(2, 9), slot(2, 10)])];
    let mut scheduler = Scheduler::new(students, educators);
    let schedule = scheduler.solve().expect("the educator is listed").expect("satisfiable");
    assert_eq!(schedule.len(), 0);
    assert_eq!(schedule.get("s1", "e1", &slot(1, 9)), None);
    assert_eq!(schedule.get("s1", "e1", &slot(2, 9)), None);
    assert!(scheduler.clause_list().is_empty());
    assert_eq!(scheduler.variable_count(), 0);
}

#[test]
fn unknown_educator_is_an_error() {
    let students = vec![student("s1", vec![slot(1, 9)], vec![requirement("e2", 1)])];
    let educators = vec![educator("e1", vec![slot(1, 9)])];
    let mut scheduler = Scheduler::new(students, educators);
    assert_eq!(
        scheduler.solve().err(),
        Some(SchedulerError::EducatorNotFound { student: 0, requirement: 0 })
    );
    assert!(scheduler.clause_list().is_empty());
    assert_eq!(scheduler.variable_count(), 0);
}

#[test]
fn unknown_educator_names_the_first_offender() {
    let students = vec![
        student("s1", vec![slot(1, 9)], vec![requirement("e1", 1)]),
        student("s2", vec![slot(1, 9)], vec![]),
        student(
            "s3",
            vec![slot(1, 9)],
            vec![requirement("e1", 1), requirement("nobody", 1), requirement("none", 1)],
        ),
        student("s4", vec![slot(1, 9)], vec![requirement("ghost", 1)]),
    ];
    let educators = vec![educator("e1", vec![slot(1, 9)])];
    let mut scheduler = Scheduler::new(students, educators);
    assert_eq!(
        scheduler.add_meeting_requirements(),
        Err(SchedulerError::EducatorNotFound { student: 2, requirement: 1 })
    );
    assert!(scheduler.clause_list().is_empty());
    assert_eq!(scheduler.variable_count(), 0);
}

#[test]
fn two_slots_two_meetings() {
    let students = vec![student("s1", vec![slot(1, 9), slot(1, 10)], vec![requirement("e1", 2)])];
    let educators = vec![educator("e1", vec![slot(1, 9), slot(1, 10)])];
    let mut scheduler = Scheduler::new(students, educators);
    let schedule = scheduler.solve().expect("the educator is listed").expect("satisfiable");
    assert_eq!(schedule.len(), 2);
    assert!(scheduled_count(&schedule) >= 1);
    assert!(scheduled_count(&schedule) <= 1);
    assert_eq!(scheduler.clause_list(), vec![vec![positive(0), positive(1)]]);
}

#[test]
fn unrelated_pairs_are_both_served() {
    let students = vec![
        student("s1", vec![slot(1, 9)], vec![requirement("e1", 1)]),
        student("s2", vec![slot(2, 14)], vec![requirement("e2", 1)]),
    ];
    let educators = vec![educator("e1", vec![slot(1, 9)]), educator("e2", vec![slot(2, 14)])];
    let mut scheduler = Scheduler::new(students, educators);
    let schedule = scheduler.solve().expect("the educators are listed").expect("satisfiable");
    assert_eq!(schedule.len(), 2);
    assert_eq!(schedule.get("s1", "e1", &slot(1, 9)), Some(true));
    assert_eq!(schedule.get("s2", "e2", &slot(2, 14)), Some(true));
    assert_eq!(schedule.get("s1", "e2", &slot(2, 14)), None);
    assert_eq!(scheduler.clause_list(), vec![vec![positive(0)], vec![positive(1)]]);
}

#[test]
fn three_slots_one_meeting_picks_exactly_one() {
    let slots = vec![slot(1, 9), slot(1, 10), slot(3, 11)];
    let students = vec![student("s1", slots.clone(), vec![requirement("e1", 1)])];
    let educators = vec![educator("e1", slots.clone())];
    let mut scheduler = Scheduler::new(students, educators);
    let schedule = scheduler.solve().expect("the educator is listed").expect("satisfiable");
    assert_eq!(schedule.len(), 3);
    assert_eq!(scheduled_count(&schedule), 1);
    assert_eq!(
        scheduler.clause_list(),
        vec![
            vec![positive(0), positive(1), positive(2)],
            vec![negative(0), negative(1)],
            vec![negative(0), negative(2)],
            vec![negative(1), negative(2)],
        ]
    );
}

#[test]
fn three_slots_two_meetings_still_at_most_one() {
    let slots = vec![slot(1, 9), slot(1, 10), slot(3, 11)];
    let students = vec![student("s1", slots.clone(), vec![requirement("e1", 2)])];
    let educators = vec![educator("e1", slots.clone())];
    let mut scheduler = Scheduler::new(students, educators);
    let schedule = scheduler.solve().expect("the educator is listed").expect("satisfiable");
    assert_eq!(scheduled_count(&schedule), 1);
    assert_eq!(scheduler.clause_list().len(), 4);
}

#[test]
fn contradicting_requirements_have_no_schedule() {
    let students = vec![
        student("s1", vec![slot(1, 9)], vec![requirement("e1", 1)]),
        student("s1", vec![slot(1, 9), slot(1, 10)], vec![requirement("e1", 1)]),
        student("s1", vec![slot(1, 10)], vec![requirement("e1", 1)]),
    ];
    let educators = vec![educator("e1", vec![slot(1, 9), slot(1, 10)])];
    let mut scheduler = Scheduler::new(students, educators);
    assert!(matches!(scheduler.solve(), Ok(None)));
    assert_eq!(
        scheduler.clause_list(),
        vec![
            vec![positive(0)],
            vec![positive(0), positive(1)],
            vec![negative(0), negative(1)],
            vec![positive(1)],
        ]
    );
}

#[test]
fn every_registered_meeting_is_decoded() {
    let students = vec![
        student(
            "s1",
            vec![slot(1, 9), slot(1, 10), slot(2, 9)],
            vec![requirement("e1", 1), requirement("e2", 1)],
        ),
        student("s2", vec![slot(1, 10), slot(2, 9)], vec![requirement("e1", 1)]),
    ];
    let educators = vec![
        educator("e1", vec![slot(1, 9), slot(1, 10)]),
        educator("e2", vec![slot(2, 9), slot(1, 10)]),
    ];
    let mut scheduler = Scheduler::new(students, educators);
    let schedule = scheduler.solve().expect("the educators are listed").expect("satisfiable");
    let registry = scheduler.registry();
    assert_eq!(schedule.len(), registry.len());
    assert_eq!(schedule.len(), 5);
    for (position, entry) in schedule.entries().iter().enumerate() {
        let key = registry.key(position);
        assert_eq!(entry.key.student_id, key.student_id);
        assert_eq!(entry.key.educator_id, key.educator_id);
        assert_eq!(entry.key.slot, key.slot);
        assert_eq!(
            schedule.get(&key.student_id, &key.educator_id, &key.slot),
            Some(entry.scheduled)
        );
    }
    let s1_e1 = [schedule.get("s1", "e1", &slot(1, 9)), schedule.get("s1", "e1", &slot(1, 10))];
    assert_eq!(s1_e1.iter().filter(|value| **value == Some(true)).count(), 1);
    let s1_e2 = [schedule.get("s1", "e2", &slot(1, 10)), schedule.get("s1", "e2", &slot(2, 9))];
    assert_eq!(s1_e2.iter().filter(|value| **value == Some(true)).count(), 1);
    assert_eq!(schedule.get("s2", "e1", &slot(1, 10)), Some(true));
    assert_eq!(schedule.get("s2", "e1", &slot(2, 9)), None);
}

#[test]
fn solving_again_keeps_the_schedule_valid() {
    let students = vec![student("s1", vec![slot(1, 9), slot(1, 10)], vec![requirement("e1", 1)])];
    let educators = vec![educator("e1", vec![slot(1, 9), slot(1, 10)])];
    let mut scheduler = Scheduler::new(students, educators);
    let first = scheduler.solve().expect("the educator is listed").expect("satisfiable");
    let clauses_once = scheduler.clause_list();
    let second = scheduler.solve().expect("the educator is listed").expect("satisfiable");
    assert_eq!(scheduler.variable_count(), 2);
    assert_eq!(second.len(), first.len());
    assert_eq!(scheduled_count(&second), 1);
    let clauses_twice = scheduler.clause_list();
    assert_eq!(clauses_twice.len(), 2 * clauses_once.len());
    assert_eq!(&clauses_twice[..2], &clauses_once[..]);
    assert_eq!(&clauses_twice[2..], &clauses_once[..]);
    let held: Vec<bool> = first.entries().iter().map(|entry| entry.scheduled).collect();
    for clause in &clauses_twice {
        assert!(clause.iter().any(|literal| held[literal.var.index] == literal.polarity));
    }
    let registry = scheduler.registry();
    for (position, entry) in second.entries().iter().enumerate() {
        assert_eq!(entry.key, *registry.key(position));
        assert_eq!(first.entries()[position].key, entry.key);
    }
}

#[test]
fn repeated_slots_count_once() {
    let students = vec![student(
        "s1",
        vec![slot(1, 9), slot(1, 9), slot(1, 10), slot(1, 9)],
        vec![requirement("e1", 1)],
    )];
    let educators = vec![educator("e1", vec![slot(1, 10), slot(1, 9), slot(1, 10)])];
    let mut scheduler = Scheduler::new(students, educators);
    let schedule = scheduler.solve().expect("the educator is listed").expect("satisfiable");
    assert_eq!(schedule.len(), 2);
    assert_eq!(scheduled_count(&schedule), 1);
    assert_eq!(
        scheduler.clause_list(),
        vec![vec![positive(0), positive(1)], vec![negative(0), negative(1)]]
    );
}

#[test]
fn no_meeting_asked_for_still_wants_one() {
    let students = vec![student("s1", vec![slot(1, 9)], vec![requirement("e1", 0)])];
    let educators = vec![educator("e1", vec![slot(1, 9)])];
    let mut scheduler = Scheduler::new(students, educators);
    let schedule = scheduler.solve().expect("the educator is listed").expect("satisfiable");
    assert_eq!(schedule.get("s1", "e1", &slot(1, 9)), Some(true));
    assert_eq!(scheduler.clause_list(), vec![vec![positive(0)]]);
}

#[test]
fn no_students_no_meetings() {
    let mut scheduler = Scheduler::new(vec![], vec![educator("e1", vec![slot(1, 9)])]);
    let schedule = scheduler.solve().expect("nothing to look up").expect("nothing to satisfy");
    assert_eq!(schedule.len(), 0);
    assert!(schedule.entries().is_empty());
    assert!(scheduler.clause_list().is_empty());
    assert_eq!(scheduler.students().len(), 0);
    assert_eq!(scheduler.educators().len(), 1);
}
