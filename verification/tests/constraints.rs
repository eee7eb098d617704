use scheduler::constraints::{
    contains_slot, exclusion_literals, existence_literals, find_educator, find_feasible_slots,
    first_unknown_educator, resolve_educator,
};
use scheduler::decoded::contains_literal;
use scheduler::{
    Educator, EducatorMeetingRequirement, Literal, Schedule, Scheduler, Student, TimeSlot,
    Variable,
};

fn slot(day: u32, time: u32) -> TimeSlot {
    TimeSlot { day, time }
}

fn schedule(slots: Vec<TimeSlot>) -> Schedule {
    Schedule { available_slots: slots }
}

fn educator(id: &str, name: &str, slots: Vec<TimeSlot>) -> Educator {
    Educator { id: id.to_string(), name: name.to_string(), schedule: schedule(slots) }
}

fn student(id: &str, educator_ids: &[&str]) -> Student {
    Student {
        id: id.to_string(),
        name: id.to_string(),
        schedule: schedule(vec![slot(1, 9)]),
        educator_meeting_requirements: educator_ids
            .iter()
            .map(|educator_id| EducatorMeetingRequirement {
                educator_id: educator_id.to_string(),
                meetings_per_week: 1,
                meeting_duration_minutes: 45,
            })
            .collect(),
    }
}

fn positive(index: usize) -> Literal {
    Literal { var: Variable { index }, polarity: true }
}

fn negative(index: usize) -> Literal {
    Literal { var: Variable { index }, polarity: false }
}

#[test]
fn slots_are_equal_when_day_and_time_agree() {
    let slots = vec![slot(1, 9), slot(2, 10)];
    assert!(contains_slot(&slots, slot(2, 10)));
    assert!(!contains_slot(&slots, slot(2, 9)));
    assert!(!contains_slot(&slots, slot(10, 2)));
    assert!(!contains_slot(&vec![], slot(1, 9)));
}

#[test]
fn feasible_slots_follow_the_student() {
    let student = schedule(vec![slot(3, 8), slot(1, 9), slot(2, 10), slot(1, 10)]);
    let educator = schedule(vec![slot(1, 10), slot(4, 4), slot(3, 8), slot(2, 10)]);
    assert_eq!(
        find_feasible_slots(&student, &educator),
        vec![slot(3, 8), slot(2, 10), slot(1, 10)]
    );
}

#[test]
fn feasible_slots_hold_no_slot_twice() {
    let student = schedule(vec![slot(1, 9), slot(2, 9), slot(1, 9), slot(2, 9), slot(1, 9)]);
    let educator = schedule(vec![slot(2, 9), slot(2, 9), slot(1, 9)]);
    assert_eq!(find_feasible_slots(&student, &educator), vec![slot(1, 9), slot(2, 9)]);
}

#[test]
fn feasible_slots_of_strangers_are_none() {
    let student = schedule(vec![slot(1, 9), slot(2, 9)]);
    let educator = schedule(vec![slot(9, 1), slot(9, 2)]);
    assert!(find_feasible_slots(&student, &educator).is_empty());
    assert!(find_feasible_slots(&schedule(vec![]), &educator).is_empty());
    assert!(find_feasible_slots(&student, &schedule(vec![])).is_empty());
}

#[test]
fn the_first_educator_with_the_id_is_found() {
    let educators = vec![
        educator("e1", "first", vec![]),
        educator("e2", "second", vec![]),
        educator("e2", "third", vec![]),
    ];
    assert_eq!(find_educator(&educators, &"e1".to_string()), Some(0));
    assert_eq!(find_educator(&educators, &"e2".to_string()), Some(1));
    assert_eq!(find_educator(&educators, &"e3".to_string()), None);
    assert_eq!(find_educator(&educators, &"E1".to_string()), None);
    assert_eq!(find_educator(&vec![], &"e1".to_string()), None);
    assert_eq!(resolve_educator(&educators, &"e2".to_string()), 1);
    assert_eq!(resolve_educator(&educators, &"e1".to_string()), 0);
}

#[test]
fn unknown_educators_are_looked_for_in_order() {
    let educators = vec![educator("e1", "first", vec![]), educator("e2", "second", vec![])];
    let known = vec![student("s1", &["e1", "e2"]), student("s2", &[]), student("s3", &["e2"])];
    assert_eq!(first_unknown_educator(&known, &educators), None);
    let late = vec![student("s1", &["e1", "e2"]), student("s2", &["e2", "e1", "e3"])];
    assert_eq!(first_unknown_educator(&late, &educators), Some((1, 2)));
    let twice = vec![student("s1", &["e1", "x", "y"]), student("s2", &["z"])];
    assert_eq!(first_unknown_educator(&twice, &educators), Some((0, 1)));
    assert_eq!(first_unknown_educator(&known, &vec![]), Some((0, 0)));
    assert_eq!(first_unknown_educator(&vec![], &vec![]), None);
}

#[test]
fn clauses_are_built_from_variables() {
    let vars = vec![Variable { index: 4 }, Variable { index: 0 }, Variable { index: 2 }];
    assert_eq!(existence_literals(&vars), vec![positive(4), positive(0), positive(2)]);
    assert!(existence_literals(&vec![]).is_empty());
    assert_eq!(
        exclusion_literals(Variable { index: 3 }, Variable { index: 5 }),
        vec![negative(3), negative(5)]
    );
}

#[test]
fn literals_are_found_by_variable_and_polarity() {
    let model = vec![positive(0), negative(1)];
    assert!(contains_literal(&model, positive(0)));
    assert!(contains_literal(&model, negative(1)));
    assert!(!contains_literal(&model, negative(0)));
    assert!(!contains_literal(&model, positive(1)));
    assert!(!contains_literal(&model, positive(2)));
}

#[test]
fn four_slots_give_six_exclusions() {
    let slots = vec![slot(1, 1), slot(1, 2), slot(1, 3), slot(1, 4)];
    let students = vec![Student {
        id: "s1".to_string(),
        name: "s1".to_string(),
        schedule: schedule(slots.clone()),
        educator_meeting_requirements: vec![EducatorMeetingRequirement {
            educator_id: "e1".to_string(),
            meetings_per_week: 3,
            meeting_duration_minutes: 45,
        }],
    }];
    let mut scheduler = Scheduler::new(students, vec![educator("e1", "first", slots)]);
    assert_eq!(scheduler.add_meeting_requirements(), Ok(()));
    assert_eq!(
        scheduler.clause_list(),
        vec![
            vec![positive(0), positive(1), positive(2), positive(3)],
            vec![negative(0), negative(1)],
            vec![negative(0), negative(2)],
            vec![negative(0), negative(3)],
            vec![negative(1), negative(2)],
            vec![negative(1), negative(3)],
            vec![negative(2), negative(3)],
        ]
    );
}

#[test]
fn as_many_meetings_as_slots_give_no_exclusion() {
    let slots = vec![slot(1, 1), slot(1, 2), slot(1, 3)];
    let students = vec![Student {
        id: "s1".to_string(),
        name: "s1".to_string(),
        schedule: schedule(slots.clone()),
        educator_meeting_requirements: vec![EducatorMeetingRequirement {
            educator_id: "e1".to_string(),
            meetings_per_week: 3,
            meeting_duration_minutes: 45,
        }],
    }];
    let mut scheduler = Scheduler::new(students, vec![educator("e1", "first", slots)]);
    assert_eq!(scheduler.add_meeting_requirements(), Ok(()));
    assert_eq!(scheduler.clause_list(), vec![vec![positive(0), positive(1), positive(2)]]);
}

#[test]
fn requirements_share_the_variables_of_shared_meetings() {
    let students = vec![
        Student {
            id: "s1".to_string(),
            name: "s1".to_string(),
            schedule: schedule(vec![slot(1, 1), slot(1, 2)]),
            educator_meeting_requirements: vec![
                EducatorMeetingRequirement {
                    educator_id: "e1".to_string(),
                    meetings_per_week: 1,
                    meeting_duration_minutes: 45,
                },
                EducatorMeetingRequirement {
                    educator_id: "e2".to_string(),
                    meetings_per_week: 1,
                    meeting_duration_minutes: 30,
                },
                EducatorMeetingRequirement {
                    educator_id: "e1".to_string(),
                    meetings_per_week: 5,
                    meeting_duration_minutes: 60,
                },
            ],
        },
    ];
    let educators = vec![
        educator("e1", "first", vec![slot(1, 2), slot(1, 1)]),
        educator("e2", "second", vec![slot(1, 2)]),
    ];
    let mut scheduler = Scheduler::new(students, educators);
    assert_eq!(scheduler.add_meeting_requirements(), Ok(()));
    assert_eq!(scheduler.variable_count(), 3);
    assert_eq!(
        scheduler.clause_list(),
        vec![
            vec![positive(0), positive(1)],
            vec![negative(0), negative(1)],
            vec![positive(2)],
            vec![positive(0), positive(1)],
        ]
    );
    let registry = scheduler.registry();
    assert_eq!(registry.key(2).educator_id, "e2");
    assert_eq!(registry.key(2).slot, slot(1, 2));
}
