//! The scheduling problem as its callers describe it: who is available when,
//! and who has to meet whom.

use vstd::prelude::*;

verus! {

/// One bookable period of the week. Two slots are the same slot exactly when
/// both fields agree.
#[derive(Debug, Clone, Copy, PartialEq, Eq, Hash, Structural)]
pub struct TimeSlot {
    pub day: u32,
    pub time: u32,
}

/// The slots in which a student or an educator is available. The sequence
/// stands for a set: order carries no meaning and a repeated slot counts once.
#[derive(Debug, Clone)]
pub struct Schedule {
    pub available_slots: Vec<TimeSlot>,
}

impl View for Schedule {
    type V = Seq<TimeSlot>;

    open spec fn view(&self) -> Seq<TimeSlot> {
        self.available_slots@
    }
}

/// A student's obligation to meet one educator.
#[derive(Debug, Clone)]
pub struct EducatorMeetingRequirement {
    pub educator_id: String,
    pub meetings_per_week: u32,
    pub meeting_duration_minutes: u32,
}

/// Mathematical content of an [`EducatorMeetingRequirement`].
pub struct RequirementView {
    pub educator_id: Seq<char>,
    pub meetings_per_week: nat,
    pub meeting_duration_minutes: nat,
}

impl View for EducatorMeetingRequirement {
    type V = RequirementView;

    open spec fn view(&self) -> RequirementView {
        RequirementView {
            educator_id: self.educator_id@,
            meetings_per_week: self.meetings_per_week as nat,
            meeting_duration_minutes: self.meeting_duration_minutes as nat,
        }
    }
}

/// A student with their availability and the educators they have to meet.
#[derive(Debug, Clone)]
pub struct Student {
    pub id: String,
    pub name: String,
    pub schedule: Schedule,
    pub educator_meeting_requirements: Vec<EducatorMeetingRequirement>,
}

/// Mathematical content of a [`Student`].
pub struct StudentView {
    pub id: Seq<char>,
    pub name: Seq<char>,
    pub available_slots: Seq<TimeSlot>,
    pub requirements: Seq<RequirementView>,
}

impl View for Student {
    type V = StudentView;

    open spec fn view(&self) -> StudentView {
        StudentView {
            id: self.id@,
            name: self.name@,
            available_slots: self.schedule@,
            requirements: self.educator_meeting_requirements@.map_values(
                |r: EducatorMeetingRequirement| r@,
            ),
        }
    }
}

/// An educator with their availability.
#[derive(Debug, Clone)]
pub struct Educator {
    pub id: String,
    pub name: String,
    pub schedule: Schedule,
}

/// Mathematical content of an [`Educator`].
pub struct EducatorView {
    pub id: Seq<char>,
    pub name: Seq<char>,
    pub available_slots: Seq<TimeSlot>,
}

impl View for Educator {
    type V = EducatorView;

    open spec fn view(&self) -> EducatorView {
        EducatorView { id: self.id@, name: self.name@, available_slots: self.schedule@ }
    }
}

/// The views of a list of students, in order.
pub open spec fn student_views(students: Seq<Student>) -> Seq<StudentView> {
    students.map_values(|s: Student| s@)
}

/// The views of a list of educators, in order.
pub open spec fn educator_views(educators: Seq<Educator>) -> Seq<EducatorView> {
    educators.map_values(|e: Educator| e@)
}

} // verus!
