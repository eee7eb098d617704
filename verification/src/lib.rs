//! Weekly one-on-one meeting scheduling by reduction to boolean satisfiability.
//!
//! Students and educators publish the time slots in which they are available,
//! and every student lists the educators they have to meet. A [`Scheduler`]
//! turns these requirements into a formula in conjunctive normal form, hands
//! the formula to the `varisat` solver and reads the meetings back from the
//! model.
//!
//! Every candidate meeting, a student with an educator in a slot that suits
//! both, has a decision variable of its own. A requirement with feasible
//! meetings asks for at least one of them, and, where the feasible meetings
//! outnumber the meetings asked for, forbids every pair of them. This
//! pairwise encoding allows at most one meeting per requirement, however
//! many were asked for. Requirements are not related to each other: nothing
//! keeps a student or an educator from two meetings in one slot.
//!
//! The modules, from the problem to the answer:
//! - [`domain`]: students, educators, slots and requirements;
//! - [`registry`]: which variable stands for which meeting;
//! - [`encoding`]: what the formula of a problem is;
//! - [`constraints`]: building that formula;
//! - [`decoded`]: the schedule that a model describes;
//! - [`scheduler`]: the whole way, from the problem to a schedule;
//! - [`laws`]: what holds of every formula built and of each of its models;
//! - [`cnf`] and [`sat`]: literals, clauses and models, and the calls into
//!   `varisat`, whose contracts are taken on trust;
//! - [`sequences`]: small facts about prefixes of sequences.

pub mod cnf;
pub mod constraints;
pub mod decoded;
pub mod domain;
pub mod encoding;
pub mod laws;
pub mod registry;
pub mod sat;
pub mod scheduler;
pub mod sequences;

pub use cnf::{Literal, Variable, MAX_VARIABLES};
pub use decoded::{DecodedMeeting, DecodedSchedule};
pub use domain::{Educator, EducatorMeetingRequirement, Schedule, Student, TimeSlot};
pub use registry::{MeetingKey, VariableRegistry};
pub use scheduler::{Scheduler, SchedulerError};
