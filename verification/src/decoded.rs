//! The decoded schedule: for every registered meeting, whether it takes
//! place.

use vstd::prelude::*;
use crate::cnf::{positive, Literal};
use crate::domain::TimeSlot;
use crate::registry::{meeting_key, variable_of, MeetingKey, MeetingKeyView, VariableRegistry};

verus! {

/// What a model says of each registered meeting: the meeting takes place
/// exactly when the model holds the positive literal of its variable.
pub open spec fn decoded(keys: Seq<MeetingKeyView>, model: Seq<Literal>) -> Map<
    MeetingKeyView,
    bool,
> {
    Map::new(
        |key: MeetingKeyView| keys.contains(key),
        |key: MeetingKeyView| model.contains(positive(variable_of(keys, key))),
    )
}

/// Whether the literal is among the literals of the model.
pub fn contains_literal(model: &Vec<Literal>, literal: Literal) -> (found: bool)
    ensures
        found == model@.contains(literal),
{
    let mut i: usize = 0;
    while i < model.len()
        invariant
            i <= model.len(),
            forall|j: int| 0 <= j < i ==> model@[j] != literal,
        decreases model.len() - i,
    {
        if model[i] == literal {
            return true;
        }
        i += 1;
    }
    false
}

/// One entry of a decoded schedule: a meeting and whether it takes place.
#[derive(Debug)]
pub struct DecodedMeeting {
    pub key: MeetingKey,
    pub scheduled: bool,
}

/// A schedule as read from a model: one entry for each registered meeting,
/// in the order of registration. Its view is the map from the meetings' keys
/// to whether they take place.
#[derive(Debug)]
pub struct DecodedSchedule {
    entries: Vec<DecodedMeeting>,
}

impl View for DecodedSchedule {
    type V = Map<MeetingKeyView, bool>;

    closed spec fn view(&self) -> Map<MeetingKeyView, bool> {
        Map::new(
            |key: MeetingKeyView| self.keys().contains(key),
            |key: MeetingKeyView| self.entries[self.keys().index_of(key)].scheduled,
        )
    }
}

impl DecodedSchedule {
    /// The keys of the entries, in order.
    pub closed spec fn keys(&self) -> Seq<MeetingKeyView> {
        self.entries@.map_values(|entry: DecodedMeeting| entry.key@)
    }

    /// No meeting has two entries.
    pub open spec fn wf(&self) -> bool {
        self.keys().no_duplicates()
    }

    /// The keys of the entries are the keys of the map.
    pub proof fn lemma_keys(&self)
        ensures
            self@.dom() == self.keys().to_set(),
    {
        assert(self@.dom() =~= self.keys().to_set());
    }

    /// Reads the schedule from a model: every registered meeting gets an
    /// entry, and it takes place exactly when the model holds the positive
    /// literal of its variable.
    pub fn from_model(registry: &VariableRegistry, model: &Vec<Literal>) -> (schedule: Self)
        requires
            registry.wf(),
        ensures
            schedule.wf(),
            schedule.keys() == registry@,
            schedule@ == decoded(registry@, model@),
    {
        let mut entries: Vec<DecodedMeeting> = Vec::new();
        let mut i: usize = 0;
        while i < registry.len()
            invariant
                registry.wf(),
                i <= registry@.len(),
                entries@.len() == i,
                forall|j: int|
                    0 <= j < i ==> {
                        &&& (#[trigger] entries@[j]).key@ == registry@[j]
                        &&& entries@[j].scheduled == model@.contains(
                            positive(variable_of(registry@, registry@[j])),
                        )
                    },
            decreases registry@.len() - i,
        {
            let var = registry.variable(i);
            let scheduled = contains_literal(model, Literal { var, polarity: true });
            entries.push(DecodedMeeting { key: registry.key(i).clone(), scheduled });
            i += 1;
        }
        let schedule = DecodedSchedule { entries };
        proof {
            assert(schedule.keys() =~= registry@);
            assert forall|key: MeetingKeyView| registry@.contains(key) implies schedule@[key]
                == decoded(registry@, model@)[key] by {
                let j = registry@.index_of(key);
                assert(registry@[j] == key);
            }
            assert(schedule@ =~= decoded(registry@, model@));
        }
        schedule
    }

    /// The number of entries.
    pub fn len(&self) -> (count: usize)
        ensures
            count == self.keys().len(),
    {
        self.entries.len()
    }

    /// The entries, in the order in which the meetings were registered.
    pub fn entries(&self) -> (entries: &Vec<DecodedMeeting>)
        requires
            self.wf(),
        ensures
            entries@.len() == self.keys().len(),
            forall|i: int|
                0 <= i < entries@.len() ==> {
                    &&& (#[trigger] entries@[i]).key@ == self.keys()[i]
                    &&& entries@[i].scheduled == self@[self.keys()[i]]
                },
    {
        proof {
            assert forall|i: int| 0 <= i < self.entries@.len() implies {
                &&& (#[trigger] self.entries@[i]).key@ == self.keys()[i]
                &&& self.entries@[i].scheduled == self@[self.keys()[i]]
            } by {
                let key = self.keys()[i];
                assert(self.keys()[self.keys().index_of(key)] == key);
            }
        }
        &self.entries
    }

    /// What the schedule says of a meeting: `None` for a meeting that has no
    /// entry, else whether the meeting takes place.
    pub fn get(&self, student_id: &str, educator_id: &str, slot: &TimeSlot) -> (found: Option<bool>)
        requires
            self.wf(),
        ensures
            found == (if self@.dom().contains(meeting_key(student_id@, educator_id@, *slot)) {
                Some(self@[meeting_key(student_id@, educator_id@, *slot)])
            } else {
                None
            }),
    {
        let ghost key = meeting_key(student_id@, educator_id@, *slot);
        let student = student_id.to_owned();
        let educator = educator_id.to_owned();
        let mut i: usize = 0;
        while i < self.entries.len()
            invariant
                self.wf(),
                i <= self.entries.len(),
                key == meeting_key(student_id@, educator_id@, *slot),
                student@ == student_id@,
                educator@ == educator_id@,
                forall|j: int| 0 <= j < i ==> self.keys()[j] != key,
            decreases self.entries.len() - i,
        {
            let entry = &self.entries[i];
            if entry.key.slot == *slot && entry.key.student_id == student && entry.key.educator_id
                == educator {
                proof {
                    assert(self.keys()[i as int] == key);
                    assert(self.keys()[self.keys().index_of(key)] == key);
                }
                return Some(entry.scheduled);
            }
            i += 1;
        }
        None
    }
}

} // verus!
