//! The variable registry: which decision variable stands for which meeting.
//!
//! A meeting is named by its key, the triple of student, educator and slot.
//! The registry hands each key one variable, on first request, and the same
//! variable ever after. Variables are taken from the formula in order, so the
//! key registered as number `i` owns variable `i`.

use vstd::prelude::*;
use varisat::CnfFormula;
use crate::cnf::{formula_clauses, formula_new_var, formula_var_count, Variable, MAX_VARIABLES};
use crate::domain::TimeSlot;
use crate::sequences::{lemma_prefix_contains, lemma_prefix_reflexive, lemma_prefix_transitive};

verus! {

/// Names one candidate meeting: this student with this educator in this slot.
#[derive(Debug, PartialEq, Eq, Hash)]
pub struct MeetingKey {
    pub student_id: String,
    pub educator_id: String,
    pub slot: TimeSlot,
}

/// Mathematical content of a [`MeetingKey`].
pub struct MeetingKeyView {
    pub student_id: Seq<char>,
    pub educator_id: Seq<char>,
    pub slot: TimeSlot,
}

impl View for MeetingKey {
    type V = MeetingKeyView;

    open spec fn view(&self) -> MeetingKeyView {
        meeting_key(self.student_id@, self.educator_id@, self.slot)
    }
}

impl Clone for MeetingKey {
    fn clone(&self) -> (copy: Self)
        ensures
            copy == *self,
    {
        MeetingKey {
            student_id: self.student_id.clone(),
            educator_id: self.educator_id.clone(),
            slot: self.slot,
        }
    }
}

/// The key of the meeting of `student_id` with `educator_id` in `slot`.
pub open spec fn meeting_key(
    student_id: Seq<char>,
    educator_id: Seq<char>,
    slot: TimeSlot,
) -> MeetingKeyView {
    MeetingKeyView { student_id, educator_id, slot }
}

/// The registered keys after `key` has been requested: a key that is already
/// there changes nothing, a new key goes to the end.
pub open spec fn request(keys: Seq<MeetingKeyView>, key: MeetingKeyView) -> Seq<MeetingKeyView> {
    if keys.contains(key) {
        keys
    } else {
        keys.push(key)
    }
}

/// The registered keys after each key of `wanted` has been requested in turn.
pub open spec fn request_all(keys: Seq<MeetingKeyView>, wanted: Seq<MeetingKeyView>) -> Seq<
    MeetingKeyView,
>
    decreases wanted.len(),
{
    if wanted.len() == 0 {
        keys
    } else {
        request(request_all(keys, wanted.drop_last()), wanted.last())
    }
}

/// The variable of a registered key: the key's position among the keys.
pub open spec fn variable_of(keys: Seq<MeetingKeyView>, key: MeetingKeyView) -> Variable {
    Variable { index: keys.index_of(key) as usize }
}

/// The variables of the keys of `wanted`, in order.
pub open spec fn variables_of(keys: Seq<MeetingKeyView>, wanted: Seq<MeetingKeyView>) -> Seq<
    Variable,
> {
    wanted.map_values(|key: MeetingKeyView| variable_of(keys, key))
}

/// Requesting a key keeps what was registered, in place, and registers the
/// key.
pub proof fn lemma_request(keys: Seq<MeetingKeyView>, key: MeetingKeyView)
    requires
        keys.no_duplicates(),
    ensures
        request(keys, key).no_duplicates(),
        keys.is_prefix_of(request(keys, key)),
        request(keys, key).contains(key),
        request(keys, key).len() <= keys.len() + 1,
{
    let after = request(keys, key);
    if keys.contains(key) {
    } else {
        assert(after[keys.len() as int] == key);
        assert(after.subrange(0, keys.len() as int) =~= keys);
    }
}

/// Requesting several keys keeps what was registered, in place, and registers
/// each of them.
pub proof fn lemma_request_all(keys: Seq<MeetingKeyView>, wanted: Seq<MeetingKeyView>)
    requires
        keys.no_duplicates(),
    ensures
        request_all(keys, wanted).no_duplicates(),
        keys.is_prefix_of(request_all(keys, wanted)),
        forall|i: int|
            0 <= i < wanted.len() ==> request_all(keys, wanted).contains(#[trigger] wanted[i]),
        request_all(keys, wanted).len() <= keys.len() + wanted.len(),
    decreases wanted.len(),
{
    if wanted.len() > 0 {
        let before = request_all(keys, wanted.drop_last());
        let after = request_all(keys, wanted);
        lemma_request_all(keys, wanted.drop_last());
        lemma_request(before, wanted.last());
        lemma_prefix_transitive(keys, before, after);
        assert forall|i: int| 0 <= i < wanted.len() implies after.contains(
            #[trigger] wanted[i],
        ) by {
            if i < wanted.len() - 1 {
                assert(wanted[i] == wanted.drop_last()[i]);
                lemma_prefix_contains(before, after, wanted[i]);
            }
        }
    } else {
        lemma_prefix_reflexive(keys);
    }
}

/// Requesting the keys of `first + second` is requesting those of `first`
/// and then those of `second`.
pub proof fn lemma_request_all_concat(
    keys: Seq<MeetingKeyView>,
    first: Seq<MeetingKeyView>,
    second: Seq<MeetingKeyView>,
)
    ensures
        request_all(keys, first + second) == request_all(request_all(keys, first), second),
    decreases second.len(),
{
    if second.len() == 0 {
        assert(first + second =~= first);
    } else {
        lemma_request_all_concat(keys, first, second.drop_last());
        assert((first + second).drop_last() =~= first + second.drop_last());
        assert((first + second).last() == second.last());
    }
}

/// Requesting keys that are all registered changes nothing.
pub proof fn lemma_request_all_present(keys: Seq<MeetingKeyView>, wanted: Seq<MeetingKeyView>)
    requires
        forall|i: int| 0 <= i < wanted.len() ==> keys.contains(#[trigger] wanted[i]),
    ensures
        request_all(keys, wanted) == keys,
    decreases wanted.len(),
{
    if wanted.len() > 0 {
        assert forall|i: int| 0 <= i < wanted.drop_last().len() implies keys.contains(
            #[trigger] wanted.drop_last()[i],
        ) by {
            assert(wanted.drop_last()[i] == wanted[i]);
        }
        lemma_request_all_present(keys, wanted.drop_last());
        assert(keys.contains(wanted[wanted.len() - 1]));
    }
}

/// The more keys are requested, the more are registered.
pub proof fn lemma_request_all_grows(
    keys: Seq<MeetingKeyView>,
    part: Seq<MeetingKeyView>,
    whole: Seq<MeetingKeyView>,
)
    requires
        keys.no_duplicates(),
        part.is_prefix_of(whole),
    ensures
        request_all(keys, part).is_prefix_of(request_all(keys, whole)),
{
    let rest = whole.subrange(part.len() as int, whole.len() as int);
    assert(whole =~= part + rest);
    lemma_request_all_concat(keys, part, rest);
    lemma_request_all(keys, part);
    lemma_request_all(request_all(keys, part), rest);
}

/// A registered key keeps its variable while further keys are registered.
pub proof fn lemma_variable_stable(
    before: Seq<MeetingKeyView>,
    after: Seq<MeetingKeyView>,
    key: MeetingKeyView,
)
    requires
        after.no_duplicates(),
        before.is_prefix_of(after),
        before.contains(key),
    ensures
        after.contains(key),
        variable_of(after, key) == variable_of(before, key),
{
    lemma_prefix_contains(before, after, key);
    let i = before.index_of(key);
    assert(before[i] == after.subrange(0, before.len() as int)[i]);
    assert(after[i] == key);
    assert(after[after.index_of(key)] == key);
}

/// Registered keys keep their variables while further keys are registered.
pub proof fn lemma_variables_stable(
    before: Seq<MeetingKeyView>,
    after: Seq<MeetingKeyView>,
    wanted: Seq<MeetingKeyView>,
)
    requires
        after.no_duplicates(),
        before.is_prefix_of(after),
        forall|i: int| 0 <= i < wanted.len() ==> before.contains(#[trigger] wanted[i]),
    ensures
        variables_of(after, wanted) == variables_of(before, wanted),
{
    assert forall|i: int| 0 <= i < wanted.len() implies variables_of(after, wanted)[i]
        == variables_of(before, wanted)[i] by {
        lemma_variable_stable(before, after, wanted[i]);
    }
    assert(variables_of(after, wanted) =~= variables_of(before, wanted));
}

/// No variable is shared: two registered keys with the same variable are the
/// same key.
pub proof fn lemma_variable_injective(
    keys: Seq<MeetingKeyView>,
    a: MeetingKeyView,
    b: MeetingKeyView,
)
    requires
        keys.len() <= MAX_VARIABLES,
        keys.contains(a),
        keys.contains(b),
        variable_of(keys, a) == variable_of(keys, b),
    ensures
        a == b,
{
    assert(keys[keys.index_of(a)] == a);
    assert(keys[keys.index_of(b)] == b);
}

/// Key stability: once a key has been requested, requesting it again yields
/// the same variable and registers nothing, whatever other keys were
/// requested in between.
pub proof fn lemma_key_stability(
    keys: Seq<MeetingKeyView>,
    key: MeetingKeyView,
    between: Seq<MeetingKeyView>,
)
    requires
        keys.no_duplicates(),
    ensures
        ({
            let first = request(keys, key);
            let later = request_all(first, between);
            let second = request(later, key);
            &&& second == later
            &&& variable_of(second, key) == variable_of(first, key)
        }),
{
    let first = request(keys, key);
    let later = request_all(first, between);
    lemma_request(keys, key);
    lemma_request_all(first, between);
    lemma_variable_stable(first, later, key);
}

/// One registration: a key and the variable it owns.
#[derive(Debug)]
struct RegistryEntry {
    key: MeetingKey,
    var: Variable,
}

/// The meetings that have a decision variable, in the order in which they
/// were registered. Its view is the sequence of their keys.
#[derive(Debug)]
pub struct VariableRegistry {
    entries: Vec<RegistryEntry>,
}

impl View for VariableRegistry {
    type V = Seq<MeetingKeyView>;

    closed spec fn view(&self) -> Seq<MeetingKeyView> {
        self.entries@.map_values(|entry: RegistryEntry| entry.key@)
    }
}

impl VariableRegistry {
    /// Entry number `i` holds variable number `i`.
    pub closed spec fn variables_in_order(&self) -> bool {
        forall|i: int|
            0 <= i < self.entries.len() ==> (#[trigger] self.entries[i]).var.index == i
    }

    /// No key is registered twice, each key holds the variable of its
    /// position, and the variables stay within what a formula can hold.
    pub open spec fn wf(&self) -> bool {
        &&& self@.no_duplicates()
        &&& self@.len() <= MAX_VARIABLES
        &&& self.variables_in_order()
    }

    /// The variable of a registered key is one of the registry's variables.
    pub proof fn lemma_variable_in_range(&self, key: MeetingKeyView)
        requires
            self.wf(),
            self@.contains(key),
        ensures
            variable_of(self@, key).index < self@.len(),
    {
        assert(self@[self@.index_of(key)] == key);
    }

    /// A registry without keys.
    pub fn new() -> (registry: Self)
        ensures
            registry.wf(),
            registry@ == Seq::<MeetingKeyView>::empty(),
    {
        let registry = VariableRegistry { entries: Vec::new() };
        assert(registry@ =~= Seq::<MeetingKeyView>::empty());
        registry
    }

    /// The number of registered keys, which is the number of variables.
    pub fn len(&self) -> (count: usize)
        ensures
            count == self@.len(),
    {
        self.entries.len()
    }

    /// The key registered as number `position`.
    pub fn key(&self, position: usize) -> (key: &MeetingKey)
        requires
            position < self@.len(),
        ensures
            key@ == self@[position as int],
    {
        &self.entries[position].key
    }

    /// The variable of the key registered as number `position`.
    pub fn variable(&self, position: usize) -> (var: Variable)
        requires
            self.wf(),
            position < self@.len(),
        ensures
            var == variable_of(self@, self@[position as int]),
    {
        proof {
            let key = self@[position as int];
            assert(self@[self@.index_of(key)] == key);
        }
        self.entries[position].var
    }

    /// The variable of a key, if the key is registered.
    pub fn lookup(&self, student_id: &str, educator_id: &str, slot: &TimeSlot) -> (found: Option<
        Variable,
    >)
        requires
            self.wf(),
        ensures
            found is Some <==> self@.contains(meeting_key(student_id@, educator_id@, *slot)),
            found matches Some(var) ==> var == variable_of(
                self@,
                meeting_key(student_id@, educator_id@, *slot),
            ),
    {
        let student = student_id.to_owned();
        let educator = educator_id.to_owned();
        self.find(&student, &educator, *slot)
    }

    /// The variable of a key, if the key is registered.
    pub(crate) fn find(&self, student_id: &String, educator_id: &String, slot: TimeSlot) -> (found:
        Option<Variable>)
        requires
            self.wf(),
        ensures
            found is Some <==> self@.contains(meeting_key(student_id@, educator_id@, slot)),
            found matches Some(var) ==> var == variable_of(
                self@,
                meeting_key(student_id@, educator_id@, slot),
            ),
    {
        let ghost key = meeting_key(student_id@, educator_id@, slot);
        let mut i: usize = 0;
        while i < self.entries.len()
            invariant
                self.wf(),
                i <= self.entries.len(),
                key == meeting_key(student_id@, educator_id@, slot),
                forall|j: int| 0 <= j < i ==> self@[j] != key,
            decreases self.entries.len() - i,
        {
            let entry = &self.entries[i];
            if entry.key.slot == slot && entry.key.student_id == *student_id
                && entry.key.educator_id == *educator_id {
                proof {
                    assert(self@[i as int] == key);
                    assert(self@[self@.index_of(key)] == key);
                }
                return Some(entry.var);
            }
            i += 1;
        }
        None
    }

    /// The variable of a key, registered now if it was not before. A new key
    /// takes the next variable of `formula`, whose variables are those of
    /// this registry. The answer is `None`, and nothing changes, when the key
    /// is new and every variable is taken.
    pub(crate) fn get_or_create(
        &mut self,
        formula: &mut CnfFormula,
        student_id: &String,
        educator_id: &String,
        slot: TimeSlot,
    ) -> (found: Option<Variable>)
        requires
            old(self).wf(),
            formula_var_count(*old(formula)) == old(self)@.len(),
        ensures
            final(self).wf(),
            formula_var_count(*final(formula)) == final(self)@.len(),
            formula_clauses(*final(formula)) == formula_clauses(*old(formula)),
            found is None <==> !old(self)@.contains(meeting_key(student_id@, educator_id@, slot))
                && old(self)@.len() == MAX_VARIABLES,
            found is None ==> final(self)@ == old(self)@,
            found matches Some(var) ==> {
                &&& final(self)@ == request(
                    old(self)@,
                    meeting_key(student_id@, educator_id@, slot),
                )
                &&& var == variable_of(final(self)@, meeting_key(student_id@, educator_id@, slot))
            },
    {
        let ghost key = meeting_key(student_id@, educator_id@, slot);
        match self.find(student_id, educator_id, slot) {
            Some(var) => Some(var),
            None => {
                if self.entries.len() >= MAX_VARIABLES {
                    return None;
                }
                let var = formula_new_var(formula);
                let entry = RegistryEntry {
                    key: MeetingKey {
                        student_id: student_id.clone(),
                        educator_id: educator_id.clone(),
                        slot,
                    },
                    var,
                };
                self.entries.push(entry);
                proof {
                    assert(self@ =~= old(self)@.push(key));
                    lemma_request(old(self)@, key);
                    assert(self@[old(self)@.len() as int] == key);
                    assert(self@[self@.index_of(key)] == key);
                }
                Some(var)
            },
        }
    }
}

} // verus!
