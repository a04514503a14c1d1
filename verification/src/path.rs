//! Paths into a value tree: a chain of keys and indices that names one slot,
//! for reading it and for replacing what it holds.

use crate::text::same_text;
use crate::value::{
    dict_view, first_key, lemma_dict_view, lemma_first_key, lemma_list_view, list_view, Data, Value,
};
use vstd::prelude::*;

verus! {

/// One step of a path, as a mathematical value.
pub enum Step {
    Key(Seq<char>),
    Index(nat),
}

/// One step of a path: a key of a mapping or an index of a sequence.
#[derive(Debug)]
pub enum Segment {
    Key(String),
    Index(usize),
}

impl View for Segment {
    type V = Step;

    open spec fn view(&self) -> Step {
        match self {
            Segment::Key(k) => Step::Key(k@),
            Segment::Index(i) => Step::Index(*i as nat),
        }
    }
}

/// The steps that a vector of segments stands for.
pub open spec fn steps(path: Seq<Segment>) -> Seq<Step> {
    path.map_values(|s: Segment| s@)
}

impl Data {
    /// The value one step below this one, if the step leads anywhere.
    pub open spec fn child(self, step: Step) -> Option<Data> {
        match step {
            Step::Key(key) => self.member(key),
            Step::Index(index) => self.element(index),
        }
    }

    /// This value with the slot one step below it holding `new`. Where the
    /// step leads nowhere the value is unchanged.
    pub open spec fn with_child(self, step: Step, new: Data) -> Data {
        match (self, step) {
            (Data::Dict(entries), Step::Key(key)) => {
                let i = first_key(entries, key, 0);
                if i < entries.len() {
                    Data::Dict(entries.update(i, (key, new)))
                } else {
                    self
                }
            },
            (Data::List(items), Step::Index(index)) => if index < items.len() {
                Data::List(items.update(index as int, new))
            } else {
                self
            },
            _ => self,
        }
    }

    /// Follows `path` from its step `from` on. `Ok` holds the value that the
    /// path ends at, `Err` the index of the first step that leads nowhere.
    pub open spec fn walk(self, path: Seq<Step>, from: nat) -> Result<Data, nat>
        decreases path.len() - from,
    {
        if from >= path.len() {
            Ok(self)
        } else {
            match self.child(path[from as int]) {
                Some(below) => below.walk(path, from + 1),
                None => Err(from),
            }
        }
    }

    /// Replaces what the slot at the end of `path` holds by `new`, following
    /// the path from its step `from` on. `Ok` holds the changed tree, `Err`
    /// the index of the first step that leads nowhere.
    pub open spec fn store(self, path: Seq<Step>, from: nat, new: Data) -> Result<Data, nat>
        decreases path.len() - from,
    {
        if from >= path.len() {
            Ok(new)
        } else {
            match self.child(path[from as int]) {
                Some(below) => match below.store(path, from + 1, new) {
                    Ok(changed) => Ok(self.with_child(path[from as int], changed)),
                    Err(at) => Err(at),
                },
                None => Err(from),
            }
        }
    }
}

impl Value {
    /// The value one step below this one.
    pub fn child<'a>(&'a self, segment: &Segment) -> (r: Option<&'a Value>)
        ensures
            self@.child(segment@) == match r {
                Some(v) => Some(v@),
                None => None,
            },
    {
        match segment {
            Segment::Key(key) => self.get(key.as_str()),
            Segment::Index(index) => self.at(*index),
        }
    }

    /// Follows `path` from its step `from` on, starting at `self`.
    pub fn walk<'a>(&'a self, path: &Vec<Segment>, from: usize) -> (r: Result<&'a Value, usize>)
        ensures
            self@.walk(steps(path@), from as nat) == match r {
                Ok(v) => Ok::<Data, nat>(v@),
                Err(at) => Err(at as nat),
            },
    {
        let mut current: &Value = self;
        let mut i: usize = from;
        while i < path.len()
            invariant
                self@.walk(steps(path@), from as nat) == current@.walk(steps(path@), i as nat),
            decreases path.len() - i,
        {
            match current.child(&path[i]) {
                Some(below) => {
                    current = below;
                },
                None => {
                    return Err(i);
                },
            }
            i += 1;
        }
        Ok(current)
    }

    /// Replaces what the slot at the end of `path` holds by `new`. Nothing
    /// is created on the way: where a step leads nowhere the tree is left as
    /// it was.
    pub fn store(&mut self, path: &Vec<Segment>, from: usize, new: Value) -> (r: Result<(), usize>)
        ensures
            match old(self)@.store(steps(path@), from as nat, new@) {
                Ok(changed) => r is Ok && final(self)@ == changed,
                Err(at) => r matches Err(e) && e as nat == at && final(self)@ == old(self)@,
            },
            old(self)@.well_formed() && new@.well_formed() ==> final(self)@.well_formed(),
        decreases path.len() - from,
    {
        proof {
            if old(self)@.well_formed() && new@.well_formed() && old(self)@.store(
                steps(path@),
                from as nat,
                new@,
            ) is Ok {
                law_store_keeps_keys_apart(old(self)@, steps(path@), from as nat, new@);
            }
        }
        if from >= path.len() {
            *self = new;
            return Ok(());
        }
        match &path[from] {
            Segment::Key(key) => match self {
                Value::Object(members) => {
                    proof {
                        lemma_dict_view(members@, members@.len());
                    }
                    let ghost entries = dict_view(members@, members@.len());
                    let mut i: usize = 0;
                    let mut found = false;
                    while i < members.len() && !found
                        invariant
                            i <= members.len(),
                            found ==> i < members.len() && entries[i as int].0 == key@,
                            entries == dict_view(members@, members@.len()),
                            entries.len() == members.len(),
                            forall|j: int|
                                0 <= j < members.len() ==> entries[j] == (
                                    members[j].key@,
                                    members[j].value@,
                                ),
                            first_key(entries, key@, 0) == first_key(entries, key@, i as int),
                        decreases members.len() - i, if found { 0int } else { 1int },
                    {
                        if same_text(members[i].key.as_str(), key.as_str()) {
                            found = true;
                        } else {
                            i += 1;
                        }
                    }
                    assert(steps(path@)[from as int] == Step::Key(key@));
                    if i < members.len() {
                        assert(first_key(entries, key@, 0) == i);
                        let ghost below = members[i as int].value@;
                        let ghost before = members@;
                        assert(old(self)@.child(Step::Key(key@)) == Some(below));
                        let r = members[i].value.store(path, from + 1, new);
                        proof {
                            lemma_dict_view(members@, members@.len());
                            let after = dict_view(members@, members@.len());
                            assert(members@.len() == before.len());
                            assert(members@[i as int].key == before[i as int].key);
                            assert(forall|j: int|
                                0 <= j < before.len() && j != i ==> members@[j] == before[j]);
                            match below.store(steps(path@), (from + 1) as nat, new@) {
                                Ok(changed) => {
                                    assert(after =~= entries.update(i as int, (key@, changed)));
                                },
                                Err(_) => {
                                    assert(after =~= entries);
                                },
                            }
                        }
                        r
                    } else {
                        assert(first_key(entries, key@, 0) == entries.len());
                        Err(from)
                    }
                },
                _ => Err(from),
            },
            Segment::Index(index) => match self {
                Value::Array(items) => {
                    proof {
                        lemma_list_view(items@, items@.len());
                    }
                    let ghost elements = list_view(items@, items@.len());
                    assert(steps(path@)[from as int] == Step::Index(*index as nat));
                    if *index < items.len() {
                        let ghost below = items[*index as int]@;
                        let r = items[*index].store(path, from + 1, new);
                        proof {
                            lemma_list_view(items@, items@.len());
                            let after = list_view(items@, items@.len());
                            match below.store(steps(path@), (from + 1) as nat, new@) {
                                Ok(changed) => {
                                    assert(after =~= elements.update(*index as int, changed));
                                },
                                Err(_) => {
                                    assert(after =~= elements);
                                },
                            }
                        }
                        r
                    } else {
                        Err(from)
                    }
                },
                _ => Err(from),
            },
        }
    }
}

/// The first entry under a key is found by the keys alone: two sequences
/// of entries with the same keys in the same places give the same index.
pub proof fn lemma_first_key_by_keys(
    a: Seq<(Seq<char>, Data)>,
    b: Seq<(Seq<char>, Data)>,
    key: Seq<char>,
    from: int,
)
    requires
        a.len() == b.len(),
        forall|i: int| 0 <= i < a.len() ==> a[i].0 == b[i].0,
    ensures
        first_key(a, key, from) == first_key(b, key, from),
    decreases a.len() - from,
{
    if 0 <= from < a.len() && a[from].0 != key {
        lemma_first_key_by_keys(a, b, key, from + 1);
    }
}

/// After one child of a value was replaced, the step to that child leads
/// to the new child, and every other step leads where it led before.
pub proof fn law_with_child(value: Data, step: Step, new: Data, other: Step)
    requires
        value.child(step) is Some,
    ensures
        value.with_child(step, new).child(step) == Some(new),
        other != step ==> value.with_child(step, new).child(other) == value.child(other),
{
    match (value, step) {
        (Data::Dict(entries), Step::Key(key)) => {
            let i = first_key(entries, key, 0);
            let changed = entries.update(i, (key, new));
            lemma_first_key(entries, key, 0);
            lemma_first_key_by_keys(entries, changed, key, 0);
            match other {
                Step::Key(k) => {
                    lemma_first_key_by_keys(entries, changed, k, 0);
                    lemma_first_key(entries, k, 0);
                },
                Step::Index(_) => {},
            }
        },
        (Data::List(items), Step::Index(index)) => {},
        _ => {},
    }
}

/// A successful assignment puts the value into the slot that the path
/// names: reading the path afterwards gives the value.
pub proof fn law_store_then_walk(value: Data, path: Seq<Step>, from: nat, new: Data)
    requires
        value.store(path, from, new) is Ok,
    ensures
        value.store(path, from, new)->Ok_0.walk(path, from) == Ok::<Data, nat>(new),
    decreases path.len() - from,
{
    if from < path.len() {
        let below = value.child(path[from as int])->Some_0;
        law_store_then_walk(below, path, from + 1, new);
        law_with_child(
            value,
            path[from as int],
            below.store(path, from + 1, new)->Ok_0,
            path[from as int],
        );
    }
}

/// A successful assignment changes only the slot that the path names:
/// a path that parts from it at some step, after going along with it up
/// to there, reads afterwards what it read before.
pub proof fn law_store_keeps_siblings(
    value: Data,
    path: Seq<Step>,
    from: nat,
    new: Data,
    other: Seq<Step>,
    parting: nat,
)
    requires
        value.store(path, from, new) is Ok,
        from <= parting < path.len(),
        parting < other.len(),
        forall|i: int| from <= i < parting ==> other[i] == path[i],
        other[parting as int] != path[parting as int],
    ensures
        value.store(path, from, new)->Ok_0.walk(other, from) == value.walk(other, from),
    decreases path.len() - from,
{
    let below = value.child(path[from as int])->Some_0;
    let changed = below.store(path, from + 1, new)->Ok_0;
    law_with_child(value, path[from as int], changed, other[from as int]);
    if from < parting {
        law_store_keeps_siblings(below, path, from + 1, new, other, parting);
    }
}

/// Reading and assigning walk the same steps and fail alike: where a step
/// of the path leads nowhere, both fail at that step, and where the path
/// can be read it can be assigned to.
pub proof fn law_walk_and_store_fail_alike(value: Data, path: Seq<Step>, from: nat, new: Data)
    ensures
        match value.walk(path, from) {
            Ok(_) => value.store(path, from, new) is Ok,
            Err(at) => value.store(path, from, new) == Err::<Data, nat>(at),
        },
    decreases path.len() - from,
{
    if from < path.len() {
        match value.child(path[from as int]) {
            Some(below) => {
                law_walk_and_store_fail_alike(below, path, from + 1, new);
            },
            None => {},
        }
    }
}

/// An assignment keeps the keys of every mapping apart: where no key
/// occurs twice in the tree and none in the new value, none occurs twice
/// afterwards.
pub proof fn law_store_keeps_keys_apart(value: Data, path: Seq<Step>, from: nat, new: Data)
    requires
        value.well_formed(),
        new.well_formed(),
        value.store(path, from, new) is Ok,
    ensures
        value.store(path, from, new)->Ok_0.well_formed(),
    decreases path.len() - from,
{
    if from < path.len() {
        let step = path[from as int];
        let below = value.child(step)->Some_0;
        match (value, step) {
            (Data::Dict(entries), Step::Key(key)) => {
                lemma_first_key(entries, key, 0);
                let i = first_key(entries, key, 0);
                assert(entries[i].1.well_formed());
                law_store_keeps_keys_apart(below, path, from + 1, new);
                let changed = below.store(path, from + 1, new)->Ok_0;
                let after = entries.update(i, (key, changed));
                assert forall|j: int| 0 <= j < after.len() implies (#[trigger] after[j]).1.well_formed() by {
                    if j != i {
                        assert(entries[j].1.well_formed());
                    }
                }
                assert forall|j: int, k: int| 0 <= j < k < after.len() implies (#[trigger] after[j]).0
                    != (#[trigger] after[k]).0 by {
                    assert(entries[j].0 != entries[k].0);
                }
            },
            (Data::List(items), Step::Index(index)) => {
                assert(items[index as int].well_formed());
                law_store_keeps_keys_apart(below, path, from + 1, new);
                let changed = below.store(path, from + 1, new)->Ok_0;
                let after = items.update(index as int, changed);
                assert forall|j: int| 0 <= j < after.len() implies (#[trigger] after[j]).well_formed() by {
                    if j != index {
                        assert(items[j].well_formed());
                    }
                }
            },
            _ => {},
        }
    }
}

/// A walk that fails, fails at or behind the step it starts from.
pub proof fn lemma_walk_fails_behind(value: Data, path: Seq<Step>, from: nat)
    ensures
        value.walk(path, from) matches Err(at) ==> from <= at < path.len(),
    decreases path.len() - from,
{
    if from < path.len() {
        match value.child(path[from as int]) {
            Some(below) => {
                lemma_walk_fails_behind(below, path, from + 1);
            },
            None => {},
        }
    }
}

} // verus!
