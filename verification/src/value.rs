//! The dynamic value tree that templates read and that `set` statements
//! change, together with its mathematical model.

use crate::text::same_text;
use vstd::prelude::*;

verus! {

/// A number: an exact integer, or a double held by its IEEE-754 bit pattern.
#[derive(Clone, Copy, Debug, PartialEq, Eq, Structural)]
pub enum Number {
    Integer(i128),
    Float(u64),
}

/// One entry of a mapping.
#[derive(Debug, PartialEq)]
pub struct Member {
    pub key: String,
    pub value: Value,
}

/// A JSON-like value.
#[derive(Debug, PartialEq)]
pub enum Value {
    Null,
    Bool(bool),
    Number(Number),
    String(String),
    Array(Vec<Value>),
    Object(Vec<Member>),
}

/// The mathematical model of a [`Value`].
pub enum Data {
    Null,
    Bool(bool),
    Number(Number),
    Text(Seq<char>),
    List(Seq<Data>),
    Dict(Seq<(Seq<char>, Data)>),
}

/// The models of the first `count` values of `items`.
pub open spec fn list_view(items: Seq<Value>, count: nat) -> Seq<Data>
    decreases items, count,
{
    if count == 0 || count > items.len() {
        Seq::empty()
    } else {
        list_view(items, (count - 1) as nat).push(items[count - 1]@)
    }
}

/// The models of the first `count` entries of `members`.
pub open spec fn dict_view(members: Seq<Member>, count: nat) -> Seq<(Seq<char>, Data)>
    decreases members, count,
{
    if count == 0 || count > members.len() {
        Seq::empty()
    } else {
        dict_view(members, (count - 1) as nat).push(
            (members[count - 1].key@, members[count - 1].value@),
        )
    }
}

impl View for Value {
    type V = Data;

    open spec fn view(&self) -> Data
        decreases self,
    {
        match self {
            Value::Null => Data::Null,
            Value::Bool(b) => Data::Bool(*b),
            Value::Number(n) => Data::Number(*n),
            Value::String(s) => Data::Text(s@),
            Value::Array(items) => Data::List(list_view(items@, items@.len())),
            Value::Object(members) => Data::Dict(dict_view(members@, members@.len())),
        }
    }
}

/// The models of the first `count` values are as many, and each is the
/// model of the value in its place.
pub proof fn lemma_list_view(items: Seq<Value>, count: nat)
    requires
        count <= items.len(),
    ensures
        list_view(items, count).len() == count,
        forall|i: int| 0 <= i < count ==> (#[trigger] list_view(items, count)[i]) == items[i]@,
    decreases count,
{
    if count > 0 {
        lemma_list_view(items, (count - 1) as nat);
        assert(list_view(items, count) == list_view(items, (count - 1) as nat).push(
            items[count - 1]@,
        ));
    } else {
        assert(list_view(items, count) == Seq::<Data>::empty());
    }
}

/// The model of a vector grown by one value is the model of the vector
/// grown by the model of that value.
pub proof fn lemma_list_view_push(items: Seq<Value>, value: Value)
    ensures
        list_view(items.push(value), items.len() + 1) == list_view(items, items.len()).push(
            value@,
        ),
{
    lemma_list_view(items, items.len());
    lemma_list_view(items.push(value), items.len() + 1);
    assert(list_view(items.push(value), items.len() + 1) =~= list_view(items, items.len()).push(
        value@,
    ));
}

/// The model of a vector without its last value is the model of the vector
/// without its last element.
pub proof fn lemma_list_view_drop_last(items: Seq<Value>)
    requires
        items.len() > 0,
    ensures
        list_view(items.drop_last(), (items.len() - 1) as nat) == list_view(
            items,
            items.len(),
        ).drop_last(),
{
    lemma_list_view(items, items.len());
    lemma_list_view(items.drop_last(), (items.len() - 1) as nat);
    assert(list_view(items.drop_last(), (items.len() - 1) as nat) =~= list_view(
        items,
        items.len(),
    ).drop_last());
}

/// The models of the first `count` entries are as many, and each is the
/// key and the model of the value of the entry in its place.
pub proof fn lemma_dict_view(members: Seq<Member>, count: nat)
    requires
        count <= members.len(),
    ensures
        dict_view(members, count).len() == count,
        forall|i: int|
            0 <= i < count ==> (#[trigger] dict_view(members, count)[i]) == (
                members[i].key@,
                members[i].value@,
            ),
    decreases count,
{
    if count > 0 {
        lemma_dict_view(members, (count - 1) as nat);
        assert(dict_view(members, count) == dict_view(members, (count - 1) as nat).push(
            (members[count - 1].key@, members[count - 1].value@),
        ));
    } else {
        assert(dict_view(members, count) == Seq::<(Seq<char>, Data)>::empty());
    }
}

/// The index of the first entry of `entries` at or after `from` whose key is
/// `key`, or the length of `entries` where there is none.
pub open spec fn first_key(entries: Seq<(Seq<char>, Data)>, key: Seq<char>, from: int) -> int
    decreases entries.len() - from,
{
    if from < 0 || from >= entries.len() {
        entries.len() as int
    } else if entries[from].0 == key {
        from
    } else {
        first_key(entries, key, from + 1)
    }
}

impl Data {
    /// The entry of a mapping under `key`: the first one, if a key repeats.
    pub open spec fn member(self, key: Seq<char>) -> Option<Data> {
        match self {
            Data::Dict(entries) => {
                let i = first_key(entries, key, 0);
                if i < entries.len() {
                    Some(entries[i].1)
                } else {
                    None
                }
            },
            _ => None,
        }
    }

    /// The element of a sequence at `index`.
    pub open spec fn element(self, index: nat) -> Option<Data> {
        match self {
            Data::List(items) => if index < items.len() {
                Some(items[index as int])
            } else {
                None
            },
            _ => None,
        }
    }

    /// No key occurs twice in a mapping, at any depth.
    pub open spec fn well_formed(self) -> bool
        decreases self,
    {
        match self {
            Data::List(items) => forall|i: int|
                0 <= i < items.len() ==> (#[trigger] items[i]).well_formed(),
            Data::Dict(entries) => {
                &&& forall|i: int, j: int|
                    0 <= i < j < entries.len() ==> (#[trigger] entries[i]).0 != (
                    #[trigger] entries[j]).0
                &&& forall|i: int|
                    0 <= i < entries.len() ==> (#[trigger] entries[i]).1.well_formed()
            },
            _ => true,
        }
    }
}

/// The first entry under a key at or after `from` lies at or after
/// `from`, it has the key, and no entry between `from` and it has.
pub proof fn lemma_first_key(entries: Seq<(Seq<char>, Data)>, key: Seq<char>, from: int)
    requires
        0 <= from <= entries.len(),
    ensures
        from <= first_key(entries, key, from) <= entries.len(),
        first_key(entries, key, from) < entries.len() ==> entries[first_key(
            entries,
            key,
            from,
        )].0 == key,
        forall|i: int| from <= i < first_key(entries, key, from) ==> entries[i].0 != key,
    decreases entries.len() - from,
{
    if from < entries.len() && entries[from].0 != key {
        lemma_first_key(entries, key, from + 1);
    }
}

impl Value {
    /// The entry of a mapping under `key`, as `serde_json`'s `Value::get`
    /// gives it for a string: `None` for a missing key and for a value that
    /// is no mapping.
    pub fn get<'a>(&'a self, key: &str) -> (r: Option<&'a Value>)
        ensures
            self@.member(key@) == match r {
                Some(v) => Some(v@),
                None => None,
            },
    {
        match self {
            Value::Object(members) => {
                proof {
                    lemma_dict_view(members@, members@.len());
                }
                let mut i: usize = 0;
                while i < members.len()
                    invariant
                        i <= members.len(),
                        self@ is Dict,
                        self@->Dict_0.len() == members.len(),
                        forall|j: int|
                            0 <= j < members.len() ==> self@->Dict_0[j] == (
                                members[j].key@,
                                members[j].value@,
                            ),
                        first_key(self@->Dict_0, key@, 0) == first_key(
                            self@->Dict_0,
                            key@,
                            i as int,
                        ),
                    decreases members.len() - i,
                {
                    if same_text(members[i].key.as_str(), key) {
                        return Some(&members[i].value);
                    }
                    i += 1;
                }
                None
            },
            _ => None,
        }
    }

    /// The element of a sequence at `index`: `None` past the end and for a
    /// value that is no sequence.
    pub fn at<'a>(&'a self, index: usize) -> (r: Option<&'a Value>)
        ensures
            self@.element(index as nat) == match r {
                Some(v) => Some(v@),
                None => None,
            },
    {
        match self {
            Value::Array(items) => {
                proof {
                    lemma_list_view(items@, items@.len());
                }
                if index < items.len() {
                    Some(&items[index])
                } else {
                    None
                }
            },
            _ => None,
        }
    }
}

impl Clone for Value {
    /// A deep copy: it has the same model as the value it was made from.
    fn clone(&self) -> (r: Value)
        ensures
            r@ == self@,
        decreases self,
    {
        match self {
            Value::Null => Value::Null,
            Value::Bool(b) => Value::Bool(*b),
            Value::Number(n) => Value::Number(*n),
            Value::String(s) => Value::String(s.clone()),
            Value::Array(items) => {
                let mut copy: Vec<Value> = Vec::new();
                let mut i: usize = 0;
                while i < items.len()
                    invariant
                        i <= items.len(),
                        copy.len() == i,
                        decreases_to!(self => items),
                        forall|j: int| 0 <= j < i ==> copy[j]@ == items[j]@,
                    decreases items.len() - i,
                {
                    assert(decreases_to!(items => items[i as int]));
                    let item = items[i].clone();
                    copy.push(item);
                    i += 1;
                }
                proof {
                    lemma_list_view(items@, items@.len());
                    lemma_list_view(copy@, copy@.len());
                    assert(list_view(copy@, copy@.len()) =~= list_view(items@, items@.len()));
                }
                Value::Array(copy)
            },
            Value::Object(members) => {
                let mut copy: Vec<Member> = Vec::new();
                let mut i: usize = 0;
                while i < members.len()
                    invariant
                        i <= members.len(),
                        copy.len() == i,
                        decreases_to!(self => members),
                        forall|j: int|
                            0 <= j < i ==> copy[j].key@ == members[j].key@ && copy[j].value@
                                == members[j].value@,
                    decreases members.len() - i,
                {
                    assert(decreases_to!(members => members[i as int]));
                    let value = members[i].value.clone();
                    copy.push(Member { key: members[i].key.clone(), value });
                    i += 1;
                }
                proof {
                    lemma_dict_view(members@, members@.len());
                    lemma_dict_view(copy@, copy@.len());
                    assert(dict_view(copy@, copy@.len()) =~= dict_view(members@, members@.len()));
                }
                Value::Object(copy)
            },
        }
    }
}

} // verus!
