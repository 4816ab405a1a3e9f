//! A structural model of JSON-like wire values.
//!
//! `WireValue` holds exactly what the rest of the library reads from a wire
//! document: the six JSON shapes, with numbers split into those that are
//! unsigned integers and all others (kept as their decimal text).

use vstd::prelude::*;
use crate::text::text_eq;

verus! {

/// The mathematical content of a wire value.
pub enum WireModel {
    Null,
    Bool(bool),
    Unsigned(u64),
    OtherNumber(Seq<char>),
    Text(Seq<char>),
    Array(Seq<WireModel>),
    Object(Seq<(Seq<char>, WireModel)>),
}

/// A JSON-like value.
#[derive(Debug, PartialEq, Eq)]
pub enum WireValue {
    Null,
    Bool(bool),
    /// A number that is a non-negative integer below 2^64.
    Unsigned(u64),
    /// Any other number, as its decimal text.
    OtherNumber(String),
    Text(String),
    Array(Vec<WireValue>),
    /// The members of an object, in order. A lookup finds the first member
    /// with the requested key.
    Object(Vec<(String, WireValue)>),
}

impl WireValue {
    /// The model of this value.
    pub open spec fn model(&self) -> WireModel
        decreases self,
    {
        match self {
            WireValue::Null => WireModel::Null,
            WireValue::Bool(b) => WireModel::Bool(*b),
            WireValue::Unsigned(n) => WireModel::Unsigned(*n),
            WireValue::OtherNumber(t) => WireModel::OtherNumber(t@),
            WireValue::Text(t) => WireModel::Text(t@),
            WireValue::Array(items) => WireModel::Array(
                Seq::new(items@.len(), |i: int| if 0 <= i < items@.len() { items@[i].model() } else { WireModel::Null }),
            ),
            WireValue::Object(members) => WireModel::Object(
                Seq::new(
                    members@.len(),
                    |i: int| if 0 <= i < members@.len() { (members@[i].0@, members@[i].1.model()) } else { (Seq::empty(), WireModel::Null) },
                ),
            ),
        }
    }
}

/// The first member at or after `from` whose key is `key`, if there is one.
pub open spec fn first_member(
    members: Seq<(Seq<char>, WireModel)>,
    key: Seq<char>,
    from: int,
) -> Option<WireModel>
    decreases members.len() - from,
{
    if from < 0 || from >= members.len() {
        None
    } else if members[from].0 == key {
        Some(members[from].1)
    } else {
        first_member(members, key, from + 1)
    }
}

impl WireModel {
    /// The value stored under `key`, where this is an object that has it.
    pub open spec fn field(self, key: Seq<char>) -> Option<WireModel> {
        match self {
            WireModel::Object(members) => first_member(members, key, 0),
            _ => None,
        }
    }

    /// The elements, where this is an array.
    pub open spec fn items(self) -> Option<Seq<WireModel>> {
        match self {
            WireModel::Array(items) => Some(items),
            _ => None,
        }
    }

    /// The number, where this is an unsigned integer.
    pub open spec fn unsigned(self) -> Option<u64> {
        match self {
            WireModel::Unsigned(n) => Some(n),
            _ => None,
        }
    }

    /// The characters, where this is a string.
    pub open spec fn text(self) -> Option<Seq<char>> {
        match self {
            WireModel::Text(t) => Some(t),
            _ => None,
        }
    }

    /// The truth value, where this is a boolean.
    pub open spec fn boolean(self) -> Option<bool> {
        match self {
            WireModel::Bool(b) => Some(b),
            _ => None,
        }
    }
}

/// The models of a list of values, element by element.
pub open spec fn models_of(items: Seq<WireValue>) -> Seq<WireModel> {
    Seq::new(items.len(), |i: int| items[i].model())
}

/// The models of a list of members: each key's characters with the value's
/// model.
pub open spec fn member_models(members: Seq<(String, WireValue)>) -> Seq<(Seq<char>, WireModel)> {
    Seq::new(members.len(), |i: int| (members[i].0@, members[i].1.model()))
}

/// An object's model is the list of its members' models.
pub proof fn lemma_object_model(members: Vec<(String, WireValue)>)
    ensures
        WireValue::Object(members).model() == WireModel::Object(member_models(members@)),
{
    let m = WireValue::Object(members).model();
    assert(m->Object_0 =~= member_models(members@));
}

/// An array's model is the list of its elements' models.
pub proof fn lemma_array_model(items: Vec<WireValue>)
    ensures
        WireValue::Array(items).model() == WireModel::Array(models_of(items@)),
{
    let m = WireValue::Array(items).model();
    assert(m->Array_0 =~= models_of(items@));
}

impl WireValue {
    /// Looks `key` up in an object. Anything that is not an object has no
    /// members.
    pub fn get(&self, key: &str) -> (r: Option<&WireValue>)
        ensures
            match r {
                Some(v) => self.model().field(key@) == Some(v.model()),
                None => self.model().field(key@) is None,
            },
    {
        match self {
            WireValue::Object(members) => {
                let ghost all = self.model()->Object_0;
                let mut i: usize = 0;
                while i < members.len()
                    invariant
                        i <= members.len(),
                        self.model() == WireModel::Object(all),
                        all.len() == members@.len(),
                        forall|k: int|
                            0 <= k < members@.len() ==> #[trigger] all[k] == (
                                members@[k].0@,
                                members@[k].1.model(),
                            ),
                        first_member(all, key@, 0) == first_member(all, key@, i as int),
                    decreases members.len() - i,
                {
                    if text_eq(members[i].0.as_str(), key) {
                        return Some(&members[i].1);
                    }
                    i += 1;
                }
                None
            },
            _ => None,
        }
    }

    /// Takes the value under `key` out of an object.
    pub fn into_member(self, key: &str) -> (r: Option<WireValue>)
        ensures
            match r {
                Some(v) => self.model().field(key@) == Some(v.model()),
                None => self.model().field(key@) is None,
            },
    {
        match self {
            WireValue::Object(members) => {
                proof {
                    lemma_object_model(members);
                }
                let mut members = members;
                let ghost all = member_models(members@);
                let mut i: usize = 0;
                while i < members.len()
                    invariant
                        i <= members.len(),
                        all == member_models(members@),
                        self.model() == WireModel::Object(all),
                        first_member(all, key@, 0) == first_member(all, key@, i as int),
                    decreases members.len() - i,
                {
                    if text_eq(members[i].0.as_str(), key) {
                        let member = members.remove(i);
                        return Some(member.1);
                    }
                    i += 1;
                }
                None
            },
            _ => None,
        }
    }

    /// Takes the elements out of an array.
    pub fn into_array(self) -> (r: Option<Vec<WireValue>>)
        ensures
            match r {
                Some(items) => self.model().items() == Some(models_of(items@)),
                None => self.model().items() is None,
            },
    {
        match self {
            WireValue::Array(items) => {
                proof {
                    lemma_array_model(items);
                }
                Some(items)
            },
            _ => None,
        }
    }

    /// The elements of an array.
    pub fn as_array(&self) -> (r: Option<&Vec<WireValue>>)
        ensures
            match r {
                Some(items) => self.model().items() == Some(models_of(items@)),
                None => self.model().items() is None,
            },
    {
        match self {
            WireValue::Array(items) => {
                proof {
                    assert(self.model()->Array_0 =~= models_of(items@));
                }
                Some(items)
            },
            _ => None,
        }
    }

    /// The number, where this is an unsigned integer.
    pub fn as_u64(&self) -> (r: Option<u64>)
        ensures
            r == self.model().unsigned(),
    {
        match self {
            WireValue::Unsigned(n) => Some(*n),
            _ => None,
        }
    }

    /// The characters of a string value.
    pub fn as_str(&self) -> (r: Option<&str>)
        ensures
            match r {
                Some(t) => self.model().text() == Some(t@),
                None => self.model().text() is None,
            },
    {
        match self {
            WireValue::Text(t) => Some(t.as_str()),
            _ => None,
        }
    }

    /// The truth value of a boolean.
    pub fn as_bool(&self) -> (r: Option<bool>)
        ensures
            r == self.model().boolean(),
    {
        match self {
            WireValue::Bool(b) => Some(*b),
            _ => None,
        }
    }
}

} // verus!
