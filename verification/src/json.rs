//! A JSON document model: the values that `auth.json`, JWT payloads and the
//! account-import request are made of, with the object operations the logic
//! uses (`get`, `insert`, `contains_key`), each stated over a mathematical
//! model of the value.
use vstd::prelude::*;
use crate::text::{str_eq};

verus! {

broadcast use vstd::std_specs::vec::group_vec_axioms;

/// A JSON number: a signed integer, an unsigned integer, or any other number
/// kept by its decimal text.
#[derive(Debug, PartialEq)]
pub enum JsonNumber {
    Int(i64),
    UInt(u64),
    Other(String),
}

/// A JSON value.
#[derive(Debug, PartialEq)]
pub enum JsonValue {
    Null,
    Bool(bool),
    Number(JsonNumber),
    Str(String),
    Array(Vec<JsonValue>),
    Object(JsonObject),
}

/// A JSON object: its members in order. Lookups see the first member with a
/// given key; the operations here never create a second one (`keys_unique`).
#[derive(Debug, PartialEq)]
pub struct JsonObject {
    pub entries: Vec<(String, JsonValue)>,
}

/// The mathematical model of a JSON number.
pub enum NumberModel {
    Int(int),
    Text(Seq<char>),
}

/// The mathematical model of a JSON value: strings by their characters,
/// arrays as sequences and objects as sequences of members.
pub enum JsonModel {
    Null,
    Bool(bool),
    Number(NumberModel),
    Str(Seq<char>),
    Array(Seq<JsonModel>),
    Object(Seq<(Seq<char>, JsonModel)>),
}

pub type Members = Seq<(Seq<char>, JsonModel)>;

pub open spec fn number_model(n: JsonNumber) -> NumberModel {
    match n {
        JsonNumber::Int(i) => NumberModel::Int(i as int),
        JsonNumber::UInt(u) => NumberModel::Int(u as int),
        JsonNumber::Other(t) => NumberModel::Text(t@),
    }
}

pub open spec fn value_model(v: JsonValue) -> JsonModel
    decreases v,
{
    match v {
        JsonValue::Null => JsonModel::Null,
        JsonValue::Bool(b) => JsonModel::Bool(b),
        JsonValue::Number(n) => JsonModel::Number(number_model(n)),
        JsonValue::Str(s) => JsonModel::Str(s@),
        JsonValue::Array(items) => JsonModel::Array(values_model(items@)),
        JsonValue::Object(o) => JsonModel::Object(members_model(o.entries@)),
    }
}

pub open spec fn values_model(s: Seq<JsonValue>) -> Seq<JsonModel>
    decreases s,
{
    if s.len() == 0 {
        Seq::empty()
    } else {
        values_model(s.drop_last()).push(value_model(s.last()))
    }
}

pub open spec fn members_model(s: Seq<(String, JsonValue)>) -> Members
    decreases s,
{
    if s.len() == 0 {
        Seq::empty()
    } else {
        members_model(s.drop_last()).push((s.last().0@, value_model(s.last().1)))
    }
}

impl View for JsonValue {
    type V = JsonModel;

    open spec fn view(&self) -> JsonModel {
        value_model(*self)
    }
}

impl View for JsonObject {
    type V = Members;

    open spec fn view(&self) -> Members {
        members_model(self.entries@)
    }
}


pub proof fn lemma_values_model(s: Seq<JsonValue>)
    ensures
        values_model(s).len() == s.len(),
        forall|i: int| 0 <= i < s.len() ==> #[trigger] values_model(s)[i] == value_model(s[i]),
    decreases s.len(),
{
    if s.len() > 0 {
        lemma_values_model(s.drop_last());
    }
}

pub proof fn lemma_members_model(s: Seq<(String, JsonValue)>)
    ensures
        members_model(s).len() == s.len(),
        forall|i: int|
            0 <= i < s.len() ==> #[trigger] members_model(s)[i] == (s[i].0@, value_model(s[i].1)),
    decreases s.len(),
{
    if s.len() > 0 {
        lemma_members_model(s.drop_last());
    }
}

/// Index of the first member of `m` with key `key`.
pub open spec fn find_key(m: Members, key: Seq<char>) -> Option<int>
    decreases m.len(),
{
    if m.len() == 0 {
        None
    } else if m[0].0 == key {
        Some(0)
    } else {
        match find_key(m.drop_first(), key) {
            Some(i) => Some(i + 1),
            None => None,
        }
    }
}

/// `Map::get`: the value of the member with key `key`.
pub open spec fn model_get(m: Members, key: Seq<char>) -> Option<JsonModel> {
    match find_key(m, key) {
        Some(i) => Some(m[i].1),
        None => None,
    }
}

/// `Map::insert`: replaces the value of the member with key `key`, or adds
/// the member at the end.
pub open spec fn model_insert(m: Members, key: Seq<char>, value: JsonModel) -> Members {
    match find_key(m, key) {
        Some(i) => m.update(i, (key, value)),
        None => m.push((key, value)),
    }
}

/// No key occurs twice.
pub open spec fn keys_unique(m: Members) -> bool {
    forall|i: int, j: int| 0 <= i < j < m.len() ==> m[i].0 != m[j].0
}

pub proof fn lemma_find_key(m: Members, key: Seq<char>)
    ensures
        match find_key(m, key) {
            Some(i) => 0 <= i < m.len() && m[i].0 == key && forall|k: int|
                0 <= k < i ==> m[k].0 != key,
            None => forall|k: int| 0 <= k < m.len() ==> m[k].0 != key,
        },
    decreases m.len(),
{
    if m.len() > 0 && m[0].0 != key {
        lemma_find_key(m.drop_first(), key);
        match find_key(m.drop_first(), key) {
            Some(i) => {
                assert forall|k: int| 0 <= k < i + 1 implies m[k].0 != key by {
                    if k > 0 {
                        assert(m[k] == m.drop_first()[k - 1]);
                    }
                }
            },
            None => {
                assert forall|k: int| 0 <= k < m.len() implies m[k].0 != key by {
                    if k > 0 {
                        assert(m[k] == m.drop_first()[k - 1]);
                    }
                }
            },
        }
    }
}

/// The characterisation of `find_key` by the first matching index.
pub proof fn lemma_find_key_at(m: Members, key: Seq<char>, i: int)
    requires
        0 <= i < m.len(),
        m[i].0 == key,
        forall|k: int| 0 <= k < i ==> m[k].0 != key,
    ensures
        find_key(m, key) == Some(i),
{
    lemma_find_key(m, key);
    match find_key(m, key) {
        Some(j) => {
            if j < i {
            } else if j > i {
            }
        },
        None => {},
    }
}

pub proof fn lemma_find_key_none(m: Members, key: Seq<char>)
    requires
        forall|k: int| 0 <= k < m.len() ==> m[k].0 != key,
    ensures
        find_key(m, key) == None::<int>,
{
    lemma_find_key(m, key);
    match find_key(m, key) {
        Some(j) => {
            assert(m[j].0 == key);
        },
        None => {},
    }
}

/// Reading a key after writing it gives the written value; other keys are
/// untouched.
pub proof fn law_get_after_insert(m: Members, key: Seq<char>, value: JsonModel, other: Seq<char>)
    ensures
        model_get(model_insert(m, key, value), key) == Some(value),
        other != key ==> model_get(model_insert(m, key, value), other) == model_get(m, other),
{
    lemma_find_key(m, key);
    lemma_find_key(m, other);
    let n = model_insert(m, key, value);
    match find_key(m, key) {
        Some(i) => {
            lemma_find_key_at(n, key, i);
            if other != key {
                match find_key(m, other) {
                    Some(j) => lemma_find_key_at(n, other, j),
                    None => lemma_find_key_none(n, other),
                }
            }
        },
        None => {
            lemma_find_key_at(n, key, m.len() as int);
            if other != key {
                match find_key(m, other) {
                    Some(j) => lemma_find_key_at(n, other, j),
                    None => lemma_find_key_none(n, other),
                }
            }
        },
    }
}

/// Inserting keeps the keys of an object distinct, and adds a member only
/// when the key was absent.
pub proof fn law_insert_keeps_keys_unique(m: Members, key: Seq<char>, value: JsonModel)
    requires
        keys_unique(m),
    ensures
        keys_unique(model_insert(m, key, value)),
        model_insert(m, key, value).len() == m.len() + (if find_key(m, key) is Some {
            0int
        } else {
            1int
        }),
{
    lemma_find_key(m, key);
}


pub proof fn lemma_values_model_eq(a: Seq<JsonValue>, b: Seq<JsonValue>)
    requires
        a.len() == b.len(),
        forall|i: int| 0 <= i < a.len() ==> value_model(#[trigger] a[i]) == value_model(b[i]),
    ensures
        values_model(a) == values_model(b),
{
    lemma_values_model(a);
    lemma_values_model(b);
    assert(values_model(a) =~= values_model(b));
}

pub proof fn lemma_members_model_eq(a: Seq<(String, JsonValue)>, b: Seq<(String, JsonValue)>)
    requires
        a.len() == b.len(),
        forall|i: int|
            0 <= i < a.len() ==> (#[trigger] a[i]).0@ == b[i].0@ && value_model(a[i].1)
                == value_model(b[i].1),
    ensures
        members_model(a) == members_model(b),
{
    lemma_members_model(a);
    lemma_members_model(b);
    assert(members_model(a) =~= members_model(b));
}

impl JsonObject {
    /// An object with no members.
    pub fn new() -> (r: JsonObject)
        ensures
            r@ == Seq::<(Seq<char>, JsonModel)>::empty(),
    {
        JsonObject { entries: Vec::new() }
    }

    /// Index of the first member with key `key`.
    fn position(&self, key: &str) -> (r: Option<usize>)
        ensures
            match r {
                Some(i) => find_key(self@, key@) == Some(i as int) && i < self.entries.len(),
                None => find_key(self@, key@) is None,
            },
    {
        proof {
            lemma_members_model(self.entries@);
        }
        let mut i: usize = 0;
        while i < self.entries.len()
            invariant
                0 <= i <= self.entries.len(),
                members_model(self.entries@).len() == self.entries@.len(),
                forall|k: int| 0 <= k < i ==> (#[trigger] self@[k]).0 != key@,
            decreases self.entries.len() - i,
        {
            proof {
                lemma_members_model(self.entries@);
            }
            if str_eq(self.entries[i].0.as_str(), key) {
                proof {
                    lemma_find_key_at(self@, key@, i as int);
                }
                return Some(i);
            }
            i = i + 1;
        }
        proof {
            lemma_find_key_none(self@, key@);
        }
        None
    }

    /// `Map::get`.
    pub fn get(&self, key: &str) -> (r: Option<&JsonValue>)
        ensures
            match r {
                Some(v) => model_get(self@, key@) == Some(v@),
                None => model_get(self@, key@) is None,
            },
    {
        proof {
            lemma_members_model(self.entries@);
        }
        match self.position(key) {
            Some(i) => Some(&self.entries[i].1),
            None => None,
        }
    }

    /// `Map::contains_key`.
    pub fn contains_key(&self, key: &str) -> (r: bool)
        ensures
            r == (find_key(self@, key@) is Some),
    {
        self.position(key).is_some()
    }

    /// `Map::insert`.
    pub fn insert(&mut self, key: String, value: JsonValue)
        ensures
            final(self)@ == model_insert(old(self)@, key@, value@),
    {
        proof {
            lemma_members_model(self.entries@);
        }
        match self.position(key.as_str()) {
            Some(i) => {
                let ghost before = self.entries@;
                self.entries.set(i, (key, value));
                proof {
                    lemma_members_model(self.entries@);
                    assert(members_model(self.entries@) =~= members_model(before).update(
                        i as int,
                        (key@, value@),
                    ));
                }
            },
            None => {
                let ghost before = self.entries@;
                self.entries.push((key, value));
                proof {
                    lemma_members_model(self.entries@);
                    assert(members_model(self.entries@) =~= members_model(before).push(
                        (key@, value@),
                    ));
                }
            },
        }
    }

    /// A copy of this object.
    pub fn duplicate(&self) -> (r: JsonObject)
        ensures
            r@ == self@,
        decreases self,
    {
        let mut out: Vec<(String, JsonValue)> = Vec::new();
        let mut i: usize = 0;
        while i < self.entries.len()
            invariant
                0 <= i <= self.entries.len(),
                out@.len() == i,
                forall|k: int|
                    0 <= k < i ==> (#[trigger] out@[k]).0@ == self.entries@[k].0@ && value_model(
                        out@[k].1,
                    ) == value_model(self.entries@[k].1),
            decreases self.entries.len() - i,
        {
            let key = self.entries[i].0.clone();
            let value = self.entries[i].1.duplicate();
            out.push((key, value));
            i = i + 1;
        }
        proof {
            lemma_members_model_eq(out@, self.entries@);
        }
        JsonObject { entries: out }
    }
}

impl JsonValue {
    /// A copy of this value.
    pub fn duplicate(&self) -> (r: JsonValue)
        ensures
            r@ == self@,
        decreases self,
    {
        match self {
            JsonValue::Null => JsonValue::Null,
            JsonValue::Bool(b) => JsonValue::Bool(*b),
            JsonValue::Number(JsonNumber::Int(i)) => JsonValue::Number(JsonNumber::Int(*i)),
            JsonValue::Number(JsonNumber::UInt(u)) => JsonValue::Number(JsonNumber::UInt(*u)),
            JsonValue::Number(JsonNumber::Other(t)) => JsonValue::Number(
                JsonNumber::Other(t.clone()),
            ),
            JsonValue::Str(s) => JsonValue::Str(s.clone()),
            JsonValue::Array(items) => {
                let mut out: Vec<JsonValue> = Vec::new();
                let mut i: usize = 0;
                while i < items.len()
                    invariant
                        *self == JsonValue::Array(*items),
                        0 <= i <= items.len(),
                        out@.len() == i,
                        forall|k: int|
                            0 <= k < i ==> value_model(#[trigger] out@[k]) == value_model(
                                items@[k],
                            ),
                    decreases items.len() - i,
                {
                    proof {
                        assert(decreases_to!(*items => items[i as int]));
                        assert(decreases_to!(*self => (*self)->Array_0));
                        assert(decreases_to!(*self => items[i as int]));
                    }
                    out.push(items[i].duplicate());
                    i = i + 1;
                }
                proof {
                    lemma_values_model_eq(out@, items@);
                }
                JsonValue::Array(out)
            },
            JsonValue::Object(o) => JsonValue::Object(o.duplicate()),
        }
    }

    /// `Value::as_str`.
    pub fn as_str(&self) -> (r: Option<&str>)
        ensures
            match self@ {
                JsonModel::Str(s) => r matches Some(t) && t@ == s,
                _ => r is None,
            },
    {
        match self {
            JsonValue::Str(s) => Some(s.as_str()),
            _ => None,
        }
    }

    /// `Value::as_bool`.
    pub fn as_bool(&self) -> (r: Option<bool>)
        ensures
            r == match self@ {
                JsonModel::Bool(b) => Some(b),
                _ => None,
            },
    {
        match self {
            JsonValue::Bool(b) => Some(*b),
            _ => None,
        }
    }

    /// `Value::as_i64`: the value as an `i64`, where it is an integer in range.
    pub fn as_i64(&self) -> (r: Option<i64>)
        ensures
            r == match self@ {
                JsonModel::Number(NumberModel::Int(n)) => if i64::MIN <= n <= i64::MAX {
                    Some(n as i64)
                } else {
                    None
                },
                _ => None,
            },
    {
        match self {
            JsonValue::Number(JsonNumber::Int(i)) => Some(*i),
            JsonValue::Number(JsonNumber::UInt(u)) => {
                if *u <= 0x7fff_ffff_ffff_ffffu64 {
                    Some(*u as i64)
                } else {
                    None
                }
            },
            _ => None,
        }
    }

    /// `Value::as_object`.
    pub fn as_object(&self) -> (r: Option<&JsonObject>)
        ensures
            match self@ {
                JsonModel::Object(m) => r matches Some(o) && o@ == m,
                _ => r is None,
            },
    {
        match self {
            JsonValue::Object(o) => Some(o),
            _ => None,
        }
    }

    /// `Value::as_array`.
    pub fn as_array(&self) -> (r: Option<&Vec<JsonValue>>)
        ensures
            match self@ {
                JsonModel::Array(items) => r matches Some(v) && values_model(v@) == items,
                _ => r is None,
            },
    {
        match self {
            JsonValue::Array(v) => Some(v),
            _ => None,
        }
    }

    /// `Value::get` with a key: the member `key` of an object, `None` for
    /// anything else.
    pub fn get(&self, key: &str) -> (r: Option<&JsonValue>)
        ensures
            match self@ {
                JsonModel::Object(m) => match r {
                    Some(v) => model_get(m, key@) == Some(v@),
                    None => model_get(m, key@) is None,
                },
                _ => r is None,
            },
    {
        match self {
            JsonValue::Object(o) => o.get(key),
            _ => None,
        }
    }
}

} // verus!
