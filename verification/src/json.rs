//! JSON values: the data that connectors read.
//!
//! [`Value`] holds a JSON document as plain values; [`Json`] is what such a value means.
use vstd::prelude::*;

use crate::text::same_text;

verus! {

/// A JSON number, kept the way that JSON readers keep it.
#[derive(Clone, Copy, Debug, PartialEq, Eq, Structural)]
pub enum Number {
    /// An integer that is not negative.
    Unsigned(u64),
    /// A negative integer.
    Negative(i64),
    /// A number with a fraction or an exponent, or one too large for the above: the bit
    /// pattern of the double that it was read as.
    Float(u64),
}

/// A JSON value.
#[derive(Debug)]
pub enum Value {
    Null,
    Bool(bool),
    Number(Number),
    String(String),
    Array(Vec<Value>),
    Object(Object),
}

/// The members of a JSON object: at most one value to a key.
#[derive(Debug)]
pub struct Object {
    members: Vec<(String, Value)>,
}

/// What a JSON value means.
pub enum Json {
    Null,
    Bool(bool),
    Number(Number),
    String(Seq<char>),
    Array(Seq<Json>),
    Object(Map<Seq<char>, Json>),
}

/// The meanings of the items of an array.
pub open spec fn items_view(items: Seq<Value>) -> Seq<Json>
    decreases items,
{
    Seq::new(items.len(), |i: int| if 0 <= i < items.len() { items[i].view() } else { Json::Null })
}

/// The meaning of an array has the meaning of each item in its place.
pub proof fn lemma_items_view(items: Seq<Value>)
    ensures
        items_view(items).len() == items.len(),
        forall|i: int| 0 <= i < items.len() ==> #[trigger] items_view(items)[i] == items[i]@,
{
}

/// What the first `n` members of an object map each key to.
spec fn members_view(members: Seq<(String, Value)>, n: nat) -> Map<Seq<char>, Json>
    decreases members, n,
{
    if n == 0 || n > members.len() {
        Map::empty()
    } else {
        members_view(members, (n - 1) as nat).insert(
            members[n - 1].0@,
            members[n - 1].1.view(),
        )
    }
}

impl View for Value {
    type V = Json;

    open spec fn view(&self) -> Json
        decreases self,
    {
        match self {
            Value::Null => Json::Null,
            Value::Bool(b) => Json::Bool(*b),
            Value::Number(n) => Json::Number(*n),
            Value::String(s) => Json::String(s@),
            Value::Array(items) => Json::Array(items_view(items@)),
            Value::Object(o) => Json::Object(o.view()),
        }
    }
}

impl View for Object {
    type V = Map<Seq<char>, Json>;

    closed spec fn view(&self) -> Map<Seq<char>, Json>
        decreases self,
    {
        members_view(self.members@, self.members@.len())
    }
}

impl Json {
    /// The text, if the value is a string.
    pub open spec fn as_str(self) -> Option<Seq<char>> {
        match self {
            Json::String(s) => Some(s),
            _ => None,
        }
    }

    /// The items, if the value is an array.
    pub open spec fn as_array(self) -> Option<Seq<Json>> {
        match self {
            Json::Array(items) => Some(items),
            _ => None,
        }
    }

    /// The value of a member, if the value is an object that has it.
    pub open spec fn get(self, key: Seq<char>) -> Option<Json> {
        match self {
            Json::Object(members) => if members.contains_key(key) {
                Some(members[key])
            } else {
                None
            },
            _ => None,
        }
    }

    /// The text of a member, if the value is an object that has it and the member is a
    /// string.
    pub open spec fn get_str(self, key: Seq<char>) -> Option<Seq<char>> {
        match self.get(key) {
            Some(value) => value.as_str(),
            None => None,
        }
    }
}

/// What an optional text means.
pub open spec fn text_view(text: Option<&str>) -> Option<Seq<char>> {
    match text {
        Some(s) => Some(s@),
        None => None,
    }
}

/// What an optional value means.
pub open spec fn value_view(value: Option<&Value>) -> Option<Json> {
    match value {
        Some(v) => Some(v@),
        None => None,
    }
}

impl Value {
    /// The text, if the value is a string.
    pub fn as_str(&self) -> (r: Option<&str>)
        ensures
            text_view(r) == self@.as_str(),
    {
        match self {
            Value::String(s) => Some(s.as_str()),
            _ => None,
        }
    }

    /// The items, if the value is an array.
    pub fn as_array(&self) -> (r: Option<&Vec<Value>>)
        ensures
            r is None <==> self@.as_array() is None,
            r matches Some(items) ==> self@.as_array() == Some(items_view(items@)),
    {
        match self {
            Value::Array(items) => Some(items),
            _ => None,
        }
    }

    /// The value of a member, if the value is an object that has it.
    pub fn get(&self, key: &str) -> (r: Option<&Value>)
        ensures
            value_view(r) == self@.get(key@),
    {
        match self {
            Value::Object(members) => members.get(key),
            _ => None,
        }
    }

    /// The text of a member, if the value is an object that has it and the member is a
    /// string.
    pub fn get_str(&self, key: &str) -> (r: Option<&str>)
        ensures
            text_view(r) == self@.get_str(key@),
    {
        match self.get(key) {
            Some(value) => value.as_str(),
            None => None,
        }
    }
}

impl Clone for Value {
    fn clone(&self) -> (r: Value)
        ensures
            r@ == self@,
        decreases self,
    {
        match self {
            Value::Null => Value::Null,
            Value::Bool(b) => Value::Bool(*b),
            Value::Number(n) => Value::Number(*n),
            Value::String(s) => Value::String(s.clone()),
            Value::Array(items) => {
                let mut copies: Vec<Value> = Vec::new();
                let mut i: usize = 0;
                while i < items.len()
                    invariant
                        i <= items.len(),
                        copies.len() == i,
                        *self == Value::Array(*items),
                        forall|j: int| 0 <= j < i ==> #[trigger] copies[j]@ == items[j]@,
                    decreases items.len() - i,
                {
                    proof {
                        assert(decreases_to!(*self => self->Array_0));
                        assert(decreases_to!(items => items@));
                        assert(decreases_to!(items@ => items@[i as int]));
                    }
                    copies.push(items[i].clone());
                    i = i + 1;
                }
                proof {
                    lemma_items_view(copies@);
                    lemma_items_view(items@);
                    assert(items_view(copies@) =~= items_view(items@));
                }
                Value::Array(copies)
            },
            Value::Object(members) => Value::Object(members.clone()),
        }
    }
}

/// What one more member adds.
proof fn lemma_last_member(members: Seq<(String, Value)>, n: nat)
    requires
        0 < n <= members.len(),
    ensures
        members_view(members, n) == members_view(members, (n - 1) as nat).insert(
            members[n - 1].0@,
            members[n - 1].1@,
        ),
{
}

/// Members with the same keys and values map the same keys to the same values.
proof fn lemma_same_members(a: Seq<(String, Value)>, b: Seq<(String, Value)>, n: nat)
    requires
        n <= a.len(),
        n <= b.len(),
        forall|i: int| 0 <= i < n ==> (#[trigger] a[i]).0@ == b[i].0@ && a[i].1@ == b[i].1@,
    ensures
        members_view(a, n) == members_view(b, n),
    decreases n,
{
    if n > 0 {
        lemma_same_members(a, b, (n - 1) as nat);
    }
}

/// A key that none of the first `n` members has is not mapped by them.
proof fn lemma_absent(members: Seq<(String, Value)>, n: nat, key: Seq<char>)
    requires
        n <= members.len(),
        forall|i: int| 0 <= i < n ==> (#[trigger] members[i]).0@ != key,
    ensures
        !members_view(members, n).contains_key(key),
    decreases n,
{
    if n > 0 {
        lemma_absent(members, (n - 1) as nat, key);
        lemma_last_member(members, n);
        assert(members[n - 1].0@ != key);
    }
}

/// A member whose key no later one has is mapped to its value.
proof fn lemma_present(members: Seq<(String, Value)>, n: nat, at: int)
    requires
        0 <= at < n <= members.len(),
        forall|i: int| at < i < n ==> (#[trigger] members[i]).0@ != members[at].0@,
    ensures
        members_view(members, n).contains_key(members[at].0@),
        members_view(members, n)[members[at].0@] == members[at].1@,
    decreases n,
{
    lemma_last_member(members, n);
    if at < n - 1 {
        lemma_present(members, (n - 1) as nat, at);
        assert(members[n - 1].0@ != members[at].0@);
    }
}

/// Replacing the value of the one member that has a key.
proof fn lemma_replace(a: Seq<(String, Value)>, b: Seq<(String, Value)>, n: nat, at: int)
    requires
        a.len() == b.len(),
        0 <= at < n <= a.len(),
        forall|i: int|
            0 <= i < n && i != at ==> (#[trigger] a[i]) == b[i] && a[i].0@ != a[at].0@,
        a[at].0@ == b[at].0@,
    ensures
        members_view(b, n) == members_view(a, n).insert(b[at].0@, b[at].1@),
    decreases n,
{
    lemma_last_member(a, n);
    lemma_last_member(b, n);
    if n == at + 1 {
        lemma_same_members(a, b, at as nat);
        assert(members_view(b, n) =~= members_view(a, n).insert(b[at].0@, b[at].1@));
    } else {
        lemma_replace(a, b, (n - 1) as nat, at);
        assert(a[n - 1] == b[n - 1]);
        assert(members_view(b, n) =~= members_view(a, n).insert(b[at].0@, b[at].1@));
    }
}

impl Object {
    /// No two members have the same key.
    #[verifier::type_invariant]
    spec fn distinct_keys(self) -> bool {
        forall|i: int, j: int|
            0 <= i < j < self.members@.len() ==> (#[trigger] self.members@[i]).0@ != (
            #[trigger] self.members@[j]).0@
    }

    /// An object without members.
    pub fn new() -> (r: Object)
        ensures
            r@ == Map::<Seq<char>, Json>::empty(),
    {
        Object { members: Vec::new() }
    }

    /// The value of a member.
    pub fn get(&self, key: &str) -> (r: Option<&Value>)
        ensures
            r is Some <==> self@.contains_key(key@),
            r matches Some(v) ==> v@ == self@[key@],
    {
        let mut n: usize = self.members.len();
        while n > 0
            invariant
                n <= self.members@.len(),
                self@.contains_key(key@) == members_view(self.members@, n as nat).contains_key(
                    key@,
                ),
                self@[key@] == members_view(self.members@, n as nat)[key@],
            decreases n,
        {
            proof {
                lemma_last_member(self.members@, n as nat);
            }
            if same_text(self.members[n - 1].0.as_str(), key) {
                return Some(&self.members[n - 1].1);
            }
            n = n - 1;
        }
        None
    }

    /// The members, each key once.
    pub fn members(&self) -> (r: &Vec<(String, Value)>)
        ensures
            forall|i: int|
                0 <= i < r@.len() ==> self@.contains_key((#[trigger] r@[i]).0@)
                    && self@[r@[i].0@] == r@[i].1@,
            forall|key: Seq<char>| #[trigger]
                self@.contains_key(key) ==> exists|i: int|
                    0 <= i < r@.len() && (#[trigger] r@[i]).0@ == key,
            forall|i: int, j: int|
                0 <= i < j < r@.len() ==> (#[trigger] r@[i]).0@ != (#[trigger] r@[j]).0@,
    {
        proof {
            use_type_invariant(self);
            let members = self.members@;
            assert forall|i: int| 0 <= i < members.len() implies self@.contains_key(
                (#[trigger] members[i]).0@,
            ) && self@[members[i].0@] == members[i].1@ by {
                lemma_present(members, members.len(), i);
            }
            assert forall|key: Seq<char>| #[trigger] self@.contains_key(key) implies exists|i: int|
                0 <= i < members.len() && (#[trigger] members[i]).0@ == key by {
                if forall|i: int| 0 <= i < members.len() ==> (#[trigger] members[i]).0@ != key {
                    lemma_absent(members, members.len(), key);
                }
            }
        }
        &self.members
    }

    /// The object with `key` mapped to `value`, whatever it was mapped to before.
    pub fn with(self, key: String, value: Value) -> (r: Object)
        ensures
            r@ == self@.insert(key@, value@),
    {
        proof {
            use_type_invariant(&self);
        }
        let ghost old_members = self.members@;
        let mut members = self.members;
        let mut i: usize = 0;
        while i < members.len()
            invariant
                i <= members.len(),
                members@ == old_members,
                self@ == members_view(old_members, old_members.len()),
                forall|a: int, b: int|
                    0 <= a < b < old_members.len() ==> (#[trigger] old_members[a]).0@ != (
                    #[trigger] old_members[b]).0@,
                forall|j: int| 0 <= j < i ==> (#[trigger] old_members[j]).0@ != key@,
            decreases members.len() - i,
        {
            if same_text(members[i].0.as_str(), key.as_str()) {
                members.set(i, (key, value));
                proof {
                    lemma_replace(old_members, members@, members@.len(), i as int);
                }
                return Object { members };
            }
            i = i + 1;
        }
        members.push((key, value));
        proof {
            lemma_same_members(old_members, members@, old_members.len());
        }
        Object { members }
    }
}

impl Clone for Object {
    fn clone(&self) -> (r: Object)
        ensures
            r@ == self@,
        decreases self,
    {
        let mut members: Vec<(String, Value)> = Vec::new();
        let mut i: usize = 0;
        while i < self.members.len()
            invariant
                i <= self.members.len(),
                members.len() == i,
                forall|j: int|
                    0 <= j < i ==> (#[trigger] members[j]).0@ == self.members[j].0@
                        && members[j].1@ == self.members[j].1@,
            decreases self.members.len() - i,
        {
            members.push((self.members[i].0.clone(), self.members[i].1.clone()));
            i = i + 1;
        }
        proof {
            use_type_invariant(self);
            lemma_same_members(members@, self.members@, members@.len());
        }
        Object { members }
    }
}

/// A value means what it holds: a text its characters, an array the meanings of its items in
/// their order, an object what its members mean, and anything else itself.
pub proof fn law_values_mean_what_they_hold(
    b: bool,
    n: Number,
    s: String,
    items: Vec<Value>,
    members: Object,
)
    ensures
        Value::Null@ == Json::Null,
        Value::Bool(b)@ == Json::Bool(b),
        Value::Number(n)@ == Json::Number(n),
        Value::String(s)@ == Json::String(s@),
        Value::Object(members)@ == Json::Object(members@),
        Value::Array(items)@ is Array,
        Value::Array(items)@->Array_0.len() == items@.len(),
        forall|i: int|
            0 <= i < items@.len() ==> #[trigger] Value::Array(items)@->Array_0[i] == items@[i]@,
{
    lemma_items_view(items@);
}

/// An optional text or value means what it holds, if it holds anything.
pub proof fn law_options_mean_what_they_hold(s: &str, value: &Value)
    ensures
        text_view(Some(s)) == Some(s@),
        text_view(None) is None,
        value_view(Some(value)) == Some(value@),
        value_view(None) is None,
{
}

/// A member is found under its own key with the value it was given last, whatever other members
/// there are, and not after it was removed.
pub proof fn law_members_are_found_by_key(
    members: Map<Seq<char>, Json>,
    key: Seq<char>,
    other: Seq<char>,
    value: Json,
)
    ensures
        Json::Object(members.insert(key, value)).get(key) == Some(value),
        Json::Object(members.remove(key)).get(key) is None,
        key != other ==> Json::Object(members.insert(other, value)).get(key) == Json::Object(
            members,
        ).get(key),
        Json::Object(members).get(key) is Some <==> members.contains_key(key),
        members.contains_key(key) ==> Json::Object(members).get(key) == Some(members[key]),
{
}

/// The text of a member is found where the member is a string, and nowhere else.
pub proof fn law_texts_are_found_by_key(
    members: Map<Seq<char>, Json>,
    key: Seq<char>,
    text: Seq<char>,
)
    ensures
        Json::Object(members).get_str(key) == Some(text) <==> members.contains_pair(
            key,
            Json::String(text),
        ),
        Json::Object(members).get_str(key) is None <==> !(members.contains_key(key)
            && members[key] is String),
{
}

/// Only an object has members, only a string a text, and only an array items.
pub proof fn law_accessors_tell_values_apart(
    value: Json,
    key: Seq<char>,
    text: Seq<char>,
    items: Seq<Json>,
)
    ensures
        !(value is Object) ==> value.get(key) is None && value.get_str(key) is None,
        value.as_str() == Some(text) <==> value == Json::String(text),
        value.as_str() is None <==> !(value is String),
        value.as_array() == Some(items) <==> value == Json::Array(items),
        value.as_array() is None <==> !(value is Array),
{
}

}
