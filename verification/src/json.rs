//! JSON values as the stores look at them.

use vstd::prelude::*;

use crate::collections::{index_where, lemma_index_where, position};
use crate::strings::{owned, str_eq};

verus! {

/// A JSON value. A number is kept as it is written; an object lists its members
/// by distinct names.
#[derive(Debug)]
pub enum Json {
    Null,
    Bool(bool),
    Number(String),
    String(String),
    Array(Vec<Json>),
    Object(Vec<Member>),
}

/// A member of an object.
#[derive(Debug)]
pub struct Member {
    pub key: String,
    pub value: Json,
}

/// The member has this name.
pub open spec fn named(key: Seq<char>) -> spec_fn(Member) -> bool {
    |m: Member| m.key@ == key
}

impl Json {
    /// The members of an object.
    pub open spec fn members(self) -> Seq<Member> {
        match self {
            Json::Object(m) => m@,
            _ => Seq::empty(),
        }
    }

    /// Where an object holds the member of this name.
    pub open spec fn slot_at(self, key: Seq<char>) -> Option<int> {
        index_where(self.members(), named(key))
    }

    /// The value of the member of this name.
    pub open spec fn slot(self, key: Seq<char>) -> Option<Json> {
        match self.slot_at(key) {
            Some(i) => Some(self.members()[i].value),
            None => None,
        }
    }

    /// The text of a string.
    pub open spec fn text(self) -> Option<Seq<char>> {
        match self {
            Json::String(s) => Some(s@),
            _ => None,
        }
    }

    /// The value of the member of this name.
    pub fn get(&self, key: &str) -> (r: Option<&Json>)
        ensures
            match r {
                Some(v) => self.slot(key@) == Some(*v),
                None => self.slot(key@) is None,
            },
    {
        match self {
            Json::Object(m) => {
                let same = |x: &Member| -> (b: bool)
                    ensures
                        b == (x.key@ == key@),
                { str_eq(x.key.as_str(), key) };
                match position(m, same, Ghost(named(key@))) {
                    Some(i) => Some(&m[i].value),
                    None => None,
                }
            },
            _ => None,
        }
    }

    /// The text of a string.
    pub fn as_str(&self) -> (r: Option<&str>)
        ensures
            match r {
                Some(s) => self.text() == Some(s@),
                None => self.text() is None,
            },
    {
        match self {
            Json::String(s) => Some(s.as_str()),
            _ => None,
        }
    }

    pub fn is_null(&self) -> (r: bool)
        ensures
            r == (*self is Null),
    {
        match self {
            Json::Null => true,
            _ => false,
        }
    }
}

/// `after` is `before` with the value of one member replaced, where `before` has
/// such a member.
pub open spec fn slot_replaced(before: Json, after: Json, key: Seq<char>, value: Json) -> bool {
    before.slot_at(key) matches Some(i) && after is Object && after.members()
        == before.members().update(i, Member { key: before.members()[i].key, value })
}

/// Both are the same value, or objects of the same members in the same order.
pub open spec fn same_value(a: Json, b: Json) -> bool {
    a == b || (a is Object && b is Object && a.members() == b.members())
}

/// Replaces the value of the member of this name.
pub fn set_slot(target: &mut Json, key: &str, value: Json)
    requires
        old(target).slot(key@) is Some,
    ensures
        slot_replaced(*old(target), *final(target), key@, value),
{
    match target {
        Json::Object(m) => {
            let same = |x: &Member| -> (b: bool)
                ensures
                    b == (x.key@ == key@),
            { str_eq(x.key.as_str(), key) };
            match position(m, same, Ghost(named(key@))) {
                Some(i) => {
                    let name = m[i].key.clone();
                    m[i] = Member { key: name, value };
                },
                None => {},
            }
        },
        _ => {},
    }
}

/// Replacing one member's value leaves every other member as it was.
pub proof fn law_replacing_a_slot_is_local(
    before: Json,
    after: Json,
    key: Seq<char>,
    value: Json,
    other: Seq<char>,
)
    requires
        slot_replaced(before, after, key, value),
        other != key,
    ensures
        after.slot(key) == Some(value),
        after.slot_at(key) == before.slot_at(key),
        after.slot(other) == before.slot(other),
        after.slot_at(other) == before.slot_at(other),
{
    let b = before.members();
    let a = after.members();
    let i = before.slot_at(key)->Some_0;
    lemma_index_where(b, named(key));
    lemma_index_where(a, named(key));
    lemma_index_where(b, named(other));
    lemma_index_where(a, named(other));
    assert forall|j: int| 0 <= j < a.len() implies (#[trigger] a[j]).key == b[j].key by {}
    assert(named(key)(a[i]));
    assert(after.slot_at(key) == Some(i)) by {
        match after.slot_at(key) {
            Some(k) => {
                assert(named(key)(a[k]));
                if k < i {
                    assert(!named(key)(b[k]));
                } else if i < k {
                    assert(!named(key)(a[i]));
                }
            },
            None => {
                assert(!named(key)(a[i]));
            },
        }
    }
    assert(after.slot_at(other) == before.slot_at(other)) by {
        match (after.slot_at(other), before.slot_at(other)) {
            (Some(k), Some(l)) => {
                assert(named(other)(a[k]));
                assert(named(other)(b[l]));
                if k < l {
                    assert(!named(other)(b[k]));
                } else if l < k {
                    assert(!named(other)(a[l]));
                }
            },
            (Some(k), None) => {
                assert(named(other)(a[k]));
                assert(!named(other)(b[k]));
            },
            (None, Some(l)) => {
                assert(named(other)(b[l]));
                assert(!named(other)(a[l]));
            },
            (None, None) => {},
        }
    }
    if let Some(k) = before.slot_at(other) {
        assert(named(other)(b[k]));
        assert(k != i);
    }
}

/// The value is the envelope object around this sealed text.
pub open spec fn wraps(v: Json, env: Seq<char>) -> bool {
    v.members().len() == 1 && v.members()[0].key@ == "$enc"@ && v.members()[0].value.text()
        == Some(env)
}

/// Frames sealed text as `{"$enc": …}`.
pub fn wrap_envelope(env: String) -> (r: Json)
    ensures
        r is Object,
        wraps(r, env@),
        r.members().len() == 1,
        r.members()[0].key@ == "$enc"@,
        r.members()[0].value == Json::String(env),
{
    let mut m: Vec<Member> = Vec::new();
    m.push(Member { key: owned("$enc"), value: Json::String(env) });
    Json::Object(m)
}

/// The sealed text inside an envelope object.
pub open spec fn envelope_text(v: Json) -> Option<Seq<char>> {
    match v.slot("$enc"@) {
        Some(e) => e.text(),
        None => None,
    }
}

/// The sealed text inside an envelope object.
pub fn envelope_str(v: &Json) -> (r: Option<&str>)
    ensures
        match r {
            Some(s) => envelope_text(*v) == Some(s@),
            None => envelope_text(*v) is None,
        },
{
    match v.get("$enc") {
        Some(e) => e.as_str(),
        None => None,
    }
}

/// What was wrapped is what the envelope gives back.
pub proof fn law_envelope_round_trip(v: Json, env: Seq<char>)
    requires
        wraps(v, env),
    ensures
        envelope_text(v) == Some(env),
{
    let m = v.members();
    lemma_index_where(m, named("$enc"@));
    assert(named("$enc"@)(m[0]));
    if v.slot_at("$enc"@) is None {
        assert(!named("$enc"@)(m[0]));
    }
}

/// A member is found by its name: the first that has it, in an object and nothing else.
pub proof fn law_a_slot_is_the_first_of_its_name(v: Json, m: Vec<Member>, key: Seq<char>, i: int)
    requires
        v == Json::Object(m),
        0 <= i <= m@.len(),
        forall|j: int| 0 <= j < i ==> (#[trigger] m@[j]).key@ != key,
        i < m@.len() ==> m@[i].key@ == key,
    ensures
        i == m@.len() ==> v.slot(key) is None && v.slot_at(key) is None,
        i < m@.len() ==> v.slot(key) == Some(m@[i].value) && v.slot_at(key) == Some(i),
        key == "$enc"@ && i < m@.len() ==> (m@[i].value matches Json::String(s) ==> envelope_text(v)
            == Some(s@)),
        key == "$enc"@ && (i == m@.len() || !(m@[i].value is String)) ==> envelope_text(v) is None,
{
    if i < m@.len() {
        crate::collections::lemma_index_where_is(m@, named(key), i);
    } else {
        crate::collections::lemma_index_where_none(m@, named(key));
    }
}

/// What is no object has no members, and what is no string has no text.
pub proof fn law_only_objects_have_slots(v: Json, key: Seq<char>)
    ensures
        !(v is Object) ==> v.slot(key) is None && envelope_text(v) is None,
        v.text() is Some <==> v is String,
        v matches Json::String(s) ==> v.text() == Some(s@),
{
    if !(v is Object) {
        crate::collections::lemma_index_where_none(v.members(), named(key));
        crate::collections::lemma_index_where_none(v.members(), named("$enc"@));
    }
}

} // verus!
