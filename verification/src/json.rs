//! A plain model of a JSON value, for the logic that reads responses whose
//! shape is open: objects keep their members in order, numbers keep their
//! text.
use vstd::prelude::*;
use crate::text::{seq_lt, str_eq, str_lt, string_views};

verus! {

pub enum JsonValue {
    Null,
    Bool(bool),
    /// A number, as its JSON text.
    Number(String),
    String(String),
    Array(Vec<JsonValue>),
    Object(Vec<(String, JsonValue)>),
}

impl JsonValue {
    pub open spec fn is_null_spec(self) -> bool {
        self is Null
    }

    pub fn is_null(&self) -> (res: bool)
        ensures
            res == self is Null,
    {
        match self {
            JsonValue::Null => true,
            _ => false,
        }
    }
}

/// The member names of an object.
pub open spec fn member_names(members: Seq<(String, JsonValue)>) -> Seq<Seq<char>> {
    members.map_values(|m: (String, JsonValue)| m.0@)
}

/// The index of the first member named `key`.
pub open spec fn member_index_from(members: Seq<(String, JsonValue)>, key: Seq<char>, i: int) -> Option<int>
    decreases members.len() - i,
{
    if i < 0 || i >= members.len() {
        None
    } else if members[i].0@ == key {
        Some(i)
    } else {
        member_index_from(members, key, i + 1)
    }
}

/// The member `key` of an object; nothing for other values.
pub open spec fn member(v: JsonValue, key: Seq<char>) -> Option<JsonValue> {
    match v {
        JsonValue::Object(members) => match member_index_from(members@, key, 0) {
            Some(i) => Some(members@[i].1),
            None => None,
        },
        _ => None,
    }
}

pub(crate) proof fn lemma_member_index_bound(members: Seq<(String, JsonValue)>, key: Seq<char>, i: int)
    ensures
        member_index_from(members, key, i) matches Some(k) ==> i <= k < members.len() && members[k].0@ == key,
    decreases members.len() - i,
{
    if 0 <= i < members.len() && members[i].0@ != key {
        lemma_member_index_bound(members, key, i + 1);
    }
}

pub(crate) fn member_position(members: &Vec<(String, JsonValue)>, key: &str) -> (res: Option<usize>)
    ensures
        res is Some <==> member_index_from(members@, key@, 0) is Some,
        res matches Some(i) ==> member_index_from(members@, key@, 0) == Some(i as int),
{
    let mut i: usize = 0;
    while i < members.len()
        invariant
            i <= members@.len(),
            member_index_from(members@, key@, 0) == member_index_from(members@, key@, i as int),
        decreases members@.len() - i,
    {
        if str_eq(members[i].0.as_str(), key) {
            return Some(i);
        }
        i += 1;
    }
    None
}

/// The member `key` of an object.
pub fn json_member<'a>(value: &'a JsonValue, key: &str) -> (res: Option<&'a JsonValue>)
    ensures
        match member(*value, key@) {
            Some(m) => res == Some(&m),
            None => res is None,
        },
{
    match value {
        JsonValue::Object(members) => {
            proof {
                lemma_member_index_bound(members@, key@, 0);
            }
            match member_position(members, key) {
                Some(i) => Some(&members[i].1),
                None => None,
            }
        },
        _ => None,
    }
}

/// Whether the object has a member `key` that is not null.
pub open spec fn has_non_null_member(v: JsonValue, key: Seq<char>) -> bool {
    match member(v, key) {
        Some(m) => !(m is Null),
        None => false,
    }
}

pub fn json_has_non_null_key(value: &JsonValue, key: &str) -> (res: bool)
    ensures
        res == has_non_null_member(*value, key@),
{
    match value {
        JsonValue::Object(members) => {
            proof {
                lemma_member_index_bound(members@, key@, 0);
            }
            match member_position(members, key) {
                Some(i) => !members[i].1.is_null(),
                None => false,
            }
        },
        _ => false,
    }
}

/// The length of the array member `key`, or zero.
pub open spec fn member_array_len(v: JsonValue, key: Seq<char>) -> nat {
    match member(v, key) {
        Some(JsonValue::Array(items)) => items@.len(),
        _ => 0,
    }
}

pub fn json_array_len(value: &JsonValue, key: &str) -> (res: usize)
    ensures
        res == member_array_len(*value, key@),
{
    match value {
        JsonValue::Object(members) => {
            proof {
                lemma_member_index_bound(members@, key@, 0);
            }
            match member_position(members, key) {
                Some(i) => match &members[i].1 {
                    JsonValue::Array(items) => items.len(),
                    _ => 0,
                },
                None => 0,
            }
        },
        _ => 0,
    }
}

/// The string member `key`, where it is one.
pub open spec fn member_str(v: JsonValue, key: Seq<char>) -> Option<Seq<char>> {
    match member(v, key) {
        Some(JsonValue::String(s)) => Some(s@),
        _ => None,
    }
}

pub fn json_str_member(value: &JsonValue, key: &str) -> (res: Option<String>)
    ensures
        match member_str(*value, key@) {
            Some(s) => res matches Some(r) && r@ == s,
            None => res is None,
        },
{
    match value {
        JsonValue::Object(members) => {
            proof {
                lemma_member_index_bound(members@, key@, 0);
            }
            match member_position(members, key) {
                Some(i) => match &members[i].1 {
                    JsonValue::String(s) => Some(s.clone()),
                    _ => None,
                },
                None => None,
            }
        },
        _ => None,
    }
}

/// The boolean member `key`, where it is one.
pub open spec fn member_bool(v: JsonValue, key: Seq<char>) -> Option<bool> {
    match member(v, key) {
        Some(JsonValue::Bool(b)) => Some(b),
        _ => None,
    }
}

pub fn json_bool_member(value: &JsonValue, key: &str) -> (res: Option<bool>)
    ensures
        res == member_bool(*value, key@),
{
    match value {
        JsonValue::Object(members) => {
            proof {
                lemma_member_index_bound(members@, key@, 0);
            }
            match member_position(members, key) {
                Some(i) => match &members[i].1 {
                    JsonValue::Bool(b) => Some(*b),
                    _ => None,
                },
                None => None,
            }
        },
        _ => None,
    }
}

/// No name comes after a later one.
pub open spec fn names_sorted(names: Seq<Seq<char>>) -> bool {
    forall|a: int, b: int| 0 <= a < b < names.len() ==> !seq_lt(#[trigger] names[b], #[trigger] names[a])
}

/// The member names of an object, or none for other values.
pub open spec fn object_names(v: JsonValue) -> Seq<Seq<char>> {
    match v {
        JsonValue::Object(members) => member_names(members@),
        _ => seq![],
    }
}

/// Sorts names, as `sort` on a vector of strings orders them.
pub fn sort_strings(names: Vec<String>) -> (res: Vec<String>)
    ensures
        names_sorted(string_views(res@)),
        string_views(res@).to_multiset() == string_views(names@).to_multiset(),
{
    let mut out: Vec<String> = Vec::new();
    let mut input = names;
    let ghost original = string_views(input@);
    broadcast use vstd::seq_lib::group_to_multiset_ensures;

    while input.len() > 0
        invariant
            names_sorted(string_views(out@)),
            string_views(out@).to_multiset().add(string_views(input@).to_multiset()) == original.to_multiset(),
        decreases input@.len(),
    {
        let ghost before_input = input@;
        let x = input.pop().unwrap();
        proof {
            assert(before_input =~= input@.push(x));
            assert(string_views(before_input) =~= string_views(input@).push(x@));
        }
        let mut p: usize = 0;
        while p < out.len() && !str_lt(x.as_str(), out[p].as_str())
            invariant
                p <= out@.len(),
                forall|j: int| 0 <= j < p ==> !seq_lt(x@, #[trigger] out@[j]@),
            decreases out@.len() - p,
        {
            p += 1;
        }
        let ghost before_out = out@;
        out.insert(p, x);
        proof {
            assert(out@ =~= before_out.insert(p as int, x));
            assert(string_views(out@) =~= string_views(before_out).insert(p as int, x@));
            vstd::seq_lib::to_multiset_insert(string_views(before_out), p as int, x@);
            vstd::seq_lib::to_multiset_build(string_views(input@), x@);
            broadcast use vstd::multiset::group_multiset_axioms;

            assert(string_views(out@).to_multiset().add(string_views(input@).to_multiset()) =~= string_views(
                before_out,
            ).to_multiset().add(string_views(before_input).to_multiset()));
            let sv = string_views(out@);
            let bv = string_views(before_out);
            assert forall|a: int, b: int| 0 <= a < b < sv.len() implies !seq_lt(#[trigger] sv[b], #[trigger] sv[a]) by {
                if b < p {
                    assert(sv[a] == bv[a] && sv[b] == bv[b]);
                } else if b == p {
                    assert(sv[a] == bv[a]);
                    crate::text::lemma_seq_lt_total(x@, bv[a]);
                } else if a == p {
                    assert(sv[b] == bv[b - 1]);
                    if seq_lt(bv[b - 1], x@) {
                        crate::text::lemma_seq_lt_transitive(bv[b - 1], x@, bv[p as int]);
                        if b - 1 == p {
                            crate::text::lemma_seq_lt_irreflexive(bv[p as int]);
                        }
                    }
                } else if a < p {
                    assert(sv[a] == bv[a] && sv[b] == bv[b - 1]);
                } else {
                    assert(sv[a] == bv[a - 1] && sv[b] == bv[b - 1]);
                }
            }
        }
    }
    proof {
        assert(string_views(input@) =~= Seq::<Seq<char>>::empty());
        assert(string_views(input@).to_multiset() =~= vstd::multiset::Multiset::empty());
        assert(string_views(out@).to_multiset().add(vstd::multiset::Multiset::empty()) =~= string_views(
            out@,
        ).to_multiset());
    }
    out
}

/// The member names of an object, sorted; none for other values.
pub fn sorted_member_names(value: &JsonValue) -> (res: Vec<String>)
    ensures
        names_sorted(string_views(res@)),
        string_views(res@).to_multiset() == object_names(*value).to_multiset(),
{
    let mut names: Vec<String> = Vec::new();
    match value {
        JsonValue::Object(members) => {
            let mut i: usize = 0;
            while i < members.len()
                invariant
                    i <= members@.len(),
                    string_views(names@) == member_names(members@).take(i as int),
                decreases members@.len() - i,
            {
                let ghost before = names@;
                let name = members[i].0.clone();
                names.push(name);
                assert(string_views(names@) =~= string_views(before).push(members@[i as int].0@));
                assert(member_names(members@).take(i + 1) =~= member_names(members@).take(i as int).push(
                    members@[i as int].0@,
                ));
                i += 1;
            }
            assert(member_names(members@).take(i as int) =~= member_names(members@));
        },
        _ => {
            assert(string_views(names@) =~= Seq::<Seq<char>>::empty());
        },
    }
    sort_strings(names)
}

} // verus!
