//! A JSON document as the request logic reads it. Numbers are held by the
//! value they have as an `i64`, when they have one.
use vstd::prelude::*;
use crate::text::{chars_of, seq_eq};

verus! {

/// A JSON value. `Number` holds `Some(n)` when the number is an integer
/// that fits in an `i64`, `None` for any other number. Object members keep
/// their order; a key looked up finds its first member.
pub enum Json {
    Null,
    Bool(bool),
    Number(Option<i64>),
    Str(String),
    Array(Vec<Json>),
    Object(Vec<(String, Json)>),
}

/// The first member of an object with the given key.
pub open spec fn member(fields: Seq<(String, Json)>, key: Seq<char>) -> Option<Json>
    decreases fields.len(),
{
    if fields.len() == 0 {
        None
    } else if fields[0].0@ == key {
        Some(fields[0].1)
    } else {
        member(fields.drop_first(), key)
    }
}

/// `value.get(key)`: the member of an object, `None` for other values.
pub open spec fn get_spec(v: Json, key: Seq<char>) -> Option<Json> {
    match v {
        Json::Object(fields) => member(fields@, key),
        _ => None,
    }
}

/// `value.as_str()`.
pub open spec fn as_str_spec(v: Json) -> Option<Seq<char>> {
    match v {
        Json::Str(s) => Some(s@),
        _ => None,
    }
}

/// `value.as_str()` of an optional value.
pub open spec fn opt_as_str(v: Option<Json>) -> Option<Seq<char>> {
    match v {
        Some(j) => as_str_spec(j),
        None => None,
    }
}

/// `value.as_object().is_some()`.
pub open spec fn is_object(v: Json) -> bool {
    v is Object
}

impl Json {
    /// `value.get(key)`.
    pub fn get(&self, key: &str) -> (r: Option<&Json>)
        ensures
            match r {
                Some(j) => get_spec(*self, key@) == Some(*j),
                None => get_spec(*self, key@) is None,
            },
    {
        match self {
            Json::Object(fields) => {
                let k = chars_of(key);
                let mut i: usize = 0;
                assert(fields@.skip(0) == fields@);
                while i < fields.len()
                    invariant
                        i <= fields@.len(),
                        k@ == key@,
                        get_spec(*self, key@) == member(fields@, key@),
                        member(fields@, key@) == member(fields@.skip(i as int), key@),
                    decreases fields.len() - i,
                {
                    let name = chars_of(fields[i].0.as_str());
                    assert(fields@.skip(i as int).drop_first() == fields@.skip(i as int + 1));
                    assert(fields@.skip(i as int)[0] == fields@[i as int]);
                    if seq_eq(&name, &k) {
                        return Some(&fields[i].1);
                    }
                    i = i + 1;
                }
                assert(fields@.skip(i as int).len() == 0);
                None
            },
            _ => None,
        }
    }

    /// `value.as_str()`.
    pub fn as_str(&self) -> (r: Option<&str>)
        ensures
            match r {
                Some(s) => as_str_spec(*self) == Some(s@),
                None => as_str_spec(*self) is None,
            },
    {
        match self {
            Json::Str(s) => Some(s.as_str()),
            _ => None,
        }
    }

    /// `value.is_object()`.
    pub fn is_object(&self) -> (r: bool)
        ensures
            r == is_object(*self),
    {
        match self {
            Json::Object(_) => true,
            _ => false,
        }
    }
}

/// The keys of an object's members, in order; none for other values.
pub open spec fn object_keys(v: Json) -> Seq<Seq<char>> {
    match v {
        Json::Object(fields) => fields@.map_values(|p: (String, Json)| p.0@),
        _ => Seq::empty(),
    }
}

/// The value of an object's first member with the given key, moved out;
/// `None` for other values or when there is no such member.
pub fn take_member(v: Json, key: &str) -> (r: Option<Json>)
    ensures
        r == get_spec(v, key@),
{
    match v {
        Json::Object(fields) => {
            let ghost f0 = fields@;
            let k = chars_of(key);
            let mut fields = fields;
            let mut i: usize = 0;
            assert(fields@.skip(0) == fields@);
            while i < fields.len()
                invariant
                    i <= fields@.len(),
                    fields@ == f0,
                    k@ == key@,
                    member(f0, key@) == member(f0.skip(i as int), key@),
                    get_spec(v, key@) == member(f0, key@),
                decreases fields.len() - i,
            {
                assert(f0.skip(i as int).drop_first() == f0.skip(i as int + 1));
                assert(f0.skip(i as int)[0] == f0[i as int]);
                if seq_eq(&chars_of(fields[i].0.as_str()), &k) {
                    assert(member(f0.skip(i as int), key@) == Some(f0[i as int].1));
                    let removed = fields.remove(i);
                    assert(removed == f0[i as int]);
                    return Some(removed.1);
                }
                i = i + 1;
            }
            assert(f0.skip(i as int).len() == 0);
            None
        },
        _ => None,
    }
}

/// Looking a key up after a member is appended: an earlier member with the
/// key still wins.
pub proof fn lemma_member_push(f: Seq<(String, Json)>, e: (String, Json), k: Seq<char>)
    ensures
        member(f.push(e), k) == (if member(f, k) is Some {
            member(f, k)
        } else if e.0@ == k {
            Some(e.1)
        } else {
            None
        }),
    decreases f.len(),
{
    if f.len() > 0 {
        assert(f.push(e)[0] == f[0]);
        assert(f.push(e).drop_first() == f.drop_first().push(e));
        lemma_member_push(f.drop_first(), e, k);
    } else {
        assert(f.push(e)[0] == e);
        assert(f.push(e).drop_first().len() == 0);
        assert(member(f.push(e).drop_first(), k) is None);
        assert(member(f, k) is None);
    }
}

/// Appends a member to an object under construction.
pub fn obj_push(fields: &mut Vec<(String, Json)>, key: &str, value: Json)
    ensures
        forall|k: Seq<char>|
            #[trigger] member(final(fields)@, k) == (if member(old(fields)@, k) is Some {
                member(old(fields)@, k)
            } else if k == key@ {
                Some(value)
            } else {
                None
            }),
        final(fields)@.map_values(|p: (String, Json)| p.0@) == old(fields)@.map_values(
            |p: (String, Json)| p.0@,
        ).push(key@),
{
    let ghost before = fields@;
    fields.push((String::from_str(key), value));
    proof {
        assert forall|k: Seq<char>|
            #[trigger] member(fields@, k) == (if member(before, k) is Some {
                member(before, k)
            } else if k == key@ {
                Some(value)
            } else {
                None
            }) by {
            lemma_member_push(before, fields@.last(), k);
            assert(fields@ == before.push(fields@.last()));
        }
        assert(fields@.map_values(|p: (String, Json)| p.0@) =~= before.map_values(
            |p: (String, Json)| p.0@,
        ).push(key@));
    }
}

/// A text value, or null.
pub fn str_or_null(s: Option<&str>) -> (r: Json)
    ensures
        match s {
            Some(t) => r matches Json::Str(x) && x@ == t@,
            None => r == Json::Null,
        },
{
    match s {
        Some(t) => Json::Str(String::from_str(t)),
        None => Json::Null,
    }
}

/// `v` is the text `t`, or null when there is no text.
pub open spec fn text_or_null(v: Option<Json>, t: Option<Seq<char>>) -> bool {
    match t {
        Some(x) => opt_as_str(v) == Some(x),
        None => v == Some(Json::Null),
    }
}

} // verus!
