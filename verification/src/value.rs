//! A dynamic value tree: the in-memory form of a parsed keymap file.
//!
//! `JsonValue` is the executable tree; `SpecValue` is its mathematical model,
//! with sequences for strings, arrays and objects. Object entries keep the
//! order in which they were produced.

use vstd::prelude::*;

verus! {

broadcast use vstd::std_specs::vec::group_vec_axioms, vstd::seq::group_seq_axioms;

/// The mathematical model of a dynamic value.
pub enum SpecValue {
    Null,
    Bool(bool),
    Int(int),
    /// A numeric literal outside the signed 64-bit range, kept as its text.
    Num(Seq<char>),
    Str(Seq<char>),
    Array(Seq<SpecValue>),
    Object(Seq<(Seq<char>, SpecValue)>),
}

/// A dynamic value, as a lenient parse of a keymap file yields it.
#[derive(Debug, PartialEq, Eq)]
pub enum JsonValue {
    Null,
    Bool(bool),
    Int(i64),
    /// A numeric literal outside the signed 64-bit range, kept as its text.
    Num(String),
    Str(String),
    Array(Vec<JsonValue>),
    Object(Vec<(String, JsonValue)>),
}

/// The model of a `JsonValue`: strings become character sequences, vectors
/// become sequences, and every child is modelled in turn.
pub open spec fn view_value(v: JsonValue) -> SpecValue
    decreases v,
{
    match v {
        JsonValue::Null => SpecValue::Null,
        JsonValue::Bool(b) => SpecValue::Bool(b),
        JsonValue::Int(i) => SpecValue::Int(i as int),
        JsonValue::Num(s) => SpecValue::Num(s@),
        JsonValue::Str(s) => SpecValue::Str(s@),
        JsonValue::Array(vs) => SpecValue::Array(
            Seq::new(
                vs@.len(),
                |i: int|
                    if 0 <= i < vs@.len() {
                        view_value(vs@[i])
                    } else {
                        SpecValue::Null
                    },
            ),
        ),
        JsonValue::Object(ps) => SpecValue::Object(
            Seq::new(
                ps@.len(),
                |i: int|
                    if 0 <= i < ps@.len() {
                        (ps@[i].0@, view_value(ps@[i].1))
                    } else {
                        (Seq::empty(), SpecValue::Null)
                    },
            ),
        ),
    }
}

impl View for JsonValue {
    type V = SpecValue;

    open spec fn view(&self) -> SpecValue {
        view_value(*self)
    }
}

impl DeepView for JsonValue {
    type V = SpecValue;

    open spec fn deep_view(&self) -> SpecValue {
        view_value(*self)
    }
}

/// The model of an optional owned value.
pub open spec fn opt_value_view(o: Option<JsonValue>) -> Option<SpecValue> {
    match o {
        Some(v) => Some(view_value(v)),
        None => None,
    }
}

/// The model of a sequence of owned object entries.
pub open spec fn pairs_view(ps: Seq<(String, JsonValue)>) -> Seq<(Seq<char>, SpecValue)> {
    Seq::new(
        ps.len(),
        |i: int|
            if 0 <= i < ps.len() {
                (ps[i].0@, view_value(ps[i].1))
            } else {
                (Seq::empty(), SpecValue::Null)
            },
    )
}

/// The model of a sequence of owned array elements.
pub open spec fn elems_view(vs: Seq<JsonValue>) -> Seq<SpecValue> {
    Seq::new(
        vs.len(),
        |i: int|
            if 0 <= i < vs.len() {
                view_value(vs[i])
            } else {
                SpecValue::Null
            },
    )
}

/// The model of a sequence of owned strings.
pub open spec fn strs_view(ss: Seq<String>) -> Seq<Seq<char>> {
    Seq::new(ss.len(), |i: int| ss[i]@)
}

/// An object's model is the model of its entries.
pub proof fn lemma_view_object(ps: Vec<(String, JsonValue)>)
    ensures
        view_value(JsonValue::Object(ps)) == SpecValue::Object(pairs_view(ps@)),
{
    assert(view_value(JsonValue::Object(ps))->Object_0 =~= pairs_view(ps@));
}

/// An array's model is the model of its elements.
pub proof fn lemma_view_array(vs: Vec<JsonValue>)
    ensures
        view_value(JsonValue::Array(vs)) == SpecValue::Array(elems_view(vs@)),
{
    assert(view_value(JsonValue::Array(vs))->Array_0 =~= elems_view(vs@));
}

/// The value under `key` in an object's entry sequence: the first entry
/// whose key matches, if any.
pub open spec fn obj_lookup(ps: Seq<(Seq<char>, SpecValue)>, key: Seq<char>) -> Option<SpecValue>
    decreases ps.len(),
{
    if ps.len() == 0 {
        None
    } else if ps[0].0 == key {
        Some(ps[0].1)
    } else {
        obj_lookup(ps.drop_first(), key)
    }
}

/// No two entries share a key.
pub open spec fn keys_distinct(ps: Seq<(Seq<char>, SpecValue)>) -> bool {
    forall|i: int, j: int| 0 <= i < j < ps.len() ==> ps[i].0 != ps[j].0
}

/// A lookup skips any prefix free of the key.
pub proof fn lemma_obj_lookup_skip(ps: Seq<(Seq<char>, SpecValue)>, key: Seq<char>, i: int)
    requires
        0 <= i <= ps.len(),
        forall|j: int| 0 <= j < i ==> ps[j].0 != key,
    ensures
        obj_lookup(ps, key) == obj_lookup(ps.skip(i), key),
    decreases i,
{
    if i > 0 {
        lemma_obj_lookup_skip(ps.drop_first(), key, i - 1);
        assert(ps.skip(i) =~= ps.drop_first().skip(i - 1));
    } else {
        assert(ps.skip(0) =~= ps);
    }
}

/// How a lookup sees one entry appended at the back: an earlier match
/// still wins; otherwise the new entry answers exactly for its own key.
pub proof fn lemma_obj_lookup_push(
    ps: Seq<(Seq<char>, SpecValue)>,
    p: (Seq<char>, SpecValue),
    key: Seq<char>,
)
    ensures
        obj_lookup(ps.push(p), key) == (match obj_lookup(ps, key) {
            Some(v) => Some(v),
            None => if p.0 == key {
                Some(p.1)
            } else {
                None
            },
        }),
    decreases ps.len(),
{
    if ps.len() == 0 {
        assert(ps.push(p)[0] == p);
        assert(ps.push(p).drop_first() =~= Seq::<(Seq<char>, SpecValue)>::empty());
    } else {
        assert(ps.push(p).drop_first() =~= ps.drop_first().push(p));
        lemma_obj_lookup_push(ps.drop_first(), p, key);
    }
}

/// Relies on `str`'s `==` (`<str as PartialEq>::eq`): true exactly when the
/// two slices hold the same characters.
#[verifier::external_body]
pub fn str_eq(a: &str, b: &str) -> (r: bool)
    ensures
        r == (a@ == b@),
{
    a == b
}

/// The first entry under `key` in an object's entries, borrowed.
pub fn obj_get<'a>(ps: &'a Vec<(String, JsonValue)>, key: &str) -> (r: Option<&'a JsonValue>)
    ensures
        match r {
            Some(v) => obj_lookup(pairs_view(ps@), key@) == Some(v@),
            None => obj_lookup(pairs_view(ps@), key@) is None,
        },
{
    let ghost m = pairs_view(ps@);
    let mut i: usize = 0;
    while i < ps.len()
        invariant
            0 <= i <= ps.len(),
            m == pairs_view(ps@),
            m.len() == ps@.len(),
            forall|j: int| 0 <= j < i ==> m[j].0 != key@,
        decreases ps.len() - i,
    {
        if str_eq(ps[i].0.as_str(), key) {
            proof {
                lemma_obj_lookup_skip(m, key@, i as int);
                assert(m.skip(i as int)[0] == m[i as int]);
            }
            return Some(&ps[i].1);
        }
        i = i + 1;
    }
    proof {
        lemma_obj_lookup_skip(m, key@, i as int);
        assert(m.skip(i as int) =~= Seq::<(Seq<char>, SpecValue)>::empty());
    }
    None
}

} // verus!
