//! The library's own JSON tree, with the trusted bridge to the outside
//! reader and writer.
//!
//! Values are modelled exactly: null, booleans, 64-bit signed integers,
//! strings, arrays, and objects as ordered key/value entry lists (the
//! outside reader and writer are configured to keep key order). Documents
//! whose numbers fall outside `i64` are treated as unparseable; nothing in
//! the deck formats needs them.
use vstd::prelude::*;

use crate::text::{chars_vec, eq_chars};

verus! {

broadcast use vstd::std_specs::vec::group_vec_axioms;

/// A parsed JSON document.
#[derive(Debug)]
pub enum JsonValue {
    Null,
    Bool(bool),
    Int(i64),
    Str(String),
    Arr(Vec<JsonValue>),
    Obj(Vec<(String, JsonValue)>),
}

/// Mathematical model of a [`JsonValue`].
pub ghost enum JVal {
    Null,
    Bool(bool),
    Int(i64),
    Str(Seq<char>),
    Arr(Seq<JVal>),
    Obj(Seq<(Seq<char>, JVal)>),
}

pub open spec fn jview(v: JsonValue) -> JVal
    decreases v,
{
    match v {
        JsonValue::Null => JVal::Null,
        JsonValue::Bool(b) => JVal::Bool(b),
        JsonValue::Int(n) => JVal::Int(n),
        JsonValue::Str(s) => JVal::Str(s@),
        JsonValue::Arr(items) => JVal::Arr(jview_seq(items@)),
        JsonValue::Obj(entries) => JVal::Obj(jview_entries(entries@)),
    }
}

/// The views of a run of values, in order.
pub open spec fn jview_seq(s: Seq<JsonValue>) -> Seq<JVal>
    decreases s,
{
    if s.len() == 0 {
        Seq::empty()
    } else {
        jview_seq(s.drop_last()).push(jview(s.last()))
    }
}

/// The views of a run of key/value entries, in order.
pub open spec fn jview_entries(s: Seq<(String, JsonValue)>) -> Seq<(Seq<char>, JVal)>
    decreases s,
{
    if s.len() == 0 {
        Seq::empty()
    } else {
        jview_entries(s.drop_last()).push((s.last().0@, jview(s.last().1)))
    }
}

/// Pointwise reading of [`jview_seq`].
pub proof fn lemma_jview_seq(s: Seq<JsonValue>)
    ensures
        jview_seq(s).len() == s.len(),
        forall|i: int| 0 <= i < s.len() ==> jview_seq(s)[i] == jview(#[trigger] s[i]),
    decreases s.len(),
{
    if s.len() > 0 {
        lemma_jview_seq(s.drop_last());
        assert forall|i: int| 0 <= i < s.len() implies jview_seq(s)[i] == jview(s[i]) by {
            if i < s.len() - 1 {
                assert(s.drop_last()[i] == s[i]);
                assert(jview_seq(s)[i] == jview_seq(s.drop_last())[i]);
            } else {
                assert(jview_seq(s)[i] == jview(s.last()));
            }
        }
    }
}

/// Pointwise reading of [`jview_entries`].
pub proof fn lemma_jview_entries(s: Seq<(String, JsonValue)>)
    ensures
        jview_entries(s).len() == s.len(),
        forall|i: int| 0 <= i < s.len() ==> jview_entries(s)[i] == ((#[trigger] s[i]).0@, jview(
            s[i].1,
        )),
    decreases s.len(),
{
    if s.len() > 0 {
        lemma_jview_entries(s.drop_last());
        assert forall|i: int| 0 <= i < s.len() implies jview_entries(s)[i] == (s[i].0@, jview(
            s[i].1,
        )) by {
            if i < s.len() - 1 {
                assert(s.drop_last()[i] == s[i]);
                assert(jview_entries(s)[i] == jview_entries(s.drop_last())[i]);
            } else {
                assert(jview_entries(s)[i] == (s.last().0@, jview(s.last().1)));
            }
        }
    }
}

pub open spec fn jval_wf(v: JVal) -> bool
    decreases v,
{
    match v {
        JVal::Arr(items) => forall|i: int| 0 <= i < items.len() ==> jval_wf(#[trigger] items[i]),
        JVal::Obj(entries) => {
            &&& forall|i: int, j: int|
                0 <= i < j < entries.len() ==> (#[trigger] entries[i]).0 != (#[trigger] entries[j]).0
            &&& forall|i: int| 0 <= i < entries.len() ==> jval_wf((#[trigger] entries[i]).1)
        },
        _ => true,
    }
}

/// What parsing a text yields: the library's view of the document that the
/// outside reader (composed with the conversion onto [`JsonValue`]) returns
/// for it, or `None` where it fails. A function of the text alone.
pub uninterp spec fn json_doc_of(s: Seq<char>) -> Option<JVal>;

#[verifier::external_type_specification]
#[verifier::external_body]
pub struct ExValue(serde_json::Value);

/// Conversion half of the parser: maps the outside reader's tree onto the
/// library's own, variant by variant; a number outside `i64` fails the
/// whole conversion.
#[verifier::external_body]
fn value_to_json(v: &serde_json::Value) -> Option<JsonValue> {
    match v {
        serde_json::Value::Null => Some(JsonValue::Null),
        serde_json::Value::Bool(b) => Some(JsonValue::Bool(*b)),
        serde_json::Value::Number(n) => n.as_i64().map(JsonValue::Int),
        serde_json::Value::String(s) => Some(JsonValue::Str(s.clone())),
        serde_json::Value::Array(a) => a.iter().map(value_to_json).collect::<Option<Vec<
            JsonValue,
        >>>().map(JsonValue::Arr),
        serde_json::Value::Object(m) => m.iter().map(
            |(k, x)| value_to_json(x).map(|j| (k.clone(), j)),
        ).collect::<Option<Vec<(String, JsonValue)>>>().map(JsonValue::Obj),
    }
}

/// Relies on `serde_json::from_str::<Value>`, composed with the conversion
/// above: what a text parses to depends on the text alone.
#[verifier::external_body]
pub fn parse_json(s: &str) -> (r: Option<JsonValue>)
    ensures
        match r {
            Some(v) => json_doc_of(s@) == Some(jview(v)),
            None => json_doc_of(s@) is None,
        },
{
    match serde_json::from_str::<serde_json::Value>(s) {
        Ok(v) => value_to_json(&v),
        Err(_) => None,
    }
}

/// Building half of the writer: maps the library's tree onto the outside
/// writer's, variant by variant.
#[verifier::external_body]
fn json_to_value(v: &JsonValue) -> serde_json::Value {
    match v {
        JsonValue::Null => serde_json::Value::Null,
        JsonValue::Bool(b) => serde_json::Value::Bool(*b),
        JsonValue::Int(n) => serde_json::Value::Number(serde_json::Number::from(*n)),
        JsonValue::Str(s) => serde_json::Value::String(s.clone()),
        JsonValue::Arr(a) => serde_json::Value::Array(a.iter().map(json_to_value).collect()),
        JsonValue::Obj(e) => serde_json::Value::Object(
            e.iter().map(|(k, x)| (k.clone(), json_to_value(x))).collect(),
        ),
    }
}

/// Every object in the tree keeps its keys distinct — the shape under which
/// a rendered document reads back unchanged.
pub open spec fn jval_keys_distinct(v: JVal) -> bool
    decreases v,
{
    match v {
        JVal::Arr(items) => forall|i: int|
            0 <= i < items.len() ==> jval_keys_distinct(#[trigger] items[i]),
        JVal::Obj(entries) => {
            &&& forall|i: int, j: int|
                0 <= i < j < entries.len() ==> (#[trigger] entries[i]).0 != (#[trigger] entries[j]).0
            &&& forall|i: int|
                0 <= i < entries.len() ==> jval_keys_distinct((#[trigger] entries[i]).1)
        },
        _ => true,
    }
}

/// Container-nesting depth of a value: scalars are 0, an array or object
/// is one more than its deepest element.
pub open spec fn jval_depth(v: JVal) -> nat
    decreases v,
{
    match v {
        JVal::Arr(items) => 1 + jval_seq_depth(items),
        JVal::Obj(entries) => 1 + jval_entries_depth(entries),
        _ => 0,
    }
}

/// The deepest value of a run.
pub open spec fn jval_seq_depth(s: Seq<JVal>) -> nat
    decreases s,
{
    if s.len() == 0 {
        0
    } else {
        let rest = jval_seq_depth(s.drop_last());
        let last = jval_depth(s.last());
        if rest >= last {
            rest
        } else {
            last
        }
    }
}

/// The deepest entry value of a run.
pub open spec fn jval_entries_depth(s: Seq<(Seq<char>, JVal)>) -> nat
    decreases s,
{
    if s.len() == 0 {
        0
    } else {
        let rest = jval_entries_depth(s.drop_last());
        let last = jval_depth(s.last().1);
        if rest >= last {
            rest
        } else {
            last
        }
    }
}

/// A run is no deeper than a bound on its values.
pub proof fn lemma_seq_depth_bound(s: Seq<JVal>, d: nat)
    requires
        forall|i: int| 0 <= i < s.len() ==> jval_depth(#[trigger] s[i]) <= d,
    ensures
        jval_seq_depth(s) <= d,
    decreases s.len(),
{
    if s.len() > 0 {
        assert(forall|i: int|
            0 <= i < s.drop_last().len() ==> jval_depth(#[trigger] s.drop_last()[i]) <= d) by {
            assert(forall|i: int|
                0 <= i < s.drop_last().len() ==> #[trigger] s.drop_last()[i] == s[i]);
        }
        lemma_seq_depth_bound(s.drop_last(), d);
        assert(jval_depth(s.last()) <= d);
    }
}

/// A run of entries is no deeper than a bound on its values.
pub proof fn lemma_entries_depth_bound(s: Seq<(Seq<char>, JVal)>, d: nat)
    requires
        forall|i: int| 0 <= i < s.len() ==> jval_depth((#[trigger] s[i]).1) <= d,
    ensures
        jval_entries_depth(s) <= d,
    decreases s.len(),
{
    if s.len() > 0 {
        assert(forall|i: int|
            0 <= i < s.drop_last().len() ==> jval_depth((#[trigger] s.drop_last()[i]).1) <= d) by {
            assert(forall|i: int|
                0 <= i < s.drop_last().len() ==> #[trigger] s.drop_last()[i] == s[i]);
        }
        lemma_entries_depth_bound(s.drop_last(), d);
        assert(jval_depth(s.last().1) <= d);
    }
}

/// Relies on `serde_json::to_string_pretty` over a tree built by the
/// conversion above, and on `serde_json::from_str`: a rendered value parses
/// back to itself. Key order is kept on both sides, so this holds whenever
/// no object repeats a key — and only within the reader's recursion limit:
/// it refuses documents whose containers nest 128 deep, so values that
/// deep are left out here.
#[verifier::external_body]
pub fn render_json(v: &JsonValue) -> (r: String)
    requires
        jval_keys_distinct(jview(*v)),
        jval_depth(jview(*v)) < 128,
    ensures
        json_doc_of(r@) == Some(jview(*v)),
{
    serde_json::to_string_pretty(&json_to_value(v)).unwrap()
}

/// The value under the first entry named `key`, if any.
pub open spec fn spec_obj_get(entries: Seq<(Seq<char>, JVal)>, key: Seq<char>) -> Option<JVal>
    decreases entries.len(),
{
    if entries.len() == 0 {
        None
    } else if entries[0].0 == key {
        Some(entries[0].1)
    } else {
        spec_obj_get(entries.drop_first(), key)
    }
}

/// Look `key` up among an object's entries, first match wins; the
/// executable twin of [`spec_obj_get`].
pub fn obj_get<'a>(entries: &'a Vec<(String, JsonValue)>, key: &str) -> (r: Option<
    &'a JsonValue,
>)
    ensures
        match r {
            Some(x) => spec_obj_get(jview_entries(entries@), key@) == Some(jview(*x)),
            None => spec_obj_get(jview_entries(entries@), key@) is None,
        },
{
    proof {
        lemma_jview_entries(entries@);
    }
    let kv = chars_vec(key);
    let ghost ev = jview_entries(entries@);
    let mut i: usize = 0;
    assert(ev.skip(0) =~= ev);
    while i < entries.len()
        invariant
            0 <= i <= entries.len(),
            kv@ == key@,
            ev == jview_entries(entries@),
            ev.len() == entries@.len(),
            forall|j: int| 0 <= j < entries@.len() ==> ev[j] == ((#[trigger] entries@[j]).0@, jview(
                entries@[j].1,
            )),
            spec_obj_get(ev, key@) == spec_obj_get(ev.skip(i as int), key@),
        decreases entries.len() - i,
    {
        let name = chars_vec(entries[i].0.as_str());
        proof {
            assert(ev.skip(i as int)[0] == ev[i as int]);
            assert(ev.skip(i as int).drop_first() =~= ev.skip(i + 1));
        }
        if eq_chars(&name, &kv) {
            assert(spec_obj_get(ev.skip(i as int), key@) == Some(jview(entries@[i as int].1)));
            return Some(&entries[i].1);
        }
        i = i + 1;
    }
    assert(ev.skip(entries@.len() as int) =~= Seq::<(Seq<char>, JVal)>::empty());
    None
}

} // verus!
