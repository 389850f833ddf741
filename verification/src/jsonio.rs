use vstd::prelude::*;
use crate::json::{JVal, JsonValue};

verus! {

broadcast use vstd::seq::axiom_seq_index_decreases,
    vstd::std_specs::vec::axiom_vec_index_decreases;

#[verifier::external_type_specification]
#[verifier::external_body]
pub struct ExValue(serde_json::Value);

/// The JSON document a `serde_json::Value` holds, as this crate's
/// mathematical JSON mirror. The constructors below pin it on every value
/// they build; nothing else is assumed of it.
pub uninterp spec fn json_view_of(v: serde_json::Value) -> JVal;

/// What `serde_json::to_string_pretty` prints for a document: two-space
/// indented JSON text, a function of the document alone.
pub uninterp spec fn pretty_text_of(j: JVal) -> Seq<char>;

/// What `serde_json::to_string` prints for a document: compact JSON text,
/// a function of the document alone.
pub uninterp spec fn compact_text_of(j: JVal) -> Seq<char>;

/// Relies on `serde_json::Value::Null`: the null document.
#[verifier::external_body]
fn jv_null() -> (r: serde_json::Value)
    ensures
        json_view_of(r) == JVal::Null,
{
    serde_json::Value::Null
}

/// Relies on `serde_json::Value::from::<u64>`, which builds the integer
/// document holding exactly the given number.
#[verifier::external_body]
fn jv_nat(n: u64) -> (r: serde_json::Value)
    ensures
        json_view_of(r) == JVal::Nat(n as int),
{
    serde_json::Value::from(n)
}

/// Relies on `serde_json::Value::String`: the string document holding
/// exactly the given text.
#[verifier::external_body]
fn jv_str(s: String) -> (r: serde_json::Value)
    ensures
        json_view_of(r) == JVal::Str(s@),
{
    serde_json::Value::String(s)
}

/// Relies on `serde_json::Value::Array`: the array document holding exactly
/// the given elements, in order.
#[verifier::external_body]
fn jv_arr(items: Vec<serde_json::Value>) -> (r: serde_json::Value)
    ensures
        json_view_of(r) == JVal::Arr(
            items@.map_values(|x: serde_json::Value| json_view_of(x)),
        ),
{
    serde_json::Value::Array(items)
}

/// Relies on `serde_json::Value::Object` over `Map::from_iter`; with the
/// `preserve_order` feature the map is an index map, so pairwise-distinct
/// keys keep their insertion order and nothing collapses.
#[verifier::external_body]
fn jv_obj(pairs: Vec<(String, serde_json::Value)>) -> (r: serde_json::Value)
    requires
        forall|i: int, k: int|
            #![trigger pairs@[i].0@, pairs@[k].0@]
            0 <= i < k < pairs@.len() ==> pairs@[i].0@ != pairs@[k].0@,
    ensures
        json_view_of(r) == JVal::Obj(
            pairs@.map_values(|p: (String, serde_json::Value)| (p.0@, json_view_of(p.1))),
        ),
{
    serde_json::Value::Object(serde_json::Map::from_iter(pairs))
}

/// Relies on `serde_json::to_string_pretty`. On a `Value` serialization
/// cannot fail — every map key is a string and writing to a string cannot
/// raise an I/O error — so the fallback arm is never taken.
#[verifier::external_body]
pub fn render_pretty(v: &serde_json::Value) -> (r: String)
    ensures
        r@ == pretty_text_of(json_view_of(*v)),
{
    match serde_json::to_string_pretty(v) {
        Ok(s) => s,
        Err(_) => String::new(),
    }
}

/// Relies on `serde_json::to_string`; as with the pretty printer, on a
/// `Value` serialization cannot fail.
#[verifier::external_body]
pub fn render_compact(v: &serde_json::Value) -> (r: String)
    ensures
        r@ == compact_text_of(json_view_of(*v)),
{
    match serde_json::to_string(v) {
        Ok(s) => s,
        Err(_) => String::new(),
    }
}

/// The documents this crate can hand to serde_json: integers within `u64`,
/// no stand-in for foreign values, and object keys pairwise distinct.
pub open spec fn renderable(j: JVal) -> bool
    decreases j,
{
    match j {
        JVal::Null => true,
        JVal::Nat(n) => 0 <= n <= u64::MAX,
        JVal::Str(_) => true,
        JVal::Arr(items) => forall|i: int|
            0 <= i < items.len() ==> renderable(#[trigger] items[i]),
        JVal::Obj(pairs) => {
            &&& forall|i: int| 0 <= i < pairs.len() ==> renderable(#[trigger] pairs[i].1)
            &&& forall|i: int, k: int|
                #![trigger pairs[i].0, pairs[k].0]
                0 <= i < k < pairs.len() ==> pairs[i].0 != pairs[k].0
        },
        JVal::Other => false,
    }
}

/// Turn a JSON value of this crate into the same document for serde_json.
pub fn to_json_value(v: &JsonValue) -> (r: serde_json::Value)
    requires
        renderable(v@),
    ensures
        json_view_of(r) == v@,
    decreases *v,
{
    match v {
        JsonValue::Null => jv_null(),
        JsonValue::Nat(n) => {
            proof {
                assert(v@ == JVal::Nat(*n as int));
            }
            jv_nat(*n as u64)
        },
        JsonValue::Str(s) => jv_str(s.clone()),
        JsonValue::Arr(items) => {
            let ghost target = v@->Arr_0;
            let n = items.len();
            let mut out: Vec<serde_json::Value> = Vec::new();
            let mut j: usize = 0;
            #[verifier::loop_isolation(false)]
            while j < n
                invariant
                    j <= n,
                    out@.len() == j,
                    forall|i: int|
                        0 <= i < j ==> json_view_of(#[trigger] out@[i]) == items@[i]@,
                decreases n - j,
            {
                proof {
                    assert(target[j as int] == items@[j as int]@);
                    assert(renderable(items@[j as int]@));
                    assert(decreases_to!(*v => *items));
                    assert(decreases_to!(*items => items@[j as int]));
                }
                let item = to_json_value(&items[j]);
                out.push(item);
                j = j + 1;
            }
            let r = jv_arr(out);
            proof {
                assert(out@.map_values(|x: serde_json::Value| json_view_of(x)) =~= target);
            }
            r
        },
        JsonValue::Obj(pairs) => {
            let ghost target = v@->Obj_0;
            let n = pairs.len();
            let mut out: Vec<(String, serde_json::Value)> = Vec::new();
            let mut j: usize = 0;
            #[verifier::loop_isolation(false)]
            while j < n
                invariant
                    j <= n,
                    out@.len() == j,
                    forall|i: int|
                        0 <= i < j ==> (#[trigger] out@[i]).0@ == pairs@[i].0@
                            && json_view_of(out@[i].1) == pairs@[i].1@,
                decreases n - j,
            {
                proof {
                    assert(target[j as int] == (pairs@[j as int].0@, pairs@[j as int].1@));
                    assert(renderable(target[j as int].1));
                    assert(renderable(pairs@[j as int].1@));
                    assert(decreases_to!(*v => *pairs));
                    assert(decreases_to!(*pairs => pairs@[j as int]));
                }
                let item = to_json_value(&pairs[j].1);
                let key = pairs[j].0.clone();
                out.push((key, item));
                j = j + 1;
            }
            proof {
                assert forall|i: int, k: int|
                    #![trigger out@[i].0@, out@[k].0@]
                    0 <= i < k < out@.len() implies out@[i].0@ != out@[k].0@ by {
                    assert(target[i].0 == pairs@[i].0@ && target[k].0 == pairs@[k].0@);
                }
            }
            let r = jv_obj(out);
            proof {
                assert(out@.map_values(|p: (String, serde_json::Value)| (p.0@, json_view_of(p.1)))
                    =~= target);
            }
            r
        },
        JsonValue::Other => {
            proof {
                assert(false);
            }
            jv_null()
        },
    }
}

} // verus!
