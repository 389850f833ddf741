use vstd::prelude::*;

verus! {

broadcast use vstd::std_specs::vec::axiom_vec_index_decreases;

/// A JSON-like value: what one key of the flat record schema can hold.
///
/// `Nat` covers the non-negative integers the schema uses; `Other` stands for
/// any JSON value outside this shape (a float, a boolean, a negative number),
/// which the decoder uniformly rejects.
pub enum JsonValue {
    Null,
    Nat(u128),
    Str(String),
    Arr(Vec<JsonValue>),
    Obj(Vec<(String, JsonValue)>),
    Other,
}

/// Mathematical mirror of `JsonValue`, used in contracts.
pub ghost enum JVal {
    Null,
    Nat(int),
    Str(Seq<char>),
    Arr(Seq<JVal>),
    Obj(Seq<(Seq<char>, JVal)>),
    Other,
}

impl JsonValue {
    pub open spec fn view_rec(self) -> JVal
        decreases self,
    {
        match self {
            JsonValue::Null => JVal::Null,
            JsonValue::Nat(n) => JVal::Nat(n as int),
            JsonValue::Str(s) => JVal::Str(s@),
            JsonValue::Arr(items) => JVal::Arr(
                Seq::new(
                    items@.len(),
                    |i: int|
                        if 0 <= i < items@.len() {
                            items[i].view_rec()
                        } else {
                            JVal::Null
                        },
                ),
            ),
            JsonValue::Obj(pairs) => JVal::Obj(
                Seq::new(
                    pairs@.len(),
                    |i: int|
                        if 0 <= i < pairs@.len() {
                            (pairs[i].0@, pairs[i].1.view_rec())
                        } else {
                            (Seq::empty(), JVal::Null)
                        },
                ),
            ),
            JsonValue::Other => JVal::Other,
        }
    }
}

impl View for JsonValue {
    type V = JVal;

    open spec fn view(&self) -> JVal {
        self.view_rec()
    }
}

/// The view of a flat key/value list: each key as a character sequence, each
/// value as its mathematical mirror.
pub open spec fn flat_view(s: Seq<(String, JsonValue)>) -> Seq<(Seq<char>, JVal)> {
    s.map_values(|p: (String, JsonValue)| (p.0@, p.1@))
}

} // verus!
