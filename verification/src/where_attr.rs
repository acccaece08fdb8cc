//! The query-filter vocabulary: one predicate bundle per field, composed
//! by implicit AND. A bare literal in a query abbreviates an `$eq` bundle.

use vstd::prelude::*;

use crate::json_value::{json_eq, jv_seq_view, jv_seq_view_index, JsonVal, JsonValue};
use crate::util::str_eq;

verus! {

/// The predicate bundle recognized for one field. All slots hold raw JSON
/// values; absent slots impose no constraint.
#[derive(Debug)]
pub struct Where {
    pub eq: Option<JsonValue>,
    pub ne: Option<JsonValue>,
    pub gt: Option<JsonValue>,
    pub lt: Option<JsonValue>,
    pub gte: Option<JsonValue>,
    pub lte: Option<JsonValue>,
    pub in_: Option<Vec<JsonValue>>,
    pub nin: Option<Vec<JsonValue>>,
}

/// The mathematical shape of a predicate bundle.
#[verifier::ext_equal]
pub struct WhereModel {
    pub eq: Option<JsonVal>,
    pub ne: Option<JsonVal>,
    pub gt: Option<JsonVal>,
    pub lt: Option<JsonVal>,
    pub gte: Option<JsonVal>,
    pub lte: Option<JsonVal>,
    pub in_: Option<Seq<JsonVal>>,
    pub nin: Option<Seq<JsonVal>>,
}

impl View for Where {
    type V = WhereModel;

    open spec fn view(&self) -> WhereModel {
        WhereModel {
            eq: opt_view(self.eq),
            ne: opt_view(self.ne),
            gt: opt_view(self.gt),
            lt: opt_view(self.lt),
            gte: opt_view(self.gte),
            lte: opt_view(self.lte),
            in_: opt_list_view(self.in_),
            nin: opt_list_view(self.nin),
        }
    }
}

impl DeepView for Where {
    type V = WhereModel;

    open spec fn deep_view(&self) -> WhereModel {
        self.view()
    }
}

/// The view of an optional value.
pub open spec fn opt_view(v: Option<JsonValue>) -> Option<JsonVal> {
    match v {
        Some(x) => Some(x@),
        None => None,
    }
}

/// The view of an optional value list.
pub open spec fn opt_list_view(v: Option<Vec<JsonValue>>) -> Option<Seq<JsonVal>> {
    match v {
        Some(x) => Some(jv_seq_view(x@)),
        None => None,
    }
}

/// The operator value stored under `key`, if any.
pub open spec fn op_value(v: JsonVal, key: Seq<char>) -> Option<JsonVal> {
    v.get(key)
}

/// The operator list stored under `key`: present only when the slot holds
/// an array.
pub open spec fn op_list(v: JsonVal, key: Seq<char>) -> Option<Seq<JsonVal>> {
    match v.get(key) {
        Some(JsonVal::Arr(items)) => Some(items),
        _ => None,
    }
}

/// The bundle a raw query value denotes: a non-object abbreviates `$eq`;
/// an object contributes each recognized operator key it holds, the rest
/// are ignored.
pub open spec fn where_of(v: JsonVal) -> WhereModel {
    if !(v is Obj) {
        WhereModel {
            eq: Some(v),
            ne: None,
            gt: None,
            lt: None,
            gte: None,
            lte: None,
            in_: None,
            nin: None,
        }
    } else {
        WhereModel {
            eq: op_value(v, "$eq"@),
            ne: op_value(v, "$ne"@),
            gt: op_value(v, "$gt"@),
            lt: op_value(v, "$lt"@),
            gte: op_value(v, "$gte"@),
            lte: op_value(v, "$lte"@),
            in_: op_list(v, "$in"@),
            nin: op_list(v, "$nin"@),
        }
    }
}

impl Where {
    /// Decodes a raw query value into a predicate bundle. A slot under
    /// `$in` or `$nin` that is not an array is ignored, as an unrecognized
    /// key is.
    pub fn from_value(v: &JsonValue) -> (r: Where)
        ensures
            r@ == where_of(v@),
    {
        if !v.is_object() {
            return Where {
                eq: Some(v.deep_clone()),
                ne: None,
                gt: None,
                lt: None,
                gte: None,
                lte: None,
                in_: None,
                nin: None,
            };
        }
        Where {
            eq: Self::op_slot(v, "$eq"),
            ne: Self::op_slot(v, "$ne"),
            gt: Self::op_slot(v, "$gt"),
            lt: Self::op_slot(v, "$lt"),
            gte: Self::op_slot(v, "$gte"),
            lte: Self::op_slot(v, "$lte"),
            in_: Self::list_slot(v, "$in"),
            nin: Self::list_slot(v, "$nin"),
        }
    }

    /// The cloned operator value under `key`, if any.
    fn op_slot(v: &JsonValue, key: &str) -> (r: Option<JsonValue>)
        ensures
            opt_view(r) == op_value(v@, key@),
    {
        match v.get(key) {
            Some(x) => Some(x.deep_clone()),
            None => None,
        }
    }

    /// The cloned operator list under `key`, when that slot is an array.
    fn list_slot(v: &JsonValue, key: &str) -> (r: Option<Vec<JsonValue>>)
        ensures
            opt_list_view(r) == op_list(v@, key@),
    {
        match v.get(key) {
            Some(JsonValue::Arr(items)) => Some(crate::json_value::clone_list(items)),
            _ => None,
        }
    }
}

/// Strict lexicographic order on character sequences, by code point.
pub open spec fn lex_lt(a: Seq<char>, b: Seq<char>) -> bool
    decreases a.len(),
{
    if b.len() == 0 {
        false
    } else if a.len() == 0 {
        true
    } else if (a[0] as u32) < (b[0] as u32) {
        true
    } else if a[0] == b[0] {
        lex_lt(a.skip(1), b.skip(1))
    } else {
        false
    }
}

/// Order on number texts: shorter before longer, texts of equal length
/// lexicographically. On canonical unsigned integer texts (no sign, no
/// fraction, no leading zeros) this is the numeric order.
pub open spec fn num_lt(a: Seq<char>, b: Seq<char>) -> bool {
    a.len() < b.len() || (a.len() == b.len() && lex_lt(a, b))
}

/// Strict order on values: strings compare lexicographically, numbers by
/// their texts as [`num_lt`] says; values of any other or mixed kinds are
/// unordered.
pub open spec fn val_lt(a: JsonVal, b: JsonVal) -> bool {
    match (a, b) {
        (JsonVal::Str(x), JsonVal::Str(y)) => lex_lt(x, y),
        (JsonVal::Num(x), JsonVal::Num(y)) => num_lt(x, y),
        _ => false,
    }
}

/// Non-strict order on values: strictly below, or equal and of an ordered
/// kind.
pub open spec fn val_le(a: JsonVal, b: JsonVal) -> bool {
    val_lt(a, b) || (a == b && (a is Str || a is Num))
}

/// Whether a row value satisfies every operator a bundle holds. A null or
/// missing row value satisfies no operator, as a relational engine's
/// comparisons with null match nothing.
pub open spec fn sat_bundle(w: WhereModel, val: JsonVal) -> bool {
    &&& (w.eq matches Some(x) ==> !(val is Null) && val == x)
    &&& (w.ne matches Some(x) ==> !(val is Null) && val != x)
    &&& (w.gt matches Some(x) ==> val_lt(x, val))
    &&& (w.gte matches Some(x) ==> val_le(x, val))
    &&& (w.lt matches Some(x) ==> val_lt(val, x))
    &&& (w.lte matches Some(x) ==> val_le(val, x))
    &&& (w.in_ matches Some(xs) ==> !(val is Null) && xs.contains(val))
    &&& (w.nin matches Some(xs) ==> !(val is Null) && !xs.contains(val))
}

/// Strict lexicographic order, decided character by character.
fn str_lt(a: &str, b: &str) -> (r: bool)
    ensures
        r == lex_lt(a@, b@),
{
    let la = a.unicode_len();
    let lb = b.unicode_len();
    let mut i: usize = 0;
    assert(a@.skip(0) =~= a@);
    assert(b@.skip(0) =~= b@);
    while i < la && i < lb
        invariant
            la == a@.len(),
            lb == b@.len(),
            0 <= i <= la,
            0 <= i <= lb,
            lex_lt(a@, b@) == lex_lt(a@.skip(i as int), b@.skip(i as int)),
        decreases la - i,
    {
        let ca = a.get_char(i);
        let cb = b.get_char(i);
        assert(a@.skip(i as int)[0] == a@[i as int]);
        assert(b@.skip(i as int)[0] == b@[i as int]);
        if (ca as u32) < (cb as u32) {
            return true;
        }
        if ca != cb {
            return false;
        }
        assert(a@.skip(i as int).skip(1) =~= a@.skip(i + 1));
        assert(b@.skip(i as int).skip(1) =~= b@.skip(i + 1));
        i = i + 1;
    }
    if i < lb {
        assert(a@.skip(i as int).len() == 0);
        assert(a@.skip(i as int) =~= Seq::<char>::empty());
        true
    } else {
        assert(b@.skip(i as int).len() == 0);
        assert(b@.skip(i as int) =~= Seq::<char>::empty());
        false
    }
}

/// Strict order on two values, as [`val_lt`] defines it.
pub fn value_lt(a: &JsonValue, b: &JsonValue) -> (r: bool)
    ensures
        r == val_lt(a@, b@),
{
    match (a, b) {
        (JsonValue::Str(x), JsonValue::Str(y)) => str_lt(x.as_str(), y.as_str()),
        (JsonValue::Num(x), JsonValue::Num(y)) => {
            let lx = x.as_str().unicode_len();
            let ly = y.as_str().unicode_len();
            if lx < ly {
                true
            } else if lx == ly {
                str_lt(x.as_str(), y.as_str())
            } else {
                false
            }
        },
        _ => false,
    }
}

/// Non-strict order on two values, as [`val_le`] defines it.
pub fn value_le(a: &JsonValue, b: &JsonValue) -> (r: bool)
    ensures
        r == val_le(a@, b@),
{
    if value_lt(a, b) {
        return true;
    }
    let ordered_kind = match a {
        JsonValue::Str(_) => true,
        JsonValue::Num(_) => true,
        _ => false,
    };
    ordered_kind && json_eq(a, b)
}

/// Whether `val` is an element of `xs`, by structural equality.
fn list_contains(xs: &Vec<JsonValue>, val: &JsonValue) -> (r: bool)
    ensures
        r == jv_seq_view(xs@).contains(val@),
{
    proof {
        jv_seq_view_index(xs@);
    }
    let ghost gxs = jv_seq_view(xs@);
    let n = xs.len();
    let mut i: usize = 0;
    while i < n
        invariant
            n == xs@.len(),
            gxs == jv_seq_view(xs@),
            gxs.len() == n,
            forall|j: int| 0 <= j < n ==> #[trigger] gxs[j] == xs@[j]@,
            0 <= i <= n,
            forall|j: int| 0 <= j < i ==> #[trigger] gxs[j] != val@,
        decreases n - i,
    {
        if json_eq(&xs[i], val) {
            assert(gxs[i as int] == val@);
            return true;
        }
        i = i + 1;
    }
    assert(!gxs.contains(val@));
    false
}

impl Where {
    /// Whether a row value (absent modelled as null) satisfies this bundle.
    pub fn satisfied_by(&self, val: Option<&JsonValue>) -> (r: bool)
        ensures
            r == sat_bundle(self@, match val {
                Some(v) => v@,
                None => JsonVal::Null,
            }),
    {
        let null_value = JsonValue::Null;
        let v: &JsonValue = match val {
            Some(v) => v,
            None => &null_value,
        };
        let non_null = !v.is_null();
        let ok_eq = match &self.eq {
            Some(x) => non_null && json_eq(v, x),
            None => true,
        };
        let ok_ne = match &self.ne {
            Some(x) => non_null && !json_eq(v, x),
            None => true,
        };
        let ok_gt = match &self.gt {
            Some(x) => value_lt(x, v),
            None => true,
        };
        let ok_gte = match &self.gte {
            Some(x) => value_le(x, v),
            None => true,
        };
        let ok_lt = match &self.lt {
            Some(x) => value_lt(v, x),
            None => true,
        };
        let ok_lte = match &self.lte {
            Some(x) => value_le(v, x),
            None => true,
        };
        let ok_in = match &self.in_ {
            Some(xs) => non_null && list_contains(xs, v),
            None => true,
        };
        let ok_nin = match &self.nin {
            Some(xs) => non_null && !list_contains(xs, v),
            None => true,
        };
        ok_eq && ok_ne && ok_gt && ok_gte && ok_lt && ok_lte && ok_in && ok_nin
    }
}

} // verus!
