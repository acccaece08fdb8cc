//! The JSON value model that every payload, stored row and query is made of.
//!
//! Numbers carry their decimal text instead of a machine float, so the
//! engine can reason about them and render them exactly. The mathematical
//! counterpart of a [`JsonValue`] is a [`JsonVal`], reached through `@`.

use vstd::prelude::*;

use crate::util::str_eq;

verus! {

/// A JSON value. An object keeps its entries in insertion order; well-formed
/// objects (see [`JsonValue::obj_wf`]) have pairwise distinct keys.
#[derive(Debug)]
pub enum JsonValue {
    Null,
    Bool(bool),
    /// The number's decimal text, e.g. `"1"`, `"1.2"`, `"-3"`.
    Num(String),
    Str(String),
    Arr(Vec<JsonValue>),
    Obj(Vec<(String, JsonValue)>),
}

/// The mathematical shape of a JSON value: strings are character sequences,
/// arrays and objects are sequences.
#[verifier::ext_equal]
pub enum JsonVal {
    Null,
    Bool(bool),
    Num(Seq<char>),
    Str(Seq<char>),
    Arr(Seq<JsonVal>),
    Obj(Seq<(Seq<char>, JsonVal)>),
}

/// The view of one executable JSON value.
pub open spec fn jv_view(v: JsonValue) -> JsonVal
    decreases v,
{
    match v {
        JsonValue::Null => JsonVal::Null,
        JsonValue::Bool(b) => JsonVal::Bool(b),
        JsonValue::Num(s) => JsonVal::Num(s@),
        JsonValue::Str(s) => JsonVal::Str(s@),
        JsonValue::Arr(items) => JsonVal::Arr(jv_seq_view(items@)),
        JsonValue::Obj(entries) => JsonVal::Obj(jv_entries_view(entries@)),
    }
}

/// The views of a sequence of JSON values.
pub open spec fn jv_seq_view(s: Seq<JsonValue>) -> Seq<JsonVal>
    decreases s,
{
    if s.len() == 0 {
        Seq::empty()
    } else {
        seq![jv_view(s[0])] + jv_seq_view(s.skip(1))
    }
}

/// The views of an object's entry list.
pub open spec fn jv_entries_view(s: Seq<(String, JsonValue)>) -> Seq<(Seq<char>, JsonVal)>
    decreases s,
{
    if s.len() == 0 {
        Seq::empty()
    } else {
        seq![(s[0].0@, jv_view(s[0].1))] + jv_entries_view(s.skip(1))
    }
}

impl View for JsonValue {
    type V = JsonVal;

    open spec fn view(&self) -> JsonVal {
        jv_view(*self)
    }
}

impl DeepView for JsonValue {
    type V = JsonVal;

    open spec fn deep_view(&self) -> JsonVal {
        jv_view(*self)
    }
}

/// A copy of a value list, element views preserved.
pub fn clone_list(items: &Vec<JsonValue>) -> (r: Vec<JsonValue>)
    ensures
        jv_seq_view(r@) == jv_seq_view(items@),
        r@.len() == items@.len(),
{
    let n = items.len();
    let mut out: Vec<JsonValue> = Vec::new();
    let mut i: usize = 0;
    while i < n
        invariant
            n == items@.len(),
            0 <= i <= n,
            out@.len() == i,
            forall|j: int| 0 <= j < i ==> (#[trigger] out@[j])@ == items@[j]@,
        decreases n - i,
    {
        out.push(items[i].deep_clone());
        i = i + 1;
    }
    proof {
        jv_seq_view_index(out@);
        jv_seq_view_index(items@);
        assert forall|j: int| 0 <= j < n implies jv_seq_view(out@)[j] == jv_seq_view(
            items@,
        )[j] by {
            assert(out@[j]@ == items@[j]@);
        }
        assert(jv_seq_view(out@) =~= jv_seq_view(items@));
    }
    out
}

pub broadcast proof fn jv_seq_view_index(s: Seq<JsonValue>)
    ensures
        (#[trigger] jv_seq_view(s)).len() == s.len(),
        forall|i: int| 0 <= i < s.len() ==> jv_seq_view(s)[i] == jv_view(#[trigger] s[i]),
    decreases s,
{
    if s.len() > 0 {
        jv_seq_view_index(s.skip(1));
        assert forall|i: int| 0 <= i < s.len() implies jv_seq_view(s)[i] == jv_view(
            #[trigger] s[i],
        ) by {
            if i > 0 {
                assert(s.skip(1)[i - 1] == s[i]);
                assert(jv_seq_view(s)[i] == jv_seq_view(s.skip(1))[i - 1]);
            }
        }
    }
}

pub broadcast proof fn jv_entries_view_index(s: Seq<(String, JsonValue)>)
    ensures
        (#[trigger] jv_entries_view(s)).len() == s.len(),
        forall|i: int|
            0 <= i < s.len() ==> jv_entries_view(s)[i] == ((#[trigger] s[i]).0@, jv_view(s[i].1)),
    decreases s,
{
    if s.len() > 0 {
        jv_entries_view_index(s.skip(1));
        assert forall|i: int| 0 <= i < s.len() implies jv_entries_view(s)[i] == ((
        #[trigger] s[i]).0@, jv_view(s[i].1)) by {
            if i > 0 {
                assert(s.skip(1)[i - 1] == s[i]);
                assert(jv_entries_view(s)[i] == jv_entries_view(s.skip(1))[i - 1]);
            }
        }
    }
}

/// An entry list's view is `t` when `t` matches it pointwise.
pub proof fn jv_entries_view_eq(s: Seq<(String, JsonValue)>, t: Seq<(Seq<char>, JsonVal)>)
    requires
        t.len() == s.len(),
        forall|i: int| 0 <= i < s.len() ==> t[i] == ((#[trigger] s[i]).0@, jv_view(s[i].1)),
    ensures
        jv_entries_view(s) == t,
{
    jv_entries_view_index(s);
    assert forall|i: int| 0 <= i < s.len() implies jv_entries_view(s)[i] == t[i] by {
        assert(t[i] == (s[i].0@, jv_view(s[i].1)));
    }
    assert(jv_entries_view(s) =~= t);
}

impl JsonVal {
    /// The value stored under `key` in an object, or `None`. On a non-object
    /// this is `None` for every key.
    pub open spec fn get(self, key: Seq<char>) -> Option<JsonVal> {
        match self {
            JsonVal::Obj(entries) => obj_lookup(entries, key),
            _ => None,
        }
    }

    /// True when the value is an object whose keys are pairwise distinct.
    pub open spec fn obj_wf(self) -> bool {
        match self {
            JsonVal::Obj(entries) => distinct_keys(entries),
            _ => false,
        }
    }
}

impl JsonValue {
    /// A copy of the value with the same mathematical view.
    #[verifier::loop_isolation(false)]
    pub fn deep_clone(&self) -> (r: JsonValue)
        ensures
            r@ == self@,
        decreases *self,
    {
        match self {
            JsonValue::Null => JsonValue::Null,
            JsonValue::Bool(b) => JsonValue::Bool(*b),
            JsonValue::Num(s) => JsonValue::Num(s.clone()),
            JsonValue::Str(s) => JsonValue::Str(s.clone()),
            JsonValue::Arr(items) => {
                let n = items.len();
                let mut out: Vec<JsonValue> = Vec::new();
                let mut i: usize = 0;
                while i < n
                    invariant
                        n == items@.len(),
                        0 <= i <= n,
                        out@.len() == i,
                        forall|j: int| 0 <= j < i ==> (#[trigger] out@[j])@ == items@[j]@,
                    decreases n - i,
                {
                    let item = &items[i];
                    assert(decreases_to!(items@ => items@[i as int]));
                    out.push(item.deep_clone());
                    i = i + 1;
                }
                proof {
                    jv_seq_view_index(out@);
                    jv_seq_view_index(items@);
                    assert forall|j: int| 0 <= j < n implies jv_seq_view(out@)[j] == jv_seq_view(
                        items@,
                    )[j] by {
                        assert(out@[j]@ == items@[j]@);
                    }
                    assert(jv_seq_view(out@) =~= jv_seq_view(items@));
                }
                JsonValue::Arr(out)
            },
            JsonValue::Obj(entries) => {
                let n = entries.len();
                let mut out: Vec<(String, JsonValue)> = Vec::new();
                let mut i: usize = 0;
                while i < n
                    invariant
                        n == entries@.len(),
                        0 <= i <= n,
                        out@.len() == i,
                        forall|j: int|
                            0 <= j < i ==> (#[trigger] out@[j]).0@ == entries@[j].0@ && out@[j].1@
                                == entries@[j].1@,
                    decreases n - i,
                {
                    let entry = &entries[i];
                    assert(decreases_to!(entries@ => entries@[i as int]));
                    out.push((entry.0.clone(), entry.1.deep_clone()));
                    i = i + 1;
                }
                proof {
                    jv_entries_view_index(out@);
                    jv_entries_view_index(entries@);
                    assert forall|j: int| 0 <= j < n implies jv_entries_view(out@)[j]
                        == jv_entries_view(entries@)[j] by {
                        assert(out@[j].0@ == entries@[j].0@ && out@[j].1@ == entries@[j].1@);
                    }
                    assert(jv_entries_view(out@) =~= jv_entries_view(entries@));
                }
                JsonValue::Obj(out)
            },
        }
    }
}

impl Clone for JsonValue {
    /// A clone carries the same mathematical view as the original.
    fn clone(&self) -> (r: JsonValue)
        ensures
            r@ == self@,
    {
        self.deep_clone()
    }
}

/// Structural equality of two values, decided entry by entry and element
/// by element.
#[verifier::loop_isolation(false)]
pub fn json_eq(a: &JsonValue, b: &JsonValue) -> (r: bool)
    ensures
        r == (a@ == b@),
    decreases *a,
{
    match (a, b) {
        (JsonValue::Null, JsonValue::Null) => true,
        (JsonValue::Bool(x), JsonValue::Bool(y)) => x == y,
        (JsonValue::Num(x), JsonValue::Num(y)) => str_eq(x.as_str(), y.as_str()),
        (JsonValue::Str(x), JsonValue::Str(y)) => str_eq(x.as_str(), y.as_str()),
        (JsonValue::Arr(x), JsonValue::Arr(y)) => {
            proof {
                jv_seq_view_index(x@);
                jv_seq_view_index(y@);
            }
            let ghost gx = jv_seq_view(x@);
            let ghost gy = jv_seq_view(y@);
            if x.len() != y.len() {
                return false;
            }
            let n = x.len();
            let mut i: usize = 0;
            while i < n
                invariant
                    0 <= i <= n,
                    forall|j: int| 0 <= j < i ==> #[trigger] gx[j] == gy[j],
                decreases n - i,
            {
                assert(decreases_to!(x@ => x@[i as int]));
                if !json_eq(&x[i], &y[i]) {
                    assert(gx[i as int] != gy[i as int]);
                    return false;
                }
                i = i + 1;
            }
            assert(gx =~= gy);
            true
        },
        (JsonValue::Obj(x), JsonValue::Obj(y)) => {
            proof {
                jv_entries_view_index(x@);
                jv_entries_view_index(y@);
            }
            let ghost gx = jv_entries_view(x@);
            let ghost gy = jv_entries_view(y@);
            if x.len() != y.len() {
                return false;
            }
            let n = x.len();
            let mut i: usize = 0;
            while i < n
                invariant
                    0 <= i <= n,
                    forall|j: int| 0 <= j < i ==> #[trigger] gx[j] == gy[j],
                decreases n - i,
            {
                assert(decreases_to!(x@ => x@[i as int].1));
                if !str_eq(x[i].0.as_str(), y[i].0.as_str()) {
                    assert(gx[i as int].0 != gy[i as int].0);
                    return false;
                }
                if !json_eq(&x[i].1, &y[i].1) {
                    assert(gx[i as int].1 != gy[i as int].1);
                    return false;
                }
                assert(gx[i as int] == gy[i as int]);
                i = i + 1;
            }
            assert(gx =~= gy);
            true
        },
        _ => {
            assert(a@ != b@);
            false
        },
    }
}

/// First-match lookup in an entry list.
pub open spec fn obj_lookup(entries: Seq<(Seq<char>, JsonVal)>, key: Seq<char>) -> Option<JsonVal>
    decreases entries.len(),
{
    if entries.len() == 0 {
        None
    } else if entries[0].0 == key {
        Some(entries[0].1)
    } else {
        obj_lookup(entries.skip(1), key)
    }
}

/// A lookup lands on the first entry carrying its key.
pub proof fn lemma_obj_lookup_at(entries: Seq<(Seq<char>, JsonVal)>, i: int)
    requires
        0 <= i < entries.len(),
        forall|k: int| 0 <= k < i ==> (#[trigger] entries[k]).0 != entries[i].0,
    ensures
        obj_lookup(entries, entries[i].0) == Some(entries[i].1),
    decreases entries.len(),
{
    if i > 0 {
        assert(entries.skip(1)[i - 1] == entries[i]);
        assert forall|k: int| 0 <= k < i - 1 implies (#[trigger] entries.skip(1)[k]).0
            != entries.skip(1)[i - 1].0 by {
            assert(entries.skip(1)[k] == entries[k + 1]);
        }
        lemma_obj_lookup_at(entries.skip(1), i - 1);
    }
}

/// Pairwise distinct keys in an entry list.
pub open spec fn distinct_keys(entries: Seq<(Seq<char>, JsonVal)>) -> bool {
    forall|i: int, j: int|
        0 <= i < j < entries.len() ==> (#[trigger] entries[i].0) != (#[trigger] entries[j].0)
}

impl JsonValue {
    /// Whether the value is a JSON object.
    pub fn is_object(&self) -> (r: bool)
        ensures
            r == (self@ is Obj),
    {
        match self {
            JsonValue::Obj(_) => true,
            _ => false,
        }
    }

    /// Whether the value is a JSON string.
    pub fn is_string(&self) -> (r: bool)
        ensures
            r == (self@ is Str),
    {
        match self {
            JsonValue::Str(_) => true,
            _ => false,
        }
    }

    /// Whether the value is a JSON number.
    pub fn is_number(&self) -> (r: bool)
        ensures
            r == (self@ is Num),
    {
        match self {
            JsonValue::Num(_) => true,
            _ => false,
        }
    }

    /// Whether the value is a JSON boolean.
    pub fn is_boolean(&self) -> (r: bool)
        ensures
            r == (self@ is Bool),
    {
        match self {
            JsonValue::Bool(_) => true,
            _ => false,
        }
    }

    /// Whether the value is a JSON array.
    pub fn is_array(&self) -> (r: bool)
        ensures
            r == (self@ is Arr),
    {
        match self {
            JsonValue::Arr(_) => true,
            _ => false,
        }
    }

    /// Whether the value is JSON null.
    pub fn is_null(&self) -> (r: bool)
        ensures
            r == (self@ is Null),
    {
        match self {
            JsonValue::Null => true,
            _ => false,
        }
    }

    /// Looks `key` up among the entries of an object, first match wins.
    pub fn get<'a>(&'a self, key: &str) -> (r: Option<&'a JsonValue>)
        ensures
            match r {
                Some(v) => self@.get(key@) == Some(v@),
                None => self@.get(key@) is None,
            },
    {
        match self {
            JsonValue::Obj(entries) => {
                proof {
                    jv_entries_view_index(entries@);
                }
                let ghost gentries = jv_entries_view(entries@);
                let n = entries.len();
                let mut i: usize = 0;
                assert(gentries.skip(0) =~= gentries);
                while i < n
                    invariant
                        n == entries@.len(),
                        gentries == jv_entries_view(entries@),
                        self@ == JsonVal::Obj(gentries),
                        gentries.len() == n,
                        forall|j: int|
                            0 <= j < n ==> #[trigger] gentries[j] == (entries@[j].0@, jv_view(
                                entries@[j].1,
                            )),
                        0 <= i <= n,
                        forall|j: int| 0 <= j < i ==> (#[trigger] gentries[j].0) != key@,
                        obj_lookup(gentries, key@) == obj_lookup(gentries.skip(i as int), key@),
                    decreases n - i,
                {
                    assert(gentries.skip(i as int)[0] == gentries[i as int]);
                    if str_eq(entries[i].0.as_str(), key) {
                        assert(gentries[i as int].0 == key@);
                        assert(obj_lookup(gentries.skip(i as int), key@) == Some(
                            gentries[i as int].1,
                        ));
                        assert(self@ == JsonVal::Obj(gentries));
                        assert(self@.get(key@) == Some(gentries[i as int].1));
                        assert(gentries[i as int].1 == jv_view(entries@[i as int].1));
                        return Some(&entries[i].1);
                    }
                    assert(gentries.skip(i as int).skip(1) =~= gentries.skip(i + 1));
                    i = i + 1;
                }
                assert(gentries.skip(n as int) =~= Seq::<(Seq<char>, JsonVal)>::empty());
                None
            },
            _ => None,
        }
    }
}

} // verus!
