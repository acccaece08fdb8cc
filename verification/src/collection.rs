//! A named, ordered set of fields plus bookkeeping timestamps: validation,
//! defaulting, required-field checking and new-field inference.

use vstd::prelude::*;

use crate::collection_error::CollectionError;
use crate::collection_field::{CollectionField, FieldModel};
use crate::field_type::{admits, classify_spec, FieldType};
use crate::json_value::{jv_entries_view, jv_entries_view_index, JsonVal, JsonValue};
use crate::util::str_eq;

verus! {

/// Whether `name` is one of the three reserved identifiers that every
/// collection manages itself: `id`, `created_at`, `updated_at`.
pub open spec fn is_reserved(name: Seq<char>) -> bool {
    name == "id"@ || name == "created_at"@ || name == "updated_at"@
}

/// Whether `name` is one of the three reserved identifiers.
pub fn is_reserved_name(name: &str) -> (r: bool)
    ensures
        r == is_reserved(name@),
{
    str_eq(name, "id") || str_eq(name, "created_at") || str_eq(name, "updated_at")
}

/// The first field called `name`, if any.
pub open spec fn field_lookup(fields: Seq<FieldModel>, name: Seq<char>) -> Option<FieldModel>
    decreases fields.len(),
{
    if fields.len() == 0 {
        None
    } else if fields[0].name == name {
        Some(fields[0])
    } else {
        field_lookup(fields.skip(1), name)
    }
}

/// Well-formed field list: names pairwise distinct and none reserved.
pub open spec fn fields_wf(fields: Seq<FieldModel>) -> bool {
    &&& forall|i: int, j: int|
        0 <= i < j < fields.len() ==> (#[trigger] fields[i].name) != (#[trigger] fields[j].name)
    &&& forall|i: int| 0 <= i < fields.len() ==> !is_reserved(#[trigger] fields[i].name)
}

/// The new fields a payload introduces, in the payload's key order: one per
/// entry whose key is not yet a field, is not reserved, and whose value is
/// not null, typed by classification of that value.
pub open spec fn new_fields_spec(
    fields: Seq<FieldModel>,
    entries: Seq<(Seq<char>, JsonVal)>,
) -> Seq<FieldModel>
    decreases entries.len(),
{
    if entries.len() == 0 {
        Seq::empty()
    } else {
        let rest = new_fields_spec(fields, entries.skip(1));
        if field_lookup(fields, entries[0].0) is None && !is_reserved(entries[0].0) && !(
        entries[0].1 is Null) {
            seq![
                FieldModel {
                    name: entries[0].0,
                    field_type: classify_spec(entries[0].1),
                    default: None,
                    required: None,
                },
            ] + rest
        } else {
            rest
        }
    }
}

/// The keys of a payload whose values a schema rejects, in payload order:
/// keys known to the schema whose value is not admissible for the field's
/// type. Keys absent from the schema are skipped.
pub open spec fn invalid_keys_spec(
    fields: Seq<FieldModel>,
    entries: Seq<(Seq<char>, JsonVal)>,
) -> Seq<Seq<char>>
    decreases entries.len(),
{
    if entries.len() == 0 {
        Seq::empty()
    } else {
        let rest = invalid_keys_spec(fields, entries.skip(1));
        match field_lookup(fields, entries[0].0) {
            Some(f) => if !admits(f.field_type, entries[0].1) {
                seq![entries[0].0] + rest
            } else {
                rest
            },
            None => rest,
        }
    }
}

/// The value a field resolves to under defaulting: the supplied value when
/// present and non-null, else the field's default (itself null if unset).
pub open spec fn resolved_value(f: FieldModel, data: JsonVal) -> JsonVal {
    match data.get(f.name) {
        Some(v) => if v is Null {
            f.default_or_null()
        } else {
            v
        },
        None => f.default_or_null(),
    }
}

/// The full entry list defaulting produces: one entry per schema field, in
/// schema order.
pub open spec fn defaults_spec(fields: Seq<FieldModel>, data: JsonVal) -> Seq<
    (Seq<char>, JsonVal),
> {
    Seq::new(fields.len(), |i: int| (fields[i].name, resolved_value(fields[i], data)))
}

/// The names of required fields that are still null, in schema order. With
/// `only_exists` set (the update path) a required key the payload never
/// mentions is not reported; only keys explicitly present and null are.
pub open spec fn required_missing_spec(
    fields: Seq<FieldModel>,
    data: JsonVal,
    only_exists: bool,
) -> Seq<Seq<char>>
    decreases fields.len(),
{
    if fields.len() == 0 {
        Seq::empty()
    } else {
        let rest = required_missing_spec(fields.skip(1), data, only_exists);
        if fields[0].is_required() && (!only_exists || data.get(fields[0].name) is Some) && (match
        data.get(fields[0].name) {
            Some(v) => v is Null,
            None => true,
        }) {
            seq![fields[0].name] + rest
        } else {
            rest
        }
    }
}

/// A named, schema-bearing record set. `fields` holds the caller-declared
/// fields only; the three reserved identifiers are implicit and always
/// present. Timestamps count milliseconds.
#[derive(Debug)]
pub struct Collection {
    pub name: String,
    pub fields: Vec<CollectionField>,
    pub created_at: i64,
    pub updated_at: i64,
}

/// The mathematical shape of a collection.
#[verifier::ext_equal]
pub struct CollectionModel {
    pub name: Seq<char>,
    pub fields: Seq<FieldModel>,
    pub created_at: int,
    pub updated_at: int,
}

impl CollectionModel {
    /// Well-formed collection: its field list is well-formed.
    pub open spec fn wf(self) -> bool {
        fields_wf(self.fields)
    }
}

impl View for Collection {
    type V = CollectionModel;

    open spec fn view(&self) -> CollectionModel {
        CollectionModel {
            name: self.name@,
            fields: self.fields.deep_view(),
            created_at: self.created_at as int,
            updated_at: self.updated_at as int,
        }
    }
}

impl DeepView for Collection {
    type V = CollectionModel;

    open spec fn deep_view(&self) -> CollectionModel {
        self.view()
    }
}

impl Collection {
    /// A copy of the collection with the same mathematical view.
    pub fn deep_clone(&self) -> (r: Collection)
        ensures
            r@ == self@,
    {
        let n = self.fields.len();
        let mut fields: Vec<CollectionField> = Vec::new();
        let mut i: usize = 0;
        while i < n
            invariant
                n == self.fields@.len(),
                0 <= i <= n,
                fields@.len() == i,
                forall|j: int| 0 <= j < i ==> (#[trigger] fields@[j])@ == self.fields@[j]@,
            decreases n - i,
        {
            fields.push(self.fields[i].deep_clone());
            i = i + 1;
        }
        let r = Collection {
            name: self.name.clone(),
            fields,
            created_at: self.created_at,
            updated_at: self.updated_at,
        };
        proof {
            assert(r@.fields =~= self@.fields);
            assert(r@ =~= self@);
        }
        r
    }

    /// The first declared field called `key`, if any.
    pub fn get_field<'a>(&'a self, key: &str) -> (r: Option<&'a CollectionField>)
        ensures
            match r {
                Some(f) => field_lookup(self@.fields, key@) == Some(f@),
                None => field_lookup(self@.fields, key@) is None,
            },
    {
        let ghost gfields = self@.fields;
        let n = self.fields.len();
        let mut i: usize = 0;
        assert(gfields.skip(0) =~= gfields);
        while i < n
            invariant
                n == self.fields@.len(),
                gfields == self@.fields,
                gfields.len() == n,
                forall|j: int| 0 <= j < n ==> (#[trigger] gfields[j]) == self.fields@[j]@,
                0 <= i <= n,
                field_lookup(gfields, key@) == field_lookup(gfields.skip(i as int), key@),
                forall|j: int| 0 <= j < i ==> (#[trigger] gfields[j].name) != key@,
            decreases n - i,
        {
            assert(gfields.skip(i as int)[0] == gfields[i as int]);
            if str_eq(self.fields[i].name.as_str(), key) {
                return Some(&self.fields[i]);
            }
            assert(gfields.skip(i as int).skip(1) =~= gfields.skip(i + 1));
            i = i + 1;
        }
        assert(gfields.skip(n as int) =~= Seq::<FieldModel>::empty());
        None
    }

    /// The fields a payload would add to this schema, in payload key order.
    #[verifier::loop_isolation(false)]
    pub fn get_new_fields(&self, data: &JsonValue) -> (r: Vec<CollectionField>)
        requires
            data@ is Obj,
        ensures
            r.deep_view() == new_fields_spec(self@.fields, obj_entries(data@)),
    {
        let mut out: Vec<CollectionField> = Vec::new();
        match data {
            JsonValue::Obj(entries) => {
                proof {
                    jv_entries_view_index(entries@);
                }
                let ghost gentries = jv_entries_view(entries@);
                let ghost gfields = self@.fields;
                let n = entries.len();
                let mut i: usize = 0;
                assert(gentries.skip(0) =~= gentries);
                while i < n
                    invariant
                        0 <= i <= n,
                        new_fields_spec(gfields, gentries) =~= out.deep_view() + new_fields_spec(
                            gfields,
                            gentries.skip(i as int),
                        ),
                    decreases n - i,
                {
                    assert(gentries.skip(i as int)[0] == gentries[i as int]);
                    let entry = &entries[i];
                    let known = self.get_field(entry.0.as_str());
                    if known.is_none() && !is_reserved_name(entry.0.as_str()) && !entry.1.is_null()
                    {
                        let field = CollectionField {
                            name: entry.0.clone(),
                            field_type: FieldType::classify(&entry.1),
                            default: None,
                            required: None,
                        };
                        assert(field@ == FieldModel {
                            name: gentries[i as int].0,
                            field_type: classify_spec(gentries[i as int].1),
                            default: None,
                            required: None,
                        });
                        out.push(field);
                    }
                    assert(gentries.skip(i as int).skip(1) =~= gentries.skip(i + 1));
                    i = i + 1;
                }
                assert(gentries.skip(n as int) =~= Seq::<(Seq<char>, JsonVal)>::empty());
                assert(out.deep_view() =~= out.deep_view() + new_fields_spec(
                    gfields,
                    gentries.skip(n as int),
                ));
            },
            _ => {
                assert(false);
            },
        }
        out
    }

    /// Checks every payload key the schema knows against its field's type;
    /// a non-object payload is rejected outright, and the offending keys
    /// come back in payload order.
    #[verifier::loop_isolation(false)]
    pub fn validate(&self, data: &JsonValue) -> (r: Result<(), CollectionError>)
        ensures
            data@ !is Obj ==> (r matches Err(CollectionError::CollectionInputData { collection })
                && collection@ == self@.name),
            data@ is Obj ==> {
                let bad = invalid_keys_spec(self@.fields, obj_entries(data@));
                if bad.len() == 0 {
                    r is Ok
                } else {
                    r matches Err(CollectionError::ValidateFields { collection, fields })
                        && collection@ == self@.name && fields.deep_view() == bad
                }
            },
    {
        let entries = match data {
            JsonValue::Obj(entries) => entries,
            _ => {
                return Err(
                    CollectionError::CollectionInputData { collection: self.name.clone() },
                );
            },
        };
        proof {
            jv_entries_view_index(entries@);
        }
        let ghost gentries = jv_entries_view(entries@);
        let ghost gfields = self@.fields;
        let mut bad: Vec<String> = Vec::new();
        let n = entries.len();
        let mut i: usize = 0;
        assert(gentries.skip(0) =~= gentries);
        while i < n
            invariant
                0 <= i <= n,
                invalid_keys_spec(gfields, gentries) =~= bad.deep_view() + invalid_keys_spec(
                    gfields,
                    gentries.skip(i as int),
                ),
            decreases n - i,
        {
            assert(gentries.skip(i as int)[0] == gentries[i as int]);
            let entry = &entries[i];
            match self.get_field(entry.0.as_str()) {
                Some(field) => {
                    if !field.field_type.is_maybe_exists(&entry.1) {
                        bad.push(entry.0.clone());
                    }
                },
                None => {},
            }
            assert(gentries.skip(i as int).skip(1) =~= gentries.skip(i + 1));
            i = i + 1;
        }
        assert(gentries.skip(n as int) =~= Seq::<(Seq<char>, JsonVal)>::empty());
        assert(bad.deep_view() =~= bad.deep_view() + invalid_keys_spec(
            gfields,
            gentries.skip(n as int),
        ));
        if bad.is_empty() {
            Ok(())
        } else {
            Err(CollectionError::ValidateFields { collection: self.name.clone(), fields: bad })
        }
    }

    /// Substitutes each schema field's default for a missing or null entry
    /// and returns the full object, keyed by every schema field in order.
    /// Used on create, not on partial update.
    #[verifier::loop_isolation(false)]
    pub fn default_values(&self, data: JsonValue) -> (r: JsonValue)
        ensures
            r@ == JsonVal::Obj(defaults_spec(self@.fields, data@)),
            fields_wf(self@.fields) ==> r@.obj_wf(),
    {
        let ghost gfields = self@.fields;
        let mut out: Vec<(String, JsonValue)> = Vec::new();
        let n = self.fields.len();
        let mut i: usize = 0;
        while i < n
            invariant
                0 <= i <= n,
                jv_entries_view(out@) =~= defaults_spec(gfields, data@).take(i as int),
            decreases n - i,
        {
            let field = &self.fields[i];
            let value = match data.get(field.name.as_str()) {
                Some(v) => {
                    if v.is_null() {
                        match &field.default {
                            Some(d) => d.deep_clone(),
                            None => JsonValue::Null,
                        }
                    } else {
                        v.deep_clone()
                    }
                },
                None => {
                    match &field.default {
                        Some(d) => d.deep_clone(),
                        None => JsonValue::Null,
                    }
                },
            };
            assert(value@ == resolved_value(gfields[i as int], data@));
            proof {
                jv_entries_view_index(out@);
            }
            let ghost prev = out@;
            out.push((field.name.clone(), value));
            proof {
                jv_entries_view_index(out@);
                assert forall|j: int| 0 <= j < i + 1 implies jv_entries_view(out@)[j]
                    == defaults_spec(gfields, data@).take(i + 1)[j] by {
                    assert(defaults_spec(gfields, data@).take(i + 1)[j] == defaults_spec(
                        gfields,
                        data@,
                    )[j]);
                    if j < i {
                        assert(out@[j] == prev[j]);
                        assert(jv_entries_view(prev)[j] == defaults_spec(gfields, data@).take(
                            i as int,
                        )[j]);
                    }
                }
                assert(jv_entries_view(out@) =~= defaults_spec(gfields, data@).take(i + 1));
            }
            i = i + 1;
        }
        proof {
            assert(defaults_spec(gfields, data@).take(n as int) =~= defaults_spec(
                gfields,
                data@,
            ));
        }
        let r = JsonValue::Obj(out);
        proof {
            if fields_wf(gfields) {
                assert(r@.obj_wf());
            }
        }
        r
    }

    /// Names the required fields that are still null. On the update path
    /// (`only_exists` set) a required key the payload never mentions is not
    /// reported; on create every required-and-still-null field is.
    #[verifier::loop_isolation(false)]
    pub fn required_values(&self, data: &JsonValue, only_exists: bool) -> (r: Result<
        (),
        CollectionError,
    >)
        ensures
            ({
                let missing = required_missing_spec(self@.fields, data@, only_exists);
                if missing.len() == 0 {
                    r is Ok
                } else {
                    r matches Err(CollectionError::ValidateFields { collection, fields })
                        && collection@ == self@.name && fields.deep_view() == missing
                }
            }),
    {
        let ghost gfields = self@.fields;
        let mut missing: Vec<String> = Vec::new();
        let n = self.fields.len();
        let mut i: usize = 0;
        assert(gfields.skip(0) =~= gfields);
        while i < n
            invariant
                0 <= i <= n,
                required_missing_spec(gfields, data@, only_exists) =~= missing.deep_view()
                    + required_missing_spec(gfields.skip(i as int), data@, only_exists),
            decreases n - i,
        {
            assert(gfields.skip(i as int)[0] == gfields[i as int]);
            let field = &self.fields[i];
            let required = match field.required {
                Some(b) => b,
                None => false,
            };
            if required {
                let value = data.get(field.name.as_str());
                let mentioned = value.is_some();
                let still_null = match value {
                    Some(v) => v.is_null(),
                    None => true,
                };
                if (!only_exists || mentioned) && still_null {
                    missing.push(field.name.clone());
                }
            }
            assert(gfields.skip(i as int).skip(1) =~= gfields.skip(i + 1));
            i = i + 1;
        }
        assert(gfields.skip(n as int) =~= Seq::<FieldModel>::empty());
        assert(missing.deep_view() =~= missing.deep_view() + required_missing_spec(
            gfields.skip(n as int),
            data@,
            only_exists,
        ));
        if missing.is_empty() {
            Ok(())
        } else {
            Err(CollectionError::ValidateFields { collection: self.name.clone(), fields: missing })
        }
    }
}

/// The entry list of an object value.
pub open spec fn obj_entries(v: JsonVal) -> Seq<(Seq<char>, JsonVal)>
    recommends
        v is Obj,
{
    v->Obj_0
}

/// The fields a payload would add are unreserved, absent from the schema,
/// and pairwise distinct when the payload's keys are.
pub proof fn lemma_new_fields_props(fields: Seq<FieldModel>, entries: Seq<(Seq<char>, JsonVal)>)
    requires
        crate::json_value::distinct_keys(entries),
    ensures
        forall|t: int|
            0 <= t < new_fields_spec(fields, entries).len() ==> !is_reserved(
                (#[trigger] new_fields_spec(fields, entries)[t]).name,
            ) && field_lookup(fields, new_fields_spec(fields, entries)[t].name) is None,
        forall|t: int, u: int|
            0 <= t < u < new_fields_spec(fields, entries).len() ==> (#[trigger] new_fields_spec(
                fields,
                entries,
            )[t]).name != (#[trigger] new_fields_spec(fields, entries)[u]).name,
        forall|t: int|
            0 <= t < new_fields_spec(fields, entries).len() ==> exists|k: int|
                0 <= k < entries.len() && (#[trigger] new_fields_spec(fields, entries)[t]).name
                    == (#[trigger] entries[k]).0,
    decreases entries.len(),
{
    let res = new_fields_spec(fields, entries);
    if entries.len() > 0 {
        assert forall|a: int, b: int|
            0 <= a < b < entries.skip(1).len() implies (#[trigger] entries.skip(1)[a]).0 != (
        #[trigger] entries.skip(1)[b]).0 by {
            assert(entries.skip(1)[a] == entries[a + 1]);
            assert(entries.skip(1)[b] == entries[b + 1]);
        }
        lemma_new_fields_props(fields, entries.skip(1));
        let rest = new_fields_spec(fields, entries.skip(1));
        let included = field_lookup(fields, entries[0].0) is None && !is_reserved(entries[0].0)
            && !(entries[0].1 is Null);
        assert forall|t: int| 0 <= t < res.len() implies !is_reserved((#[trigger] res[t]).name)
            && field_lookup(fields, res[t].name) is None && (exists|k: int|
            0 <= k < entries.len() && res[t].name == (#[trigger] entries[k]).0) by {
            if included && t == 0 {
                assert(res[0].name == entries[0].0);
            } else {
                let t2: int = if included {
                    t - 1
                } else {
                    t
                };
                assert(res[t] == rest[t2]);
                let k = choose|k: int|
                    0 <= k < entries.skip(1).len() && (#[trigger] rest[t2]).name == (
                    #[trigger] entries.skip(1)[k]).0;
                assert(entries.skip(1)[k] == entries[k + 1]);
                assert(res[t].name == entries[k + 1].0);
            }
        }
        assert forall|t: int, u: int| 0 <= t < u < res.len() implies (#[trigger] res[t]).name != (
        #[trigger] res[u]).name by {
            if included && t == 0 {
                assert(res[u] == rest[u - 1]);
                let k = choose|k: int|
                    0 <= k < entries.skip(1).len() && (#[trigger] rest[u - 1]).name == (
                    #[trigger] entries.skip(1)[k]).0;
                assert(entries.skip(1)[k] == entries[k + 1]);
                assert(entries[0].0 != entries[k + 1].0);
            } else {
                let t2: int = if included {
                    t - 1
                } else {
                    t
                };
                let u2: int = if included {
                    u - 1
                } else {
                    u
                };
                assert(res[t] == rest[t2] && res[u] == rest[u2]);
            }
        }
    }
}

} // verus!
