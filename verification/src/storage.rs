//! The abstract relational store the engine runs on: a catalog of schemas
//! and, per collection, a sequence of stored rows. The contracts here
//! describe the store's observable behaviour; `MemoryStorage` implements
//! and proves them, and outside backends are written against them.

use vstd::prelude::*;

use crate::collection::{field_lookup, fields_wf, is_reserved, Collection, CollectionModel};
use crate::collection_field::{CollectionField, FieldModel};
use crate::json_value::{distinct_keys, obj_lookup, JsonVal, JsonValue};
use crate::storage_error::StorageError;
use crate::where_attr::{sat_bundle, Where, WhereModel};

verus! {

/// The first cataloged schema called `name`, if any.
pub open spec fn schema_lookup(schemas: Seq<CollectionModel>, name: Seq<char>) -> Option<
    CollectionModel,
>
    decreases schemas.len(),
{
    if schemas.len() == 0 {
        None
    } else if schemas[0].name == name {
        Some(schemas[0])
    } else {
        schema_lookup(schemas.skip(1), name)
    }
}

/// The catalog with the first schema called `name` replaced by `c`.
pub open spec fn schema_replace(
    schemas: Seq<CollectionModel>,
    name: Seq<char>,
    c: CollectionModel,
) -> Seq<CollectionModel>
    decreases schemas.len(),
{
    if schemas.len() == 0 {
        schemas
    } else if schemas[0].name == name {
        seq![c] + schemas.skip(1)
    } else {
        seq![schemas[0]] + schema_replace(schemas.skip(1), name, c)
    }
}

/// The catalog without the first schema called `name`.
pub open spec fn schema_remove(schemas: Seq<CollectionModel>, name: Seq<char>) -> Seq<
    CollectionModel,
>
    decreases schemas.len(),
{
    if schemas.len() == 0 {
        schemas
    } else if schemas[0].name == name {
        schemas.skip(1)
    } else {
        seq![schemas[0]] + schema_remove(schemas.skip(1), name)
    }
}

/// Pairwise distinct schema names, each schema well-formed.
pub open spec fn schemas_wf(schemas: Seq<CollectionModel>) -> bool {
    &&& forall|i: int, j: int|
        0 <= i < j < schemas.len() ==> (#[trigger] schemas[i].name) != (#[trigger] schemas[j].name)
    &&& forall|i: int| 0 <= i < schemas.len() ==> (#[trigger] schemas[i]).wf()
}

/// The id of a stored row: the string under its `id` key, if that is one.
pub open spec fn row_id(row: JsonVal) -> Option<Seq<char>> {
    match row.get("id"@) {
        Some(JsonVal::Str(s)) => Some(s),
        _ => None,
    }
}

/// The value under `key`, with absence modelled as null.
pub open spec fn get_or_null(row: JsonVal, key: Seq<char>) -> JsonVal {
    match row.get(key) {
        Some(v) => v,
        None => JsonVal::Null,
    }
}

/// The first row whose id is `id`, if any.
pub open spec fn row_lookup(rows: Seq<JsonVal>, id: Seq<char>) -> Option<JsonVal>
    decreases rows.len(),
{
    if rows.len() == 0 {
        None
    } else if row_id(rows[0]) == Some(id) {
        Some(rows[0])
    } else {
        row_lookup(rows.skip(1), id)
    }
}

/// Well-formed row sequence: every row is an object with distinct keys and
/// a string id, and ids are pairwise distinct.
pub open spec fn rows_wf(rows: Seq<JsonVal>) -> bool {
    &&& forall|i: int| 0 <= i < rows.len() ==> (#[trigger] rows[i]).obj_wf()
    &&& forall|i: int| 0 <= i < rows.len() ==> row_id(#[trigger] rows[i]) is Some
    &&& forall|i: int, j: int|
        0 <= i < j < rows.len() ==> row_id(#[trigger] rows[i]) != row_id(#[trigger] rows[j])
}

/// Machine limit: every row id leaves room for one longer id.
pub open spec fn ids_below_max(rows: Seq<JsonVal>) -> bool {
    forall|i: int|
        0 <= i < rows.len() ==> (match row_id(#[trigger] rows[i]) {
            Some(s) => s.len() < usize::MAX,
            None => true,
        })
}

/// The tagged wrapper a timestamp decodes to, so that consumers can tell
/// timestamps from ordinary strings.
pub open spec fn ts_value(now: Seq<char>) -> JsonVal {
    JsonVal::Obj(seq![("__type"@, JsonVal::Str("TimeStamp"@)), ("value"@, JsonVal::Str(now))])
}

/// The entries a payload contributes to a fresh row: one per schema field
/// present in the payload, in schema order, null values included.
pub open spec fn insert_fields_spec(fields: Seq<FieldModel>, data: JsonVal) -> Seq<
    (Seq<char>, JsonVal),
>
    decreases fields.len(),
{
    if fields.len() == 0 {
        Seq::empty()
    } else {
        let rest = insert_fields_spec(fields.skip(1), data);
        match data.get(fields[0].name) {
            Some(v) => seq![(fields[0].name, v)] + rest,
            None => rest,
        }
    }
}

/// The id a fresh row receives: the caller's, when the payload holds a
/// string under `id`, else the generated one.
pub open spec fn chosen_id(data: JsonVal, generated: Seq<char>) -> Seq<char> {
    match data.get("id"@) {
        Some(JsonVal::Str(s)) => s,
        _ => generated,
    }
}

/// A freshly stored row: its id, the payload's schema fields, and both
/// timestamps set to the write time.
pub open spec fn insert_row_spec(
    c: CollectionModel,
    data: JsonVal,
    id: Seq<char>,
    now: Seq<char>,
) -> JsonVal {
    JsonVal::Obj(
        seq![("id"@, JsonVal::Str(id))] + insert_fields_spec(c.fields, data) + seq![
            ("created_at"@, ts_value(now)),
            ("updated_at"@, ts_value(now)),
        ],
    )
}

/// The fully materialized form of a stored row under a schema: the three
/// reserved fields first, then every schema field, each null when the row
/// has no value for it.
pub open spec fn materialize_row(c: CollectionModel, row: JsonVal) -> JsonVal {
    JsonVal::Obj(
        seq![
            ("id"@, get_or_null(row, "id"@)),
            ("created_at"@, get_or_null(row, "created_at"@)),
            ("updated_at"@, get_or_null(row, "updated_at"@)),
        ] + Seq::new(c.fields.len(), |i: int| (c.fields[i].name, get_or_null(row, c.fields[i].name))),
    )
}

/// The entry list with the value under `key` replaced, or appended when
/// the key is new.
pub open spec fn obj_set(
    entries: Seq<(Seq<char>, JsonVal)>,
    key: Seq<char>,
    v: JsonVal,
) -> Seq<(Seq<char>, JsonVal)>
    decreases entries.len(),
{
    if entries.len() == 0 {
        seq![(key, v)]
    } else if entries[0].0 == key {
        seq![(key, v)] + entries.skip(1)
    } else {
        seq![entries[0]] + obj_set(entries.skip(1), key, v)
    }
}

/// The row entries after writing every schema field the payload mentions,
/// in schema order.
pub open spec fn update_entries_spec(
    fields: Seq<FieldModel>,
    data: JsonVal,
    entries: Seq<(Seq<char>, JsonVal)>,
) -> Seq<(Seq<char>, JsonVal)>
    decreases fields.len(),
{
    if fields.len() == 0 {
        entries
    } else {
        let after = match data.get(fields[0].name) {
            Some(v) => obj_set(entries, fields[0].name, v),
            None => entries,
        };
        update_entries_spec(fields.skip(1), data, after)
    }
}

/// Whether a payload contributes any column change to an update.
pub open spec fn update_touches(fields: Seq<FieldModel>, data: JsonVal) -> bool {
    exists|i: int| 0 <= i < fields.len() && data.get((#[trigger] fields[i]).name) is Some
}

/// The row after a partial update: the mentioned columns rewritten and the
/// update timestamp bumped, or the row untouched when the payload
/// contributes nothing. The row's id is system-managed and never changes.
pub open spec fn update_row_spec(
    c: CollectionModel,
    row: JsonVal,
    data: JsonVal,
    now: Seq<char>,
) -> JsonVal {
    if update_touches(c.fields, data) {
        JsonVal::Obj(
            obj_set(update_entries_spec(c.fields, data, row->Obj_0), "updated_at"@, ts_value(now)),
        )
    } else {
        row
    }
}

/// Whether a query key names a column of the collection: a reserved field
/// or a declared one.
pub open spec fn known_key(c: CollectionModel, key: Seq<char>) -> bool {
    is_reserved(key) || field_lookup(c.fields, key) is Some
}

/// Whether a row satisfies a whole query: every bundle at a known key must
/// hold of the row's value there; unknown keys are skipped silently.
pub open spec fn matches_query(
    c: CollectionModel,
    query: Seq<(Seq<char>, WhereModel)>,
    row: JsonVal,
) -> bool {
    forall|j: int|
        0 <= j < query.len() ==> (known_key(c, (#[trigger] query[j]).0) ==> sat_bundle(
            query[j].1,
            get_or_null(row, query[j].0),
        ))
}

/// The materialized rows a query selects, in storage order.
pub open spec fn list_spec(
    c: CollectionModel,
    rows: Seq<JsonVal>,
    query: Seq<(Seq<char>, WhereModel)>,
) -> Seq<JsonVal>
    decreases rows.len(),
{
    if rows.len() == 0 {
        Seq::empty()
    } else {
        let rest = list_spec(c, rows.skip(1), query);
        if matches_query(c, query, rows[0]) {
            seq![materialize_row(c, rows[0])] + rest
        } else {
            rest
        }
    }
}

/// What one successful insert does: with `id` the generated fallback and
/// `now` the write time, the fresh row lands at the end of `rows1` and
/// `out` is its materialized form.
pub open spec fn insert_effect(
    c0: CollectionModel,
    rows0: Seq<JsonVal>,
    data: JsonVal,
    id: Seq<char>,
    now: Seq<char>,
    rows1: Seq<JsonVal>,
    out: JsonVal,
) -> bool {
    let row = insert_row_spec(c0, data, chosen_id(data, id), now);
    &&& row_lookup(rows0, chosen_id(data, id)) is None
    &&& rows1 == rows0.push(row)
    &&& out == materialize_row(c0, row)
}

/// What one successful update does: the row under `id` is rewritten as
/// [`update_row_spec`] says with write time `now`, and `out` is its
/// materialized form.
pub open spec fn update_effect(
    c0: CollectionModel,
    rows0: Seq<JsonVal>,
    id: Seq<char>,
    data: JsonVal,
    now: Seq<char>,
    rows1: Seq<JsonVal>,
    out: JsonVal,
) -> bool {
    match row_lookup(rows0, id) {
        Some(row0) => {
            let row1 = update_row_spec(c0, row0, data, now);
            &&& rows1 == replace_row(rows0, id, row1)
            &&& out == materialize_row(c0, row1)
        },
        None => false,
    }
}

/// One successful insert with the generated fallback `id` and write time
/// `now`, under whatever schema the catalog holds for `name`.
pub open spec fn insert_ok_at(
    schemas0: Seq<CollectionModel>,
    rows0: Seq<JsonVal>,
    name: Seq<char>,
    data: JsonVal,
    id: Seq<char>,
    now: Seq<char>,
    rows1: Seq<JsonVal>,
    out: JsonVal,
) -> bool {
    match schema_lookup(schemas0, name) {
        Some(c0) => insert_effect(c0, rows0, data, id, now, rows1, out),
        None => false,
    }
}

/// What a successful insert guarantees: some generated fallback id and
/// write time make [`insert_ok_at`] true.
pub open spec fn insert_ok_post(
    schemas0: Seq<CollectionModel>,
    rows0: Seq<JsonVal>,
    name: Seq<char>,
    data: JsonVal,
    rows1: Seq<JsonVal>,
    out: JsonVal,
) -> bool {
    exists|id: Seq<char>, now: Seq<char>|
        #[trigger] insert_ok_at(schemas0, rows0, name, data, id, now, rows1, out)
}

/// One successful update at write time `now`, under whatever schema the
/// catalog holds for `name`.
pub open spec fn update_ok_at(
    schemas0: Seq<CollectionModel>,
    rows0: Seq<JsonVal>,
    name: Seq<char>,
    id: Seq<char>,
    data: JsonVal,
    now: Seq<char>,
    rows1: Seq<JsonVal>,
    out: JsonVal,
) -> bool {
    match schema_lookup(schemas0, name) {
        Some(c0) => update_effect(c0, rows0, id, data, now, rows1, out),
        None => false,
    }
}

/// What a successful update guarantees: some write time makes
/// [`update_ok_at`] true.
pub open spec fn update_ok_post(
    schemas0: Seq<CollectionModel>,
    rows0: Seq<JsonVal>,
    name: Seq<char>,
    id: Seq<char>,
    data: JsonVal,
    rows1: Seq<JsonVal>,
    out: JsonVal,
) -> bool {
    exists|now: Seq<char>|
        #[trigger] update_ok_at(schemas0, rows0, name, id, data, now, rows1, out)
}

/// The abstract relational store capability the engine requires: schema
/// catalog operations and row CRUD, every one leaving the store in a
/// consistent state. A multi-statement operation either happens whole or
/// leaves the store unchanged.
pub trait Storage: Sized {
    /// The cataloged schemas, in creation order.
    spec fn schemas(&self) -> Seq<CollectionModel>;

    /// The stored rows of the named collection, in insertion order; empty
    /// for a name without a catalog entry.
    spec fn rows_of(&self, name: Seq<char>) -> Seq<JsonVal>;

    /// Internal consistency of the store.
    spec fn inv(&self) -> bool;

    /// What consistency guarantees: a well-formed catalog, well-formed
    /// rows, and no rows outside the catalog.
    proof fn inv_facts(&self)
        requires
            self.inv(),
        ensures
            schemas_wf(self.schemas()),
            forall|n: Seq<char>| rows_wf(#[trigger] self.rows_of(n)),
            forall|n: Seq<char>|
                schema_lookup(self.schemas(), n) is None ==> #[trigger] self.rows_of(n)
                    =~= Seq::<JsonVal>::empty(),
    ;

    /// Every cataloged schema, in catalog order.
    fn get_collections(&self) -> (r: Result<Vec<Collection>, StorageError>)
        requires
            self.inv(),
        ensures
            r matches Ok(cs) && cs.deep_view() == self.schemas(),
    ;

    /// The cataloged schema under this name.
    fn get_collection(&self, collection_name: &str) -> (r: Result<Collection, StorageError>)
        requires
            self.inv(),
        ensures
            match r {
                Ok(c) => schema_lookup(self.schemas(), collection_name@) == Some(c@),
                Err(e) => {
                    &&& schema_lookup(self.schemas(), collection_name@) is None
                    &&& e matches StorageError::CollectionNotFound { collection }
                        && collection@ == collection_name@
                },
            },
    ;

    /// Creates the collection: physical table plus catalog row, in one
    /// transaction. Fails, changing nothing, exactly when the name is
    /// already cataloged.
    fn create_collection(&mut self, collection_name: &str, fields: Vec<CollectionField>) -> (r:
        Result<Collection, StorageError>)
        requires
            old(self).inv(),
            crate::collection::fields_wf(fields.deep_view()),
        ensures
            final(self).inv(),
            match r {
                Ok(c) => {
                    &&& schema_lookup(old(self).schemas(), collection_name@) is None
                    &&& c@.name == collection_name@
                    &&& c@.fields == fields.deep_view()
                    &&& final(self).schemas() == old(self).schemas().push(c@)
                    &&& forall|n: Seq<char>|
                        #[trigger] final(self).rows_of(n) == old(self).rows_of(n)
                },
                Err(e) => {
                    &&& schema_lookup(old(self).schemas(), collection_name@) is Some
                    &&& e matches StorageError::CollectionCreate { collection } && collection@
                        == collection_name@
                    &&& final(self).schemas() == old(self).schemas()
                    &&& forall|n: Seq<char>|
                        #[trigger] final(self).rows_of(n) == old(self).rows_of(n)
                },
            },
    ;

    /// Removes the collection's catalog row and its rows. Fails, changing
    /// nothing, exactly when the name is not cataloged.
    fn remove_collection(&mut self, collection: &Collection) -> (r: Result<(), StorageError>)
        requires
            old(self).inv(),
        ensures
            final(self).inv(),
            match r {
                Ok(_) => {
                    &&& schema_lookup(old(self).schemas(), collection@.name) is Some
                    &&& final(self).schemas() == schema_remove(
                        old(self).schemas(),
                        collection@.name,
                    )
                    &&& final(self).rows_of(collection@.name) =~= Seq::<JsonVal>::empty()
                    &&& forall|n: Seq<char>|
                        n != collection@.name ==> #[trigger] final(self).rows_of(n) == old(
                            self,
                        ).rows_of(n)
                },
                Err(e) => {
                    &&& schema_lookup(old(self).schemas(), collection@.name) is None
                    &&& e matches StorageError::CollectionNotFound { collection: cn } && cn@
                        == collection@.name
                    &&& final(self).schemas() == old(self).schemas()
                    &&& forall|n: Seq<char>|
                        #[trigger] final(self).rows_of(n) == old(self).rows_of(n)
                },
            },
    ;

    /// Adds one column: alters the table and updates the catalog row, in
    /// one transaction. Fails, changing nothing, when the collection is
    /// unknown or the field already exists.
    fn insert_field_to_collection(&mut self, collection: &Collection, field: CollectionField) -> (r:
        Result<Collection, StorageError>)
        requires
            old(self).inv(),
            !is_reserved(field@.name),
        ensures
            final(self).inv(),
            forall|n: Seq<char>| #[trigger] final(self).rows_of(n) == old(self).rows_of(n),
            match r {
                Ok(c2) => {
                    &&& schema_lookup(old(self).schemas(), collection@.name) matches Some(c0)
                        && c2@.fields == c0.fields.push(field@) && field_lookup(
                        c0.fields,
                        field@.name,
                    ) is None
                    &&& c2@.name == collection@.name
                    &&& final(self).schemas() == schema_replace(
                        old(self).schemas(),
                        collection@.name,
                        c2@,
                    )
                },
                Err(e) => {
                    &&& final(self).schemas() == old(self).schemas()
                    &&& match schema_lookup(old(self).schemas(), collection@.name) {
                        None => e matches StorageError::CollectionNotFound { collection: cn }
                            && cn@ == collection@.name,
                        Some(c0) => field_lookup(c0.fields, field@.name) is Some && (
                        e matches StorageError::CollectionFieldExists { collection: cn, field: fname }
                            && cn@ == collection@.name && fname@ == field@.name),
                    }
                },
            },
    ;

    /// Drops one column: alters the table and updates the catalog row, in
    /// one transaction. Stored values under the dropped column become
    /// unobservable through the schema. Fails, changing nothing, when the
    /// collection or the field is unknown.
    fn remove_field_from_collection(
        &mut self,
        collection: &Collection,
        field: CollectionField,
    ) -> (r: Result<Collection, StorageError>)
        requires
            old(self).inv(),
        ensures
            final(self).inv(),
            forall|n: Seq<char>| #[trigger] final(self).rows_of(n) == old(self).rows_of(n),
            match r {
                Ok(c2) => {
                    &&& schema_lookup(old(self).schemas(), collection@.name) matches Some(c0)
                        && c2@.fields == remove_field_model(c0.fields, field@.name)
                        && field_lookup(c0.fields, field@.name) is Some
                    &&& c2@.name == collection@.name
                    &&& final(self).schemas() == schema_replace(
                        old(self).schemas(),
                        collection@.name,
                        c2@,
                    )
                },
                Err(e) => {
                    &&& final(self).schemas() == old(self).schemas()
                    &&& match schema_lookup(old(self).schemas(), collection@.name) {
                        None => e matches StorageError::CollectionNotFound { collection: cn }
                            && cn@ == collection@.name,
                        Some(c0) => field_lookup(c0.fields, field@.name) is None && (
                        e matches StorageError::CollectionFieldExists { collection: cn, field: fname }
                            && cn@ == collection@.name && fname@ == field@.name),
                    }
                },
            },
    ;

    /// Stores one row built from the payload in schema-field order: the
    /// caller's id when supplied as a string, else a fresh one; both
    /// timestamps set server-side; every other schema field taken from the
    /// payload when present. Returns the materialized row. Fails, changing
    /// nothing, when the collection is unknown or a supplied id already
    /// exists.
    fn insert_data_into_collection(&mut self, collection: &Collection, data: JsonValue) -> (r:
        Result<JsonValue, StorageError>)
        requires
            old(self).inv(),
            data@ is Obj,
            ids_below_max(old(self).rows_of(collection@.name)),
        ensures
            final(self).inv(),
            final(self).schemas() == old(self).schemas(),
            forall|n: Seq<char>|
                n != collection@.name ==> #[trigger] final(self).rows_of(n) == old(self).rows_of(n),
            match r {
                Ok(v) => insert_ok_post(
                    old(self).schemas(),
                    old(self).rows_of(collection@.name),
                    collection@.name,
                    data@,
                    final(self).rows_of(collection@.name),
                    v@,
                ),
                Err(e) => {
                    &&& final(self).rows_of(collection@.name) == old(self).rows_of(
                        collection@.name,
                    )
                    &&& match schema_lookup(old(self).schemas(), collection@.name) {
                        None => e matches StorageError::CollectionNotFound { collection: cn }
                            && cn@ == collection@.name,
                        Some(_) => {
                            &&& data@.get("id"@) matches Some(JsonVal::Str(s)) && row_lookup(
                                old(self).rows_of(collection@.name),
                                s,
                            ) is Some
                            &&& e matches StorageError::CollectionCreate { collection: cn } && cn@
                                == collection@.name
                        },
                    }
                },
            },
    ;

    /// Rewrites only the columns the payload mentions, plus the update
    /// timestamp, on the row with this id; a payload contributing nothing
    /// skips the write. Returns the materialized row after the update.
    /// Fails, changing nothing, when the collection or the row is unknown.
    fn update_data_into_collection(
        &mut self,
        collection: &Collection,
        collection_id: &str,
        data: JsonValue,
    ) -> (r: Result<JsonValue, StorageError>)
        requires
            old(self).inv(),
            data@ is Obj,
        ensures
            final(self).inv(),
            final(self).schemas() == old(self).schemas(),
            forall|n: Seq<char>|
                n != collection@.name ==> #[trigger] final(self).rows_of(n) == old(self).rows_of(n),
            match r {
                Ok(v) => update_ok_post(
                    old(self).schemas(),
                    old(self).rows_of(collection@.name),
                    collection@.name,
                    collection_id@,
                    data@,
                    final(self).rows_of(collection@.name),
                    v@,
                ),
                Err(e) => {
                    &&& final(self).rows_of(collection@.name) == old(self).rows_of(
                        collection@.name,
                    )
                    &&& match schema_lookup(old(self).schemas(), collection@.name) {
                        None => e matches StorageError::CollectionNotFound { collection: cn }
                            && cn@ == collection@.name,
                        Some(_) => {
                            &&& row_lookup(
                                old(self).rows_of(collection@.name),
                                collection_id@,
                            ) is None
                            &&& e matches StorageError::ValueNotFound { collection: cn, id } && cn@
                                == collection@.name && id@ == collection_id@
                        },
                    }
                },
            },
    ;

    /// Deletes the row with this id, if one exists. Fails, changing
    /// nothing, exactly when the collection is unknown.
    fn delete_data_from_collection(&mut self, collection: &Collection, collection_id: &str) -> (r:
        Result<JsonValue, StorageError>)
        requires
            old(self).inv(),
        ensures
            final(self).inv(),
            final(self).schemas() == old(self).schemas(),
            forall|n: Seq<char>|
                n != collection@.name ==> #[trigger] final(self).rows_of(n) == old(self).rows_of(n),
            match r {
                Ok(v) => {
                    &&& schema_lookup(old(self).schemas(), collection@.name) is Some
                    &&& final(self).rows_of(collection@.name) == remove_row(
                        old(self).rows_of(collection@.name),
                        collection_id@,
                    )
                    &&& v@ == JsonVal::Null
                },
                Err(e) => {
                    &&& schema_lookup(old(self).schemas(), collection@.name) is None
                    &&& e matches StorageError::CollectionNotFound { collection: cn } && cn@
                        == collection@.name
                    &&& final(self).rows_of(collection@.name) == old(self).rows_of(
                        collection@.name,
                    )
                },
            },
    ;

    /// The materialized row with this id. Fails exactly when the
    /// collection or the row is unknown.
    fn get_data_from_collection(&self, collection: &Collection, collection_id: &str) -> (r: Result<
        JsonValue,
        StorageError,
    >)
        requires
            self.inv(),
        ensures
            match r {
                Ok(v) => {
                    &&& schema_lookup(self.schemas(), collection@.name) matches Some(c0)
                        && row_lookup(self.rows_of(collection@.name), collection_id@) matches Some(
                        row,
                    ) && v@ == materialize_row(c0, row)
                },
                Err(e) => match schema_lookup(self.schemas(), collection@.name) {
                    None => e matches StorageError::CollectionNotFound { collection: cn } && cn@
                        == collection@.name,
                    Some(_) => {
                        &&& row_lookup(self.rows_of(collection@.name), collection_id@) is None
                        &&& e matches StorageError::ValueNotFound { collection: cn, id } && cn@
                            == collection@.name && id@ == collection_id@
                    },
                },
            },
    ;

    /// The materialized rows the query selects, in storage order. Fails
    /// exactly when the collection is unknown.
    fn list_data_from_collection(&self, collection: &Collection, query: &Vec<(String, Where)>) -> (r:
        Result<Vec<JsonValue>, StorageError>)
        requires
            self.inv(),
        ensures
            match r {
                Ok(vs) => {
                    &&& schema_lookup(self.schemas(), collection@.name) matches Some(c0)
                        && vs.deep_view() == list_spec(
                        c0,
                        self.rows_of(collection@.name),
                        query.deep_view(),
                    )
                },
                Err(e) => {
                    &&& schema_lookup(self.schemas(), collection@.name) is None
                    &&& e matches StorageError::CollectionNotFound { collection: cn } && cn@
                        == collection@.name
                },
            },
    ;
}

/// The field list without the first field called `name`.
pub open spec fn remove_field_model(fields: Seq<FieldModel>, name: Seq<char>) -> Seq<FieldModel>
    decreases fields.len(),
{
    if fields.len() == 0 {
        fields
    } else if fields[0].name == name {
        fields.skip(1)
    } else {
        seq![fields[0]] + remove_field_model(fields.skip(1), name)
    }
}

/// The row sequence with the first row of this id replaced.
pub open spec fn replace_row(rows: Seq<JsonVal>, id: Seq<char>, row: JsonVal) -> Seq<JsonVal>
    decreases rows.len(),
{
    if rows.len() == 0 {
        rows
    } else if row_id(rows[0]) == Some(id) {
        seq![row] + rows.skip(1)
    } else {
        seq![rows[0]] + replace_row(rows.skip(1), id, row)
    }
}

/// The row sequence without the rows of this id.
pub open spec fn remove_row(rows: Seq<JsonVal>, id: Seq<char>) -> Seq<JsonVal>
    decreases rows.len(),
{
    if rows.len() == 0 {
        rows
    } else {
        let rest = remove_row(rows.skip(1), id);
        if row_id(rows[0]) == Some(id) {
            rest
        } else {
            seq![rows[0]] + rest
        }
    }
}

// Lookup lemmas: how the recursive first-match functions react to
// absence, push, a point update, and a removal.
pub proof fn lemma_schema_lookup_absent(schemas: Seq<CollectionModel>, name: Seq<char>)
    ensures
        (schema_lookup(schemas, name) is None) <==> (forall|i: int|
            0 <= i < schemas.len() ==> (#[trigger] schemas[i]).name != name),
    decreases schemas.len(),
{
    if schemas.len() > 0 {
        lemma_schema_lookup_absent(schemas.skip(1), name);
        assert forall|i: int|
            0 <= i < schemas.len() && (forall|j: int|
                0 <= j < schemas.skip(1).len() ==> (#[trigger] schemas.skip(1)[j]).name != name)
                && schemas[0].name != name implies (#[trigger] schemas[i]).name != name by {
            if i > 0 {
                assert(schemas.skip(1)[i - 1] == schemas[i]);
            }
        }
        assert forall|j: int| 0 <= j < schemas.skip(1).len() implies #[trigger] schemas.skip(
            1,
        )[j] == schemas[j + 1] by {}
    }
}

pub proof fn lemma_schema_lookup_found(schemas: Seq<CollectionModel>, name: Seq<char>)
    requires
        schema_lookup(schemas, name) is Some,
    ensures
        exists|i: int|
            0 <= i < schemas.len() && (#[trigger] schemas[i]) == schema_lookup(
                schemas,
                name,
            ).unwrap() && schemas[i].name == name,
    decreases schemas.len(),
{
    if schemas[0].name == name {
        assert(schemas[0] == schema_lookup(schemas, name).unwrap());
    } else {
        lemma_schema_lookup_found(schemas.skip(1), name);
        let i = choose|i: int|
            0 <= i < schemas.skip(1).len() && (#[trigger] schemas.skip(1)[i]) == schema_lookup(
                schemas.skip(1),
                name,
            ).unwrap() && schemas.skip(1)[i].name == name;
        assert(schemas[i + 1] == schemas.skip(1)[i]);
    }
}

pub proof fn lemma_schema_lookup_push(
    schemas: Seq<CollectionModel>,
    name: Seq<char>,
    c: CollectionModel,
)
    ensures
        schema_lookup(schemas.push(c), name) == (match schema_lookup(schemas, name) {
            Some(x) => Some(x),
            None => if c.name == name {
                Some(c)
            } else {
                None
            },
        }),
    decreases schemas.len(),
{
    if schemas.len() == 0 {
        assert(schemas.push(c)[0] == c);
        assert(schemas.push(c).skip(1) =~= Seq::<CollectionModel>::empty());
        assert(schema_lookup(schemas.push(c).skip(1), name) is None);
        if c.name == name {
            assert(schema_lookup(schemas.push(c), name) == Some(c));
        } else {
            assert(schema_lookup(schemas.push(c), name) is None);
        }
    } else {
        assert(schemas.push(c)[0] == schemas[0]);
        assert(schemas.push(c).skip(1) =~= schemas.skip(1).push(c));
        lemma_schema_lookup_push(schemas.skip(1), name, c);
        if schemas[0].name == name {
            assert(schema_lookup(schemas.push(c), name) == Some(schemas[0]));
        } else {
            assert(schema_lookup(schemas.push(c), name) == schema_lookup(
                schemas.skip(1).push(c),
                name,
            ));
        }
    }
}

pub proof fn lemma_schema_lookup_update(
    schemas: Seq<CollectionModel>,
    i: int,
    c: CollectionModel,
    name: Seq<char>,
)
    requires
        0 <= i < schemas.len(),
        forall|j: int| 0 <= j < i ==> (#[trigger] schemas[j]).name != schemas[i].name,
        c.name == schemas[i].name,
    ensures
        schema_lookup(schemas.update(i, c), name) == (if name == schemas[i].name {
            Some(c)
        } else {
            schema_lookup(schemas, name)
        }),
        schema_replace(schemas, schemas[i].name, c) =~= schemas.update(i, c),
    decreases schemas.len(),
{
    if i == 0 {
        assert(schemas.update(0, c)[0] == c);
        assert(schemas.update(0, c).skip(1) =~= schemas.skip(1));
        assert(schema_replace(schemas, schemas[0].name, c) =~= schemas.update(0, c));
    } else {
        assert(schemas.update(i, c)[0] == schemas[0]);
        assert(schemas.update(i, c).skip(1) =~= schemas.skip(1).update(i - 1, c));
        assert(schemas.skip(1)[i - 1] == schemas[i]);
        assert forall|j: int| 0 <= j < i - 1 implies (#[trigger] schemas.skip(1)[j]).name
            != schemas.skip(1)[i - 1].name by {
            assert(schemas.skip(1)[j] == schemas[j + 1]);
        }
        lemma_schema_lookup_update(schemas.skip(1), i - 1, c, name);
        assert(schema_replace(schemas, schemas[i].name, c) =~= schemas.update(i, c));
    }
}

/// What a lookup finds when the first occurrence at `i` is taken away.
pub open spec fn schema_lookup_after(
    schemas: Seq<CollectionModel>,
    i: int,
    name: Seq<char>,
) -> Option<CollectionModel> {
    schema_lookup(schemas.skip(i + 1), name)
}

pub proof fn lemma_schema_lookup_remove(schemas: Seq<CollectionModel>, i: int, name: Seq<char>)
    requires
        0 <= i < schemas.len(),
        forall|j: int| 0 <= j < i ==> (#[trigger] schemas[j]).name != schemas[i].name,
    ensures
        schema_remove(schemas, schemas[i].name) =~= schemas.remove(i),
        schema_lookup(schemas.remove(i), name) == (if name == schemas[i].name {
            schema_lookup_after(schemas, i, name)
        } else {
            schema_lookup(schemas, name)
        }),
    decreases schemas.len(),
{
    if i == 0 {
        assert(schemas.remove(0) =~= schemas.skip(1));
        assert(schema_lookup(schemas.remove(0), name) == schema_lookup(schemas.skip(1), name));
        if name != schemas[0].name {
            assert(schema_lookup(schemas, name) == schema_lookup(schemas.skip(1), name));
        }
    } else {
        assert(schemas.remove(i)[0] == schemas[0]);
        assert(schemas.remove(i).skip(1) =~= schemas.skip(1).remove(i - 1));
        assert(schemas.skip(1)[i - 1] == schemas[i]);
        assert forall|j: int| 0 <= j < i - 1 implies (#[trigger] schemas.skip(1)[j]).name
            != schemas.skip(1)[i - 1].name by {
            assert(schemas.skip(1)[j] == schemas[j + 1]);
        }
        lemma_schema_lookup_remove(schemas.skip(1), i - 1, name);
        assert(schemas.skip(1).skip(i) =~= schemas.skip(i + 1));
        assert(schema_remove(schemas, schemas[i].name) =~= schemas.remove(i));
        if name == schemas[i].name {
            assert(schemas[0].name != name);
            assert(schema_lookup(schemas.remove(i), name) == schema_lookup(
                schemas.skip(1).remove(i - 1),
                name,
            ));
        } else {
            if schemas[0].name == name {
                assert(schema_lookup(schemas.remove(i), name) == Some(schemas[0]));
            } else {
                assert(schema_lookup(schemas.remove(i), name) == schema_lookup(
                    schemas.skip(1).remove(i - 1),
                    name,
                ));
            }
        }
    }
}

pub proof fn lemma_schema_lookup_update_all(
    schemas: Seq<CollectionModel>,
    i: int,
    c: CollectionModel,
)
    requires
        0 <= i < schemas.len(),
        forall|j: int| 0 <= j < i ==> (#[trigger] schemas[j]).name != schemas[i].name,
        c.name == schemas[i].name,
    ensures
        forall|n: Seq<char>|
            #[trigger] schema_lookup(schemas.update(i, c), n) == (if n == schemas[i].name {
                Some(c)
            } else {
                schema_lookup(schemas, n)
            }),
        schema_replace(schemas, schemas[i].name, c) =~= schemas.update(i, c),
{
    assert forall|n: Seq<char>| true implies #[trigger] schema_lookup(schemas.update(i, c), n) == (
    if n == schemas[i].name {
        Some(c)
    } else {
        schema_lookup(schemas, n)
    }) by {
        lemma_schema_lookup_update(schemas, i, c, n);
    }
    lemma_schema_lookup_update(schemas, i, c, schemas[i].name);
}

pub proof fn lemma_schema_lookup_remove_all(schemas: Seq<CollectionModel>, i: int)
    requires
        0 <= i < schemas.len(),
        forall|j: int| 0 <= j < i ==> (#[trigger] schemas[j]).name != schemas[i].name,
    ensures
        schema_remove(schemas, schemas[i].name) =~= schemas.remove(i),
        forall|n: Seq<char>|
            #[trigger] schema_lookup(schemas.remove(i), n) == (if n == schemas[i].name {
                schema_lookup(schemas.skip(i + 1), n)
            } else {
                schema_lookup(schemas, n)
            }),
{
    assert forall|n: Seq<char>| true implies #[trigger] schema_lookup(schemas.remove(i), n) == (
    if n == schemas[i].name {
        schema_lookup(schemas.skip(i + 1), n)
    } else {
        schema_lookup(schemas, n)
    }) by {
        lemma_schema_lookup_remove(schemas, i, n);
    }
    lemma_schema_lookup_remove(schemas, i, schemas[i].name);
}

pub proof fn lemma_schema_lookup_push_all(schemas: Seq<CollectionModel>, c: CollectionModel)
    ensures
        forall|n: Seq<char>|
            #[trigger] schema_lookup(schemas.push(c), n) == (match schema_lookup(schemas, n) {
                Some(x) => Some(x),
                None => if c.name == n {
                    Some(c)
                } else {
                    None
                },
            }),
{
    assert forall|n: Seq<char>| true implies #[trigger] schema_lookup(schemas.push(c), n) == (
    match schema_lookup(schemas, n) {
        Some(x) => Some(x),
        None => if c.name == n {
            Some(c)
        } else {
            None
        },
    }) by {
        lemma_schema_lookup_push(schemas, n, c);
    }
}

pub proof fn lemma_schema_replace_lookup(
    schemas: Seq<CollectionModel>,
    name: Seq<char>,
    c: CollectionModel,
    n: Seq<char>,
)
    requires
        c.name == name,
    ensures
        schema_lookup(schema_replace(schemas, name, c), n) == (if n == name && schema_lookup(
            schemas,
            name,
        ) is Some {
            Some(c)
        } else {
            schema_lookup(schemas, n)
        }),
    decreases schemas.len(),
{
    if schemas.len() > 0 {
        if schemas[0].name == name {
            let res = seq![c] + schemas.skip(1);
            assert(res[0] == c);
            assert(res.skip(1) =~= schemas.skip(1));
            if n != name {
                assert(schema_lookup(res, n) == schema_lookup(schemas.skip(1), n));
            }
        } else {
            let res = seq![schemas[0]] + schema_replace(schemas.skip(1), name, c);
            assert(res[0] == schemas[0]);
            assert(res.skip(1) =~= schema_replace(schemas.skip(1), name, c));
            lemma_schema_replace_lookup(schemas.skip(1), name, c, n);
            if schemas[0].name == n {
                assert(schema_lookup(res, n) == Some(schemas[0]));
            } else {
                assert(schema_lookup(res, n) == schema_lookup(
                    schema_replace(schemas.skip(1), name, c),
                    n,
                ));
            }
        }
    }
}

pub proof fn lemma_field_lookup_absent(fields: Seq<FieldModel>, name: Seq<char>)
    ensures
        (field_lookup(fields, name) is None) <==> (forall|i: int|
            0 <= i < fields.len() ==> (#[trigger] fields[i]).name != name),
    decreases fields.len(),
{
    if fields.len() > 0 {
        lemma_field_lookup_absent(fields.skip(1), name);
        if field_lookup(fields, name) is None {
            assert forall|i: int| 0 <= i < fields.len() implies (#[trigger] fields[i]).name
                != name by {
                if i > 0 {
                    assert(fields[i] == fields.skip(1)[i - 1]);
                }
            }
        } else {
            if fields[0].name != name {
                let j = choose|j: int|
                    0 <= j < fields.skip(1).len() && (#[trigger] fields.skip(1)[j]).name == name;
                assert(fields[j + 1] == fields.skip(1)[j]);
            }
        }
    }
}

pub proof fn lemma_schema_lookup_self(schemas: Seq<CollectionModel>)
    requires
        forall|i: int, j: int|
            0 <= i < j < schemas.len() ==> (#[trigger] schemas[i].name) != (
            #[trigger] schemas[j].name),
    ensures
        forall|i: int|
            0 <= i < schemas.len() ==> schema_lookup(schemas, (#[trigger] schemas[i]).name)
                == Some(schemas[i]),
    decreases schemas.len(),
{
    if schemas.len() > 0 {
        assert forall|a: int, b: int|
            0 <= a < b < schemas.skip(1).len() implies (#[trigger] schemas.skip(1)[a].name) != (
        #[trigger] schemas.skip(1)[b].name) by {
            assert(schemas.skip(1)[a] == schemas[a + 1]);
            assert(schemas.skip(1)[b] == schemas[b + 1]);
        }
        lemma_schema_lookup_self(schemas.skip(1));
        assert forall|i: int|
            0 <= i < schemas.len() implies schema_lookup(schemas, (#[trigger] schemas[i]).name)
            == Some(schemas[i]) by {
            if i > 0 {
                assert(schemas.skip(1)[i - 1] == schemas[i]);
                assert(schemas[0].name != schemas[i].name);
                assert(schema_lookup(schemas.skip(1), schemas[i].name) == Some(schemas[i]));
            }
        }
    }
}

pub proof fn lemma_obj_lookup_absent(entries: Seq<(Seq<char>, JsonVal)>, key: Seq<char>)
    ensures
        (obj_lookup(entries, key) is None) <==> (forall|i: int|
            0 <= i < entries.len() ==> (#[trigger] entries[i]).0 != key),
    decreases entries.len(),
{
    if entries.len() > 0 {
        lemma_obj_lookup_absent(entries.skip(1), key);
        if obj_lookup(entries, key) is None {
            assert forall|i: int| 0 <= i < entries.len() implies (#[trigger] entries[i]).0
                != key by {
                if i > 0 {
                    assert(entries[i] == entries.skip(1)[i - 1]);
                }
            }
        } else {
            if entries[0].0 != key {
                let j = choose|j: int|
                    0 <= j < entries.skip(1).len() && (#[trigger] entries.skip(1)[j]).0 == key;
                assert(entries[j + 1] == entries.skip(1)[j]);
            }
        }
    }
}

pub proof fn lemma_obj_set_props(entries: Seq<(Seq<char>, JsonVal)>, key: Seq<char>, v: JsonVal)
    ensures
        forall|k2: Seq<char>|
            #[trigger] obj_lookup(obj_set(entries, key, v), k2) == (if k2 == key {
                Some(v)
            } else {
                obj_lookup(entries, k2)
            }),
        distinct_keys(entries) ==> distinct_keys(obj_set(entries, key, v)),
    decreases entries.len(),
{
    let res = obj_set(entries, key, v);
    if entries.len() == 0 {
        assert forall|k2: Seq<char>| true implies #[trigger] obj_lookup(res, k2) == (if k2 == key {
            Some(v)
        } else {
            obj_lookup(entries, k2)
        }) by {
            assert(res == seq![(key, v)]);
            assert(res[0] == (key, v));
            assert(res.skip(1) =~= Seq::<(Seq<char>, JsonVal)>::empty());
            if k2 == key {
                assert(obj_lookup(res, k2) == Some(v));
            } else {
                assert(obj_lookup(res.skip(1), k2) is None);
                assert(obj_lookup(res, k2) is None);
                assert(obj_lookup(entries, k2) is None);
            }
        }
    } else if entries[0].0 == key {
        assert forall|k2: Seq<char>| true implies #[trigger] obj_lookup(res, k2) == (if k2 == key {
            Some(v)
        } else {
            obj_lookup(entries, k2)
        }) by {
            assert(res[0] == (key, v));
            assert(res.skip(1) =~= entries.skip(1));
        }
        if distinct_keys(entries) {
            assert forall|i: int, j: int| 0 <= i < j < res.len() implies (#[trigger] res[i]).0 != (
            #[trigger] res[j]).0 by {
                if i == 0 {
                    assert(res[j] == entries[j]);
                    assert(entries[0].0 != entries[j].0);
                } else {
                    assert(res[i] == entries[i] && res[j] == entries[j]);
                }
            }
        }
    } else {
        lemma_obj_set_props(entries.skip(1), key, v);
        assert(res[0] == entries[0]);
        assert(res.skip(1) =~= obj_set(entries.skip(1), key, v));
        assert forall|k2: Seq<char>| true implies #[trigger] obj_lookup(res, k2) == (if k2 == key {
            Some(v)
        } else {
            obj_lookup(entries, k2)
        }) by {
            assert(obj_lookup(res.skip(1), k2) == obj_lookup(obj_set(entries.skip(1), key, v), k2));
        }
        if distinct_keys(entries) {
            assert forall|i: int, j: int| 0 <= i < j < entries.skip(1).len() implies (
            #[trigger] entries.skip(1)[i]).0 != (#[trigger] entries.skip(1)[j]).0 by {
                assert(entries.skip(1)[i] == entries[i + 1]);
                assert(entries.skip(1)[j] == entries[j + 1]);
            }
            let rest = obj_set(entries.skip(1), key, v);
            assert(distinct_keys(rest));
            // every key of `rest` is a key of the tail, or `key` itself
            assert forall|i: int, j: int| 0 <= i < j < res.len() implies (#[trigger] res[i]).0 != (
            #[trigger] res[j]).0 by {
                if i == 0 {
                    assert(res[j] == rest[j - 1]);
                    if rest[j - 1].0 == entries[0].0 {
                        assert(obj_lookup(rest, rest[j - 1].0) is Some) by {
                            lemma_obj_lookup_absent(rest, rest[j - 1].0);
                        }
                        assert(obj_lookup(rest, entries[0].0) == obj_lookup(
                            entries.skip(1),
                            entries[0].0,
                        ));
                        lemma_obj_lookup_absent(entries.skip(1), entries[0].0);
                        let m = choose|m: int|
                            0 <= m < entries.skip(1).len() && (#[trigger] entries.skip(1)[m]).0
                                == entries[0].0;
                        assert(entries[m + 1] == entries.skip(1)[m]);
                        assert(false);
                    }
                } else {
                    assert(res[i] == rest[i - 1] && res[j] == rest[j - 1]);
                }
            }
        }
    }
}

pub proof fn lemma_obj_set_update(
    entries: Seq<(Seq<char>, JsonVal)>,
    i: int,
    key: Seq<char>,
    v: JsonVal,
)
    requires
        0 <= i < entries.len(),
        entries[i].0 == key,
        forall|k: int| 0 <= k < i ==> (#[trigger] entries[k]).0 != key,
    ensures
        obj_set(entries, key, v) =~= entries.update(i, (key, v)),
    decreases entries.len(),
{
    if i == 0 {
        assert(entries.update(0, (key, v))[0] == (key, v));
        assert(entries.update(0, (key, v)).skip(1) =~= entries.skip(1));
        assert(obj_set(entries, key, v) =~= entries.update(0, (key, v)));
    } else {
        assert(entries.skip(1)[i - 1] == entries[i]);
        assert forall|k: int| 0 <= k < i - 1 implies (#[trigger] entries.skip(1)[k]).0 != key by {
            assert(entries.skip(1)[k] == entries[k + 1]);
        }
        lemma_obj_set_update(entries.skip(1), i - 1, key, v);
        assert(obj_set(entries, key, v) =~= entries.update(i, (key, v)));
    }
}

pub proof fn lemma_obj_set_append(entries: Seq<(Seq<char>, JsonVal)>, key: Seq<char>, v: JsonVal)
    requires
        forall|k: int| 0 <= k < entries.len() ==> (#[trigger] entries[k]).0 != key,
    ensures
        obj_set(entries, key, v) =~= entries.push((key, v)),
    decreases entries.len(),
{
    if entries.len() == 0 {
        assert(obj_set(entries, key, v) =~= entries.push((key, v)));
    } else {
        assert forall|k: int|
            0 <= k < entries.skip(1).len() implies (#[trigger] entries.skip(1)[k]).0 != key by {
            assert(entries.skip(1)[k] == entries[k + 1]);
        }
        lemma_obj_set_append(entries.skip(1), key, v);
        assert(obj_set(entries, key, v) =~= entries.push((key, v)));
    }
}

pub proof fn lemma_row_lookup_absent(rows: Seq<JsonVal>, id: Seq<char>)
    ensures
        (row_lookup(rows, id) is None) <==> (forall|i: int|
            0 <= i < rows.len() ==> row_id(#[trigger] rows[i]) != Some(id)),
    decreases rows.len(),
{
    if rows.len() > 0 {
        lemma_row_lookup_absent(rows.skip(1), id);
        if row_lookup(rows, id) is None {
            assert forall|i: int| 0 <= i < rows.len() implies row_id(#[trigger] rows[i]) != Some(
                id,
            ) by {
                if i > 0 {
                    assert(rows[i] == rows.skip(1)[i - 1]);
                }
            }
        } else {
            if row_id(rows[0]) != Some(id) {
                let j = choose|j: int|
                    0 <= j < rows.skip(1).len() && row_id(#[trigger] rows.skip(1)[j]) == Some(id);
                assert(rows[j + 1] == rows.skip(1)[j]);
            }
        }
    }
}

pub proof fn lemma_row_lookup_push(rows: Seq<JsonVal>, id: Seq<char>, row: JsonVal)
    ensures
        row_lookup(rows.push(row), id) == (match row_lookup(rows, id) {
            Some(x) => Some(x),
            None => if row_id(row) == Some(id) {
                Some(row)
            } else {
                None
            },
        }),
    decreases rows.len(),
{
    if rows.len() == 0 {
        assert(rows.push(row)[0] == row);
        assert(rows.push(row).skip(1) =~= Seq::<JsonVal>::empty());
        assert(row_lookup(rows.push(row).skip(1), id) is None);
        if row_id(row) == Some(id) {
            assert(row_lookup(rows.push(row), id) == Some(row));
        } else {
            assert(row_lookup(rows.push(row), id) is None);
        }
    } else {
        assert(rows.push(row)[0] == rows[0]);
        assert(rows.push(row).skip(1) =~= rows.skip(1).push(row));
        lemma_row_lookup_push(rows.skip(1), id, row);
        if row_id(rows[0]) == Some(id) {
            assert(row_lookup(rows.push(row), id) == Some(rows[0]));
        } else {
            assert(row_lookup(rows.push(row), id) == row_lookup(rows.skip(1).push(row), id));
        }
    }
}

pub proof fn lemma_replace_row_update(rows: Seq<JsonVal>, i: int, row1: JsonVal, id: Seq<char>)
    requires
        0 <= i < rows.len(),
        row_id(rows[i]) == Some(id),
        forall|k: int| 0 <= k < i ==> row_id(#[trigger] rows[k]) != Some(id),
    ensures
        replace_row(rows, id, row1) =~= rows.update(i, row1),
    decreases rows.len(),
{
    if i == 0 {
        assert(rows.update(0, row1)[0] == row1);
        assert(rows.update(0, row1).skip(1) =~= rows.skip(1));
    } else {
        assert(rows.update(i, row1)[0] == rows[0]);
        assert(rows.update(i, row1).skip(1) =~= rows.skip(1).update(i - 1, row1));
        assert(rows.skip(1)[i - 1] == rows[i]);
        assert forall|k: int| 0 <= k < i - 1 implies row_id(#[trigger] rows.skip(1)[k]) != Some(
            id,
        ) by {
            assert(rows.skip(1)[k] == rows[k + 1]);
        }
        lemma_replace_row_update(rows.skip(1), i - 1, row1, id);
        assert(replace_row(rows, id, row1) =~= rows.update(i, row1));
    }
}

pub proof fn lemma_insert_fields_keys(fields: Seq<FieldModel>, data: JsonVal)
    requires
        fields_wf(fields),
    ensures
        forall|t: int|
            0 <= t < insert_fields_spec(fields, data).len() ==> exists|k: int|
                0 <= k < fields.len() && (#[trigger] insert_fields_spec(fields, data)[t]).0 == (
                #[trigger] fields[k]).name,
        forall|t: int, u: int|
            0 <= t < u < insert_fields_spec(fields, data).len() ==> (#[trigger] insert_fields_spec(
                fields,
                data,
            )[t]).0 != (#[trigger] insert_fields_spec(fields, data)[u]).0,
    decreases fields.len(),
{
    let res = insert_fields_spec(fields, data);
    if fields.len() > 0 {
        assert forall|a: int, b: int|
            0 <= a < b < fields.skip(1).len() implies (#[trigger] fields.skip(1)[a]).name != (
        #[trigger] fields.skip(1)[b]).name by {
            assert(fields.skip(1)[a] == fields[a + 1]);
            assert(fields.skip(1)[b] == fields[b + 1]);
        }
        assert forall|a: int|
            0 <= a < fields.skip(1).len() implies !crate::collection::is_reserved(
            (#[trigger] fields.skip(1)[a]).name,
        ) by {
            assert(fields.skip(1)[a] == fields[a + 1]);
        }
        lemma_insert_fields_keys(fields.skip(1), data);
        let rest = insert_fields_spec(fields.skip(1), data);
        match data.get(fields[0].name) {
            Some(_) => {
                assert forall|t: int| 0 <= t < res.len() implies exists|k: int|
                    0 <= k < fields.len() && (#[trigger] res[t]).0 == (
                    #[trigger] fields[k]).name by {
                    if t == 0 {
                        assert(res[0].0 == fields[0].name);
                    } else {
                        assert(res[t] == rest[t - 1]);
                        let k = choose|k: int|
                            0 <= k < fields.skip(1).len() && (#[trigger] rest[t - 1]).0 == (
                            #[trigger] fields.skip(1)[k]).name;
                        assert(fields.skip(1)[k] == fields[k + 1]);
                        assert(res[t].0 == fields[k + 1].name);
                    }
                }
                assert forall|t: int, u: int| 0 <= t < u < res.len() implies (
                #[trigger] res[t]).0 != (#[trigger] res[u]).0 by {
                    if t == 0 {
                        assert(res[u] == rest[u - 1]);
                        let k = choose|k: int|
                            0 <= k < fields.skip(1).len() && (#[trigger] rest[u - 1]).0 == (
                            #[trigger] fields.skip(1)[k]).name;
                        assert(fields.skip(1)[k] == fields[k + 1]);
                        assert(fields[0].name != fields[k + 1].name);
                    } else {
                        assert(res[t] == rest[t - 1] && res[u] == rest[u - 1]);
                    }
                }
            },
            None => {
                assert forall|t: int| 0 <= t < res.len() implies exists|k: int|
                    0 <= k < fields.len() && (#[trigger] res[t]).0 == (
                    #[trigger] fields[k]).name by {
                    assert(res[t] == rest[t]);
                    let k = choose|k: int|
                        0 <= k < fields.skip(1).len() && (#[trigger] rest[t]).0 == (
                        #[trigger] fields.skip(1)[k]).name;
                    assert(fields.skip(1)[k] == fields[k + 1]);
                }
                assert forall|t: int, u: int| 0 <= t < u < res.len() implies (
                #[trigger] res[t]).0 != (#[trigger] res[u]).0 by {
                    assert(res[t] == rest[t] && res[u] == rest[u]);
                }
            },
        }
    }
}

pub proof fn lemma_insert_row_wf(c: CollectionModel, data: JsonVal, id: Seq<char>, now: Seq<char>)
    requires
        c.wf(),
    ensures
        insert_row_spec(c, data, id, now).obj_wf(),
        row_id(insert_row_spec(c, data, id, now)) == Some(id),
        insert_row_spec(c, data, id, now) is Obj,
{
    let mid = insert_fields_spec(c.fields, data);
    let entries = seq![("id"@, JsonVal::Str(id))] + mid + seq![
        ("created_at"@, ts_value(now)),
        ("updated_at"@, ts_value(now)),
    ];
    let row = insert_row_spec(c, data, id, now);
    lemma_insert_fields_keys(c.fields, data);
    reveal_strlit("id");
    reveal_strlit("created_at");
    reveal_strlit("updated_at");
    let l = mid.len() as int;
    assert("id"@.len() == 2 && "created_at"@.len() == 10 && "updated_at"@.len() == 10);
    assert("created_at"@[0] == 'c' && "updated_at"@[0] == 'u');
    assert(entries[0] == ("id"@, JsonVal::Str(id)));
    assert(entries[1 + l] == ("created_at"@, ts_value(now)));
    assert(entries[2 + l] == ("updated_at"@, ts_value(now)));
    assert forall|t: int, u: int| 0 <= t < u < entries.len() implies (#[trigger] entries[t]).0 != (
    #[trigger] entries[u]).0 by {
        if 1 <= t < 1 + l {
            assert(entries[t] == mid[t - 1]);
            let k = choose|k: int|
                0 <= k < c.fields.len() && (#[trigger] mid[t - 1]).0 == (
                #[trigger] c.fields[k]).name;
            assert(!is_reserved(mid[t - 1].0));
        }
        if 1 <= u < 1 + l {
            assert(entries[u] == mid[u - 1]);
            let k = choose|k: int|
                0 <= k < c.fields.len() && (#[trigger] mid[u - 1]).0 == (
                #[trigger] c.fields[k]).name;
            assert(!is_reserved(mid[u - 1].0));
        }
    }
    assert(row.obj_wf());
    assert(entries[0] == ("id"@, JsonVal::Str(id)));
    assert(obj_lookup(entries, "id"@) == Some(JsonVal::Str(id)));
}

pub proof fn lemma_update_entries_props(
    fields: Seq<FieldModel>,
    data: JsonVal,
    entries: Seq<(Seq<char>, JsonVal)>,
)
    requires
        fields_wf(fields),
    ensures
        obj_lookup(update_entries_spec(fields, data, entries), "id"@) == obj_lookup(
            entries,
            "id"@,
        ),
        distinct_keys(entries) ==> distinct_keys(update_entries_spec(fields, data, entries)),
    decreases fields.len(),
{
    if fields.len() > 0 {
        let after = match data.get(fields[0].name) {
            Some(v) => obj_set(entries, fields[0].name, v),
            None => entries,
        };
        match data.get(fields[0].name) {
            Some(v) => {
                lemma_obj_set_props(entries, fields[0].name, v);
                assert(!is_reserved(fields[0].name));
                reveal_strlit("id");
                assert(fields[0].name != "id"@) by {
                    if fields[0].name == "id"@ {
                        assert(is_reserved(fields[0].name));
                    }
                }
                assert(obj_lookup(after, "id"@) == obj_lookup(entries, "id"@));
            },
            None => {},
        }
        assert forall|a: int, b: int|
            0 <= a < b < fields.skip(1).len() implies (#[trigger] fields.skip(1)[a]).name != (
        #[trigger] fields.skip(1)[b]).name by {
            assert(fields.skip(1)[a] == fields[a + 1]);
            assert(fields.skip(1)[b] == fields[b + 1]);
        }
        assert forall|a: int|
            0 <= a < fields.skip(1).len() implies !crate::collection::is_reserved(
            (#[trigger] fields.skip(1)[a]).name,
        ) by {
            assert(fields.skip(1)[a] == fields[a + 1]);
        }
        lemma_update_entries_props(fields.skip(1), data, after);
    }
}

pub proof fn lemma_update_entries_untouched(
    fields: Seq<FieldModel>,
    data: JsonVal,
    entries: Seq<(Seq<char>, JsonVal)>,
)
    requires
        !update_touches(fields, data),
    ensures
        update_entries_spec(fields, data, entries) == entries,
    decreases fields.len(),
{
    if fields.len() > 0 {
        assert(data.get(fields[0].name) is None);
        assert forall|a: int|
            0 <= a < fields.skip(1).len() implies data.get(
            (#[trigger] fields.skip(1)[a]).name,
        ) is None by {
            assert(fields.skip(1)[a] == fields[a + 1]);
        }
        lemma_update_entries_untouched(fields.skip(1), data, entries);
    }
}

pub proof fn lemma_remove_row_wf(rows: Seq<JsonVal>, id: Seq<char>)
    requires
        rows_wf(rows),
    ensures
        rows_wf(remove_row(rows, id)),
        forall|t: int|
            0 <= t < remove_row(rows, id).len() ==> exists|k: int|
                0 <= k < rows.len() && (#[trigger] remove_row(rows, id)[t]) == rows[k],
        row_lookup(remove_row(rows, id), id) is None,
    decreases rows.len(),
{
    let res = remove_row(rows, id);
    if rows.len() > 0 {
        assert forall|a: int, b: int|
            0 <= a < b < rows.skip(1).len() implies row_id(#[trigger] rows.skip(1)[a]) != row_id(
            #[trigger] rows.skip(1)[b],
        ) by {
            assert(rows.skip(1)[a] == rows[a + 1]);
            assert(rows.skip(1)[b] == rows[b + 1]);
        }
        assert forall|a: int| 0 <= a < rows.skip(1).len() implies (#[trigger] rows.skip(
            1,
        )[a]).obj_wf() && row_id(rows.skip(1)[a]) is Some by {
            assert(rows.skip(1)[a] == rows[a + 1]);
        }
        lemma_remove_row_wf(rows.skip(1), id);
        let rest = remove_row(rows.skip(1), id);
        if row_id(rows[0]) == Some(id) {
            assert forall|t: int| 0 <= t < res.len() implies exists|k: int|
                0 <= k < rows.len() && (#[trigger] res[t]) == rows[k] by {
                let k = choose|k: int|
                    0 <= k < rows.skip(1).len() && (#[trigger] rest[t]) == rows.skip(1)[k];
                assert(rows.skip(1)[k] == rows[k + 1]);
                assert(res[t] == rows[k + 1]);
            }
        } else {
            assert forall|t: int| 0 <= t < res.len() implies exists|k: int|
                0 <= k < rows.len() && (#[trigger] res[t]) == rows[k] by {
                if t == 0 {
                    assert(res[0] == rows[0]);
                } else {
                    assert(res[t] == rest[t - 1]);
                    let k = choose|k: int|
                        0 <= k < rows.skip(1).len() && (#[trigger] rest[t - 1]) == rows.skip(1)[k];
                    assert(rows.skip(1)[k] == rows[k + 1]);
                }
            }
            assert forall|a: int, b: int| 0 <= a < b < res.len() implies row_id(
                #[trigger] res[a],
            ) != row_id(#[trigger] res[b]) by {
                if a == 0 {
                    assert(res[b] == rest[b - 1]);
                    let k = choose|k: int|
                        0 <= k < rows.skip(1).len() && (#[trigger] rest[b - 1]) == rows.skip(1)[k];
                    assert(rows.skip(1)[k] == rows[k + 1]);
                    assert(row_id(rows[0]) != row_id(rows[k + 1]));
                } else {
                    assert(res[a] == rest[a - 1] && res[b] == rest[b - 1]);
                }
            }
            assert forall|a: int| 0 <= a < res.len() implies (#[trigger] res[a]).obj_wf()
                && row_id(res[a]) is Some by {
                if a == 0 {
                    assert(res[0] == rows[0]);
                } else {
                    assert(res[a] == rest[a - 1]);
                }
            }
            assert(row_lookup(res, id) is None) by {
                lemma_row_lookup_absent(res, id);
                lemma_row_lookup_absent(rest, id);
                assert forall|a: int| 0 <= a < res.len() implies row_id(#[trigger] res[a]) != Some(
                    id,
                ) by {
                    if a > 0 {
                        assert(res[a] == rest[a - 1]);
                    }
                }
            }
        }
    }
}

pub proof fn lemma_update_row_props(c: CollectionModel, row: JsonVal, data: JsonVal, now: Seq<char>)
    requires
        c.wf(),
        row.obj_wf(),
    ensures
        update_row_spec(c, row, data, now).obj_wf(),
        row_id(update_row_spec(c, row, data, now)) == row_id(row),
        update_row_spec(c, row, data, now) is Obj ==> true,
        row is Obj ==> update_row_spec(c, row, data, now) is Obj,
{
    if update_touches(c.fields, data) {
        let entries = row->Obj_0;
        let mid = update_entries_spec(c.fields, data, entries);
        lemma_update_entries_props(c.fields, data, entries);
        lemma_obj_set_props(mid, "updated_at"@, ts_value(now));
        reveal_strlit("id");
        reveal_strlit("updated_at");
        assert("updated_at"@ != "id"@) by {
            assert("updated_at"@.len() == 10);
            assert("id"@.len() == 2);
        }
        let fin = obj_set(mid, "updated_at"@, ts_value(now));
        assert(obj_lookup(fin, "id"@) == obj_lookup(mid, "id"@));
        assert(row.get("id"@) == obj_lookup(entries, "id"@));
        assert(update_row_spec(c, row, data, now).get("id"@) == obj_lookup(fin, "id"@));
    }
}

} // verus!
