//! The bundled storage backend: an in-memory relational store that
//! implements and proves the whole [`Storage`] contract. It stands where a
//! relational engine would, with a logical clock for timestamps and
//! length-graded generated ids.

use vstd::prelude::*;

use crate::collection::{field_lookup, fields_wf, is_reserved_name, Collection, CollectionModel};
use crate::collection_field::{CollectionField, FieldModel};
use crate::json_value::{jv_entries_view, jv_entries_view_index, jv_view, JsonVal, JsonValue};
use crate::storage::{
    chosen_id, get_or_null, ids_below_max, insert_effect, insert_fields_spec, insert_row_spec,
    known_key, lemma_insert_row_wf, lemma_obj_set_append, lemma_obj_set_update,
    lemma_remove_row_wf, lemma_replace_row_update, lemma_row_lookup_absent,
    lemma_update_entries_untouched, lemma_update_row_props, list_spec, materialize_row,
    matches_query, obj_set, remove_field_model, remove_row, replace_row, row_id, row_lookup,
    insert_ok_at, insert_ok_post, lemma_field_lookup_absent, lemma_schema_lookup_absent, lemma_schema_lookup_found,
    lemma_schema_lookup_push, lemma_schema_lookup_push_all, lemma_schema_lookup_remove,
    lemma_schema_lookup_remove_all, lemma_schema_lookup_update, lemma_schema_lookup_update_all,
    update_ok_at, update_ok_post,
    rows_wf, schema_lookup, schema_remove, schema_replace, schemas_wf, ts_value, update_effect,
    update_entries_spec, update_row_spec, update_touches, Storage,
};
use crate::storage_error::StorageError;
use crate::util::{str_eq, string_from_chars, u64_to_string};
use crate::where_attr::{sat_bundle, Where};

verus! {

/// One collection's rows, stored next to its name.
pub struct MemoryTable {
    pub name: String,
    pub rows: Vec<JsonValue>,
}

/// The in-memory store: the schema catalog, one table per collection, and
/// a logical clock that timestamps writes.
pub struct MemoryStorage {
    pub schemas: Vec<Collection>,
    pub tables: Vec<MemoryTable>,
    pub clock: u64,
}

/// The rows of the first table called `name`, if any.
pub open spec fn tables_lookup(tables: Seq<MemoryTable>, name: Seq<char>) -> Option<Seq<JsonVal>>
    decreases tables.len(),
{
    if tables.len() == 0 {
        None
    } else if tables[0].name@ == name {
        Some(tables[0].rows.deep_view())
    } else {
        tables_lookup(tables.skip(1), name)
    }
}

impl MemoryStorage {
    /// An empty store.
    pub fn new() -> (r: MemoryStorage)
        ensures
            r.inv(),
            r.schemas() == Seq::<CollectionModel>::empty(),
            forall|n: Seq<char>| #[trigger] r.rows_of(n) == Seq::<JsonVal>::empty(),
    {
        let r = MemoryStorage { schemas: Vec::new(), tables: Vec::new(), clock: 0 };
        proof {
            assert(r.schemas.deep_view() =~= Seq::<CollectionModel>::empty());
        }
        r
    }

    /// The logical write time, advancing the clock.
    fn tick(&mut self) -> (r: u64)
        ensures
            final(self).schemas == old(self).schemas,
            final(self).tables == old(self).tables,
    {
        let t = self.clock;
        if self.clock < u64::MAX {
            self.clock = self.clock + 1;
        }
        t
    }
}

impl Storage for MemoryStorage {
    open spec fn schemas(&self) -> Seq<CollectionModel> {
        self.schemas.deep_view()
    }

    open spec fn rows_of(&self, name: Seq<char>) -> Seq<JsonVal> {
        match tables_lookup(self.tables@, name) {
            Some(rows) => rows,
            None => Seq::empty(),
        }
    }

    open spec fn inv(&self) -> bool {
        &&& schemas_wf(self.schemas.deep_view())
        &&& forall|i: int, j: int|
            0 <= i < j < self.tables@.len() ==> (#[trigger] self.tables@[i]).name@ != (
            #[trigger] self.tables@[j]).name@
        &&& forall|i: int|
            0 <= i < self.tables@.len() ==> (schema_lookup(
                self.schemas.deep_view(),
                (#[trigger] self.tables@[i]).name@,
            ) is None ==> self.tables@[i].rows@.len() == 0)
        &&& forall|i: int|
            0 <= i < self.schemas@.len() ==> tables_lookup(
                self.tables@,
                (#[trigger] self.schemas@[i])@.name,
            ) is Some
        &&& forall|i: int|
            0 <= i < self.tables@.len() ==> rows_wf((#[trigger] self.tables@[i]).rows.deep_view())
    }

    proof fn inv_facts(&self) {
        assert forall|n: Seq<char>| rows_wf(#[trigger] self.rows_of(n)) by {
            if tables_lookup(self.tables@, n) is Some {
                lemma_tables_lookup_found(self.tables@, n);
            } else {
                assert(self.rows_of(n) =~= Seq::<JsonVal>::empty());
            }
        }
        assert forall|n: Seq<char>|
            schema_lookup(self.schemas(), n) is None implies #[trigger] self.rows_of(n)
            =~= Seq::<JsonVal>::empty() by {
            if tables_lookup(self.tables@, n) is Some {
                lemma_tables_lookup_found(self.tables@, n);
                let i = choose|i: int|
                    0 <= i < self.tables@.len() && (#[trigger] self.tables@[i]).name@ == n
                        && tables_lookup(self.tables@, n) == Some(
                        self.tables@[i].rows.deep_view(),
                    );
                assert(self.tables@[i].rows@.len() == 0);
                assert(self.tables@[i].rows.deep_view() =~= Seq::<JsonVal>::empty());
            }
        }
    }

    fn get_collections(&self) -> (r: Result<Vec<Collection>, StorageError>) {
        let n = self.schemas.len();
        let mut out: Vec<Collection> = Vec::new();
        let mut i: usize = 0;
        while i < n
            invariant
                n == self.schemas@.len(),
                0 <= i <= n,
                out@.len() == i,
                forall|j: int| 0 <= j < i ==> (#[trigger] out@[j])@ == self.schemas@[j]@,
            decreases n - i,
        {
            out.push(self.schemas[i].deep_clone());
            i = i + 1;
        }
        proof {
            assert(out.deep_view() =~= self.schemas.deep_view());
        }
        Ok(out)
    }

    fn get_collection(&self, collection_name: &str) -> (r: Result<Collection, StorageError>) {
        match self.find_schema(collection_name) {
            Some(i) => Ok(self.schemas[i].deep_clone()),
            None => Err(
                StorageError::CollectionNotFound { collection: collection_name.to_owned() },
            ),
        }
    }

    fn create_collection(&mut self, collection_name: &str, fields: Vec<CollectionField>) -> (r:
        Result<Collection, StorageError>) {
        let ghost schemas0 = self.schemas.deep_view();
        let ghost tables0 = self.tables@;
        match self.find_schema(collection_name) {
            Some(_) => Err(
                StorageError::CollectionCreate { collection: collection_name.to_owned() },
            ),
            None => {
                let ts = self.tick();
                let stamp: i64 = if ts < 0x7fff_ffff_ffff_ffff {
                    ts as i64
                } else {
                    0
                };
                let c = Collection {
                    name: collection_name.to_owned(),
                    fields,
                    created_at: stamp,
                    updated_at: stamp,
                };
                let result = c.deep_clone();
                proof {
                    lemma_schema_lookup_absent(schemas0, collection_name@);
                }
                self.schemas.push(c);
                proof {
                    assert(self.schemas.deep_view() =~= schemas0.push(result@));
                    lemma_schema_lookup_push_all(schemas0, result@);
                }
                let has_table = self.find_table(collection_name).is_some();
                if !has_table {
                    let table = MemoryTable { name: collection_name.to_owned(), rows: Vec::new() };
                    self.tables.push(table);
                    proof {
                        lemma_tables_lookup_push_all(tables0, self.tables@[tables0.len() as int]);
                    }
                }
                proof {
                    assert forall|n: Seq<char>| #[trigger] self.rows_of(n) == old(self).rows_of(
                        n,
                    ) by {
                        if n == collection_name@ && tables_lookup(tables0, n) is None {
                            assert(self.rows_of(n) =~= Seq::<JsonVal>::empty());
                            assert(old(self).rows_of(n) =~= Seq::<JsonVal>::empty());
                        }
                        if n == collection_name@ && tables_lookup(tables0, n) is Some {
                            lemma_tables_lookup_found(tables0, n);
                            let i = choose|i: int|
                                0 <= i < tables0.len() && (#[trigger] tables0[i]).name@ == n
                                    && tables_lookup(tables0, n) == Some(
                                    tables0[i].rows.deep_view(),
                                );
                            assert(tables0[i].rows@.len() == 0);
                            assert(tables0[i].rows.deep_view() =~= Seq::<JsonVal>::empty());
                        }
                    }
                    assert(self.inv()) by {
                        let s1 = self.schemas.deep_view();
                        assert forall|i: int| 0 <= i < s1.len() implies (#[trigger] s1[i]).wf() by {
                            if i < schemas0.len() {
                                assert(s1[i] == schemas0[i]);
                            } else {
                                assert(s1[i] == result@);
                            }
                        }
                        assert forall|i: int, j: int| 0 <= i < j < s1.len() implies (
                        #[trigger] s1[i]).name != (#[trigger] s1[j]).name by {
                            if j < schemas0.len() {
                                assert(s1[i] == schemas0[i] && s1[j] == schemas0[j]);
                            } else {
                                assert(s1[i] == schemas0[i]);
                                assert(s1[j].name == collection_name@);
                            }
                        }
                        assert forall|i: int, j: int| 0 <= i < j < self.tables@.len() implies (
                        #[trigger] self.tables@[i]).name@ != (#[trigger] self.tables@[j]).name@ by {
                            if j < tables0.len() {
                                assert(self.tables@[i] == tables0[i]);
                                assert(self.tables@[j] == tables0[j]);
                            } else {
                                if i < tables0.len() {
                                    assert(self.tables@[i] == tables0[i]);
                                    lemma_tables_lookup_absent(tables0, collection_name@);
                                }
                            }
                        }
                        assert forall|i: int|
                            0 <= i < self.tables@.len() implies (schema_lookup(
                            s1,
                            (#[trigger] self.tables@[i]).name@,
                        ) is None ==> self.tables@[i].rows@.len() == 0) by {
                            if i < tables0.len() {
                                assert(self.tables@[i] == tables0[i]);
                            }
                        }
                        assert forall|i: int|
                            0 <= i < self.schemas@.len() implies tables_lookup(
                            self.tables@,
                            (#[trigger] self.schemas@[i])@.name,
                        ) is Some by {
                            if !has_table {
                                assert(self.tables@ =~= tables0.push(
                                    self.tables@[tables0.len() as int],
                                ));
                            }
                            if i < schemas0.len() {
                                assert(self.schemas@[i] == old(self).schemas@[i]);
                            }
                        }
                        assert forall|i: int|
                            0 <= i < self.tables@.len() implies rows_wf(
                            (#[trigger] self.tables@[i]).rows.deep_view(),
                        ) by {
                            if i < tables0.len() {
                                assert(self.tables@[i] == tables0[i]);
                            } else {
                                assert(self.tables@[i].rows.deep_view() =~= Seq::<
                                    JsonVal,
                                >::empty());
                            }
                        }
                    }
                }
                Ok(result)
            },
        }
    }

    fn remove_collection(&mut self, collection: &Collection) -> (r: Result<(), StorageError>) {
        let ghost schemas0 = self.schemas.deep_view();
        let ghost tables0 = self.tables@;
        match self.find_schema(collection.name.as_str()) {
            None => Err(StorageError::CollectionNotFound { collection: collection.name.clone() }),
            Some(i) => {
                proof {
                    lemma_schema_lookup_remove_all(schemas0, i as int);
                }
                self.schemas.remove(i);
                proof {
                    assert(self.schemas.deep_view() =~= schemas0.remove(i as int));
                }
                match self.find_table(collection.name.as_str()) {
                    Some(j) => {
                        let old_t = self.tables.remove(j);
                        self.tables.insert(j, MemoryTable { name: old_t.name, rows: Vec::new() });
                        proof {
                            assert(self.tables@[j as int].name@ == collection.name@);
                            assert(self.tables@ =~= tables0.update(
                                j as int,
                                self.tables@[j as int],
                            ));
                            lemma_tables_lookup_update_all(
                                tables0,
                                j as int,
                                self.tables@[j as int],
                            );
                            assert(self.tables@[j as int].rows.deep_view() =~= Seq::<
                                JsonVal,
                            >::empty());
                            assert forall|k: int|
                                0 <= k < tables0.len() && (#[trigger] tables0[k]).name@
                                    == collection.name@ implies self.tables@[k].rows@.len()
                                == 0 by {
                                if k != j {
                                    assert(tables0[j as int].name@ == collection.name@);
                                    assert(false);
                                }
                            }
                        }
                    },
                    None => {
                        proof {
                            assert(old(self).schemas@[i as int]@.name == collection.name@);
                            assert(tables_lookup(tables0, collection.name@) is Some);
                            assert(false);
                        }
                    },
                }
                proof {
                    let s1 = self.schemas.deep_view();
                    let name = collection.name@;
                    assert(schemas0[i as int].name == name);
                    assert(s1 =~= schema_remove(schemas0, name));
                    assert(self.rows_of(name) =~= Seq::<JsonVal>::empty());
                    assert forall|n: Seq<char>|
                        n != name implies #[trigger] self.rows_of(n) == old(self).rows_of(n) by {}
                    assert(self.inv()) by {
                        lemma_remove_keeps_inv(*old(self), *self, schemas0, i as int);
                    }
                }
                Ok(())
            },
        }
    }

    fn insert_field_to_collection(&mut self, collection: &Collection, field: CollectionField) -> (r:
        Result<Collection, StorageError>) {
        let ghost schemas0 = self.schemas.deep_view();
        match self.find_schema(collection.name.as_str()) {
            None => Err(StorageError::CollectionNotFound { collection: collection.name.clone() }),
            Some(i) => {
                let ghost c0 = schemas0[i as int];
                if self.schemas[i].get_field(field.name.as_str()).is_some() {
                    return Err(
                        StorageError::CollectionFieldExists {
                            collection: collection.name.clone(),
                            field: field.name.clone(),
                        },
                    );
                }
                let mut c2 = self.schemas[i].deep_clone();
                let ts = self.tick();
                let stamp: i64 = if ts < 0x7fff_ffff_ffff_ffff {
                    ts as i64
                } else {
                    0
                };
                proof {
                    lemma_field_lookup_absent(c0.fields, field@.name);
                }
                let ghost gfield = field@;
                c2.fields.push(field);
                c2.updated_at = stamp;
                let result = c2.deep_clone();
                proof {
                    assert(c2@.fields =~= c0.fields.push(gfield));
                }
                self.schemas.set(i, c2);
                proof {
                    let name = collection.name@;
                    assert(self.schemas.deep_view() =~= schemas0.update(i as int, result@));
                    lemma_schema_lookup_update_all(schemas0, i as int, result@);
                    assert(self.schemas.deep_view() =~= schema_replace(schemas0, name, result@));
                    assert(result@.fields =~= c0.fields.push(gfield));
                    assert(self.inv()) by {
                        assert(fields_wf(result@.fields)) by {
                            let fs = result@.fields;
                            assert forall|a: int, b: int| 0 <= a < b < fs.len() implies (
                            #[trigger] fs[a]).name != (#[trigger] fs[b]).name by {
                                if b < c0.fields.len() {
                                    assert(fs[a] == c0.fields[a] && fs[b] == c0.fields[b]);
                                } else {
                                    if a < c0.fields.len() {
                                        assert(fs[a] == c0.fields[a]);
                                    }
                                }
                            }
                            assert forall|a: int| 0 <= a < fs.len() implies !crate::collection::is_reserved(
                                (#[trigger] fs[a]).name,
                            ) by {
                                if a < c0.fields.len() {
                                    assert(fs[a] == c0.fields[a]);
                                }
                            }
                        }
                        lemma_update_keeps_inv(*old(self), *self, schemas0, i as int, result@);
                    }
                }
                Ok(result)
            },
        }
    }

    fn remove_field_from_collection(
        &mut self,
        collection: &Collection,
        field: CollectionField,
    ) -> (r: Result<Collection, StorageError>) {
        let ghost schemas0 = self.schemas.deep_view();
        match self.find_schema(collection.name.as_str()) {
            None => Err(StorageError::CollectionNotFound { collection: collection.name.clone() }),
            Some(i) => {
                let ghost c0 = schemas0[i as int];
                let jf = match find_field_index(&self.schemas[i].fields, field.name.as_str()) {
                    None => {
                        proof {
                            lemma_field_lookup_absent(c0.fields, field@.name);
                        }
                        return Err(
                            StorageError::CollectionFieldExists {
                                collection: collection.name.clone(),
                                field: field.name.clone(),
                            },
                        );
                    },
                    Some(jf) => jf,
                };
                let mut c2 = self.schemas[i].deep_clone();
                let ts = self.tick();
                let stamp: i64 = if ts < 0x7fff_ffff_ffff_ffff {
                    ts as i64
                } else {
                    0
                };
                c2.fields.remove(jf);
                c2.updated_at = stamp;
                let result = c2.deep_clone();
                proof {
                    lemma_field_lookup_remove(c0.fields, jf as int);
                    assert(result@.fields =~= c0.fields.remove(jf as int));
                    assert(result@.fields =~= remove_field_model(c0.fields, field@.name));
                }
                self.schemas.set(i, c2);
                proof {
                    let name = collection.name@;
                    assert(self.schemas.deep_view() =~= schemas0.update(i as int, result@));
                    lemma_schema_lookup_update_all(schemas0, i as int, result@);
                    assert(self.schemas.deep_view() =~= schema_replace(schemas0, name, result@));
                    assert(self.inv()) by {
                        assert(fields_wf(result@.fields)) by {
                            let fs = result@.fields;
                            assert forall|a: int, b: int| 0 <= a < b < fs.len() implies (
                            #[trigger] fs[a]).name != (#[trigger] fs[b]).name by {
                                let a0: int = if a < jf {
                                    a
                                } else {
                                    a + 1
                                };
                                let b0: int = if b < jf {
                                    b
                                } else {
                                    b + 1
                                };
                                assert(fs[a] == c0.fields[a0] && fs[b] == c0.fields[b0]);
                            }
                            assert forall|a: int| 0 <= a < fs.len() implies !crate::collection::is_reserved(
                                (#[trigger] fs[a]).name,
                            ) by {
                                let a0: int = if a < jf {
                                    a
                                } else {
                                    a + 1
                                };
                                assert(fs[a] == c0.fields[a0]);
                            }
                        }
                        lemma_update_keeps_inv(*old(self), *self, schemas0, i as int, result@);
                    }
                }
                Ok(result)
            },
        }
    }

    #[verifier::rlimit(100)]
    #[verifier::spinoff_prover]
    fn insert_data_into_collection(&mut self, collection: &Collection, data: JsonValue) -> (r:
        Result<JsonValue, StorageError>) {
        let ghost schemas0 = self.schemas.deep_view();
        let ghost tables0 = self.tables@;
        let i = match self.find_schema(collection.name.as_str()) {
            None => {
                return Err(
                    StorageError::CollectionNotFound { collection: collection.name.clone() },
                );
            },
            Some(i) => i,
        };
        let ghost c0 = schemas0[i as int];
        let j = match self.find_table(collection.name.as_str()) {
            None => {
                proof {
                    assert(old(self).schemas@[i as int]@.name == collection.name@);
                    assert(false);
                }
                return Err(
                    StorageError::CollectionNotFound { collection: collection.name.clone() },
                );
            },
            Some(j) => j,
        };
        let ghost grows = tables0[j as int].rows.deep_view();
        let supplied: Option<String> = match data.get("id") {
            Some(JsonValue::Str(s)) => Some(s.clone()),
            _ => None,
        };
        let id: String = match supplied {
            Some(s) => {
                if find_row(&self.tables[j].rows, s.as_str()).is_some() {
                    return Err(
                        StorageError::CollectionCreate { collection: collection.name.clone() },
                    );
                }
                s
            },
            None => gen_fresh_id(&self.tables[j].rows),
        };
        proof {
            assert(chosen_id(data@, id@) == id@);
            assert(row_lookup(grows, id@) is None);
        }
        let ts = self.tick();
        let now = u64_to_string(ts);
        let row = build_insert_row(&self.schemas[i], &data, id, now.as_str());
        let out = materialize(&self.schemas[i], &row);
        let ghost grow = row@;
        let mut t = self.tables.remove(j);
        t.rows.push(row);
        self.tables.insert(j, t);
        proof {
            let name = collection.name@;
            assert(self.tables@ =~= tables0.update(j as int, self.tables@[j as int]));
            assert(self.tables@[j as int].name@ == name);
            assert(self.tables@[j as int].rows.deep_view() =~= grows.push(grow));
            lemma_tables_lookup_update_all(tables0, j as int, self.tables@[j as int]);
            assert(self.rows_of(name) == grows.push(grow));
            assert(old(self).rows_of(name) == grows);
            lemma_insert_row_wf(c0, data@, id@, now@);
            assert(insert_effect(c0, grows, data@, id@, now@, self.rows_of(name), out@));
            assert(self.schemas.deep_view() == schemas0);
            assert(self.inv()) by {
                lemma_row_lookup_absent(grows, id@);
                assert(rows_wf(grows.push(grow))) by {
                    assert forall|a: int| 0 <= a < grows.push(grow).len() implies (
                    #[trigger] grows.push(grow)[a]).obj_wf() && row_id(
                        grows.push(grow)[a],
                    ) is Some by {
                        if a < grows.len() {
                            assert(grows.push(grow)[a] == grows[a]);
                        } else {
                            assert(grows.push(grow)[a] == grow);
                        }
                    }
                    assert forall|a: int, b: int| 0 <= a < b < grows.push(grow).len() implies
                        row_id(#[trigger] grows.push(grow)[a]) != row_id(
                        #[trigger] grows.push(grow)[b],
                    ) by {
                        if b < grows.len() {
                            assert(grows.push(grow)[a] == grows[a]);
                            assert(grows.push(grow)[b] == grows[b]);
                        } else {
                            assert(grows.push(grow)[a] == grows[a]);
                            assert(grows.push(grow)[b] == grow);
                            assert(row_id(grows[a]) != Some(id@));
                        }
                    }
                }
                lemma_data_write_keeps_inv(*old(self), *self, j as int);
            }
            assert(schema_lookup(old(self).schemas(), collection@.name) == Some(c0));
            assert(insert_effect(
                c0,
                old(self).rows_of(collection@.name),
                data@,
                id@,
                now@,
                self.rows_of(collection@.name),
                out@,
            ));
            assert(insert_ok_at(
                old(self).schemas(),
                old(self).rows_of(collection@.name),
                collection@.name,
                data@,
                id@,
                now@,
                self.rows_of(collection@.name),
                out@,
            ));
            assert(insert_ok_post(
                old(self).schemas(),
                old(self).rows_of(collection@.name),
                collection@.name,
                data@,
                self.rows_of(collection@.name),
                out@,
            ));
            assert(self.schemas() == old(self).schemas());
            assert forall|n: Seq<char>|
                n != collection@.name implies #[trigger] self.rows_of(n) == old(self).rows_of(
                n,
            ) by {
                assert(tables_lookup(self.tables@, n) == tables_lookup(
                    tables0.update(j as int, self.tables@[j as int]),
                    n,
                ));
            }
        }
        Ok(out)
    }

    #[verifier::rlimit(100)]
    #[verifier::spinoff_prover]
    fn update_data_into_collection(
        &mut self,
        collection: &Collection,
        collection_id: &str,
        data: JsonValue,
    ) -> (r: Result<JsonValue, StorageError>) {
        let ghost schemas0 = self.schemas.deep_view();
        let ghost tables0 = self.tables@;
        let i = match self.find_schema(collection.name.as_str()) {
            None => {
                return Err(
                    StorageError::CollectionNotFound { collection: collection.name.clone() },
                );
            },
            Some(i) => i,
        };
        let ghost c0 = schemas0[i as int];
        let j = match self.find_table(collection.name.as_str()) {
            None => {
                proof {
                    assert(old(self).schemas@[i as int]@.name == collection.name@);
                    assert(false);
                }
                return Err(
                    StorageError::CollectionNotFound { collection: collection.name.clone() },
                );
            },
            Some(j) => j,
        };
        let ghost grows = tables0[j as int].rows.deep_view();
        let k = match find_row(&self.tables[j].rows, collection_id) {
            None => {
                return Err(
                    StorageError::ValueNotFound {
                        collection: collection.name.clone(),
                        id: collection_id.to_owned(),
                    },
                );
            },
            Some(k) => k,
        };
        let ghost row0 = grows[k as int];
        let ts = self.tick();
        let now = u64_to_string(ts);
        let row0c = self.tables[j].rows[k].deep_clone();
        let mut entries: Vec<(String, JsonValue)> = match row0c {
            JsonValue::Obj(entries) => entries,
            _ => {
                proof {
                    assert(row0.obj_wf());
                    assert(false);
                }
                return Err(
                    StorageError::ValueNotFound {
                        collection: collection.name.clone(),
                        id: collection_id.to_owned(),
                    },
                );
            },
        };
        let ghost gentries0 = jv_entries_view(entries@);
        proof {
            assert(row0 == JsonVal::Obj(gentries0));
        }
        let nf = self.schemas[i].fields.len();
        let ghost gfields = c0.fields;
        let mut m: usize = 0;
        let mut touched = false;
        proof {
            assert(gfields.skip(0) =~= gfields);
        }
        while m < nf
            invariant
                nf == self.schemas@[i as int].fields@.len(),
                0 <= i < self.schemas@.len(),
                gfields == self.schemas@[i as int]@.fields,
                gfields.len() == nf,
                0 <= m <= nf,
                update_entries_spec(gfields, data@, gentries0) == update_entries_spec(
                    gfields.skip(m as int),
                    data@,
                    jv_entries_view(entries@),
                ),
                touched == exists|m2: int|
                    0 <= m2 < m && data@.get((#[trigger] gfields[m2]).name) is Some,
            decreases nf - m,
        {
            assert(gfields.skip(m as int)[0] == gfields[m as int]);
            assert(gfields[m as int] == self.schemas@[i as int].fields@[m as int]@);
            let field = &self.schemas[i].fields[m];
            match data.get(field.name.as_str()) {
                Some(v) => {
                    obj_set_exec(&mut entries, field.name.as_str(), v.deep_clone());
                    touched = true;
                    assert(data@.get(gfields[m as int].name) is Some);
                },
                None => {
                    assert(data@.get(gfields[m as int].name) is None);
                },
            }
            assert(gfields.skip(m as int).skip(1) =~= gfields.skip(m + 1));
            m = m + 1;
        }
        proof {
            assert(gfields.skip(nf as int) =~= Seq::<FieldModel>::empty());
            assert(update_entries_spec(gfields, data@, gentries0) == jv_entries_view(entries@));
            assert(touched == update_touches(gfields, data@));
        }
        let row1: JsonValue = if touched {
            obj_set_exec(&mut entries, "updated_at", make_ts(now.as_str()));
            JsonValue::Obj(entries)
        } else {
            proof {
                lemma_update_entries_untouched(gfields, data@, gentries0);
            }
            JsonValue::Obj(entries)
        };
        proof {
            assert(row1@ == update_row_spec(c0, row0, data@, now@));
        }
        let out = materialize(&self.schemas[i], &row1);
        let ghost grow1 = row1@;
        let mut t = self.tables.remove(j);
        t.rows.set(k, row1);
        self.tables.insert(j, t);
        proof {
            let name = collection.name@;
            assert(self.tables@ =~= tables0.update(j as int, self.tables@[j as int]));
            assert(self.tables@[j as int].name@ == name);
            assert(self.tables@[j as int].rows.deep_view() =~= grows.update(k as int, grow1));
            lemma_tables_lookup_update_all(tables0, j as int, self.tables@[j as int]);
            assert(self.rows_of(name) == grows.update(k as int, grow1));
            assert(old(self).rows_of(name) == grows);
            assert(rows_wf(grows));
            assert(row0.obj_wf());
            lemma_update_row_props(c0, row0, data@, now@);
            lemma_replace_row_update(grows, k as int, grow1, collection_id@);
            assert(replace_row(grows, collection_id@, grow1) =~= grows.update(k as int, grow1));
            assert(update_effect(c0, grows, collection_id@, data@, now@, self.rows_of(name), out@));
            assert(self.schemas.deep_view() == schemas0);
            assert(self.inv()) by {
                assert(rows_wf(grows.update(k as int, grow1))) by {
                    let rs = grows.update(k as int, grow1);
                    assert(row_id(grow1) == row_id(row0));
                    assert forall|a: int| 0 <= a < rs.len() implies (#[trigger] rs[a]).obj_wf()
                        && row_id(rs[a]) is Some by {
                        if a != k {
                            assert(rs[a] == grows[a]);
                        }
                    }
                    assert forall|a: int, b: int| 0 <= a < b < rs.len() implies row_id(
                        #[trigger] rs[a],
                    ) != row_id(#[trigger] rs[b]) by {
                        assert(row_id(rs[a]) == row_id(grows[a]));
                        assert(row_id(rs[b]) == row_id(grows[b]));
                    }
                }
                lemma_data_write_keeps_inv(*old(self), *self, j as int);
            }
            assert(schema_lookup(old(self).schemas(), collection@.name) == Some(c0));
            assert(update_effect(
                c0,
                old(self).rows_of(collection@.name),
                collection_id@,
                data@,
                now@,
                self.rows_of(collection@.name),
                out@,
            ));
            assert(update_ok_at(
                old(self).schemas(),
                old(self).rows_of(collection@.name),
                collection@.name,
                collection_id@,
                data@,
                now@,
                self.rows_of(collection@.name),
                out@,
            ));
            assert(update_ok_post(
                old(self).schemas(),
                old(self).rows_of(collection@.name),
                collection@.name,
                collection_id@,
                data@,
                self.rows_of(collection@.name),
                out@,
            ));
            assert(self.schemas() == old(self).schemas());
            assert forall|n: Seq<char>|
                n != collection@.name implies #[trigger] self.rows_of(n) == old(self).rows_of(
                n,
            ) by {
                assert(tables_lookup(self.tables@, n) == tables_lookup(
                    tables0.update(j as int, self.tables@[j as int]),
                    n,
                ));
            }
        }
        Ok(out)
    }

    fn delete_data_from_collection(&mut self, collection: &Collection, collection_id: &str) -> (r:
        Result<JsonValue, StorageError>) {
        let ghost schemas0 = self.schemas.deep_view();
        let ghost tables0 = self.tables@;
        let i = match self.find_schema(collection.name.as_str()) {
            None => {
                return Err(
                    StorageError::CollectionNotFound { collection: collection.name.clone() },
                );
            },
            Some(i) => i,
        };
        let j = match self.find_table(collection.name.as_str()) {
            None => {
                proof {
                    assert(old(self).schemas@[i as int]@.name == collection.name@);
                    assert(false);
                }
                return Err(
                    StorageError::CollectionNotFound { collection: collection.name.clone() },
                );
            },
            Some(j) => j,
        };
        let ghost grows = tables0[j as int].rows.deep_view();
        let n = self.tables[j].rows.len();
        let mut out: Vec<JsonValue> = Vec::new();
        let mut k: usize = 0;
        proof {
            assert(grows.skip(0) =~= grows);
        }
        while k < n
            invariant
                0 <= j < self.tables@.len(),
                n == self.tables@[j as int].rows@.len(),
                grows == self.tables@[j as int].rows.deep_view(),
                grows.len() == n,
                0 <= k <= n,
                remove_row(grows, collection_id@) =~= out.deep_view() + remove_row(
                    grows.skip(k as int),
                    collection_id@,
                ),
            decreases n - k,
        {
            assert(grows.skip(k as int)[0] == grows[k as int]);
            let keep = !row_id_matches(&self.tables[j].rows[k], collection_id);
            if keep {
                let ghost prev = out.deep_view();
                out.push(self.tables[j].rows[k].deep_clone());
                proof {
                    assert(out.deep_view() =~= prev.push(grows[k as int]));
                }
            }
            assert(grows.skip(k as int).skip(1) =~= grows.skip(k + 1));
            k = k + 1;
        }
        proof {
            assert(grows.skip(n as int) =~= Seq::<JsonVal>::empty());
            assert(out.deep_view() =~= remove_row(grows, collection_id@));
        }
        let mut t = self.tables.remove(j);
        t.rows = out;
        self.tables.insert(j, t);
        proof {
            let name = collection.name@;
            assert(self.tables@ =~= tables0.update(j as int, self.tables@[j as int]));
            assert(self.tables@[j as int].name@ == name);
            lemma_tables_lookup_update_all(tables0, j as int, self.tables@[j as int]);
            assert(self.rows_of(name) == remove_row(grows, collection_id@));
            assert(self.schemas.deep_view() == schemas0);
            assert(self.inv()) by {
                lemma_remove_row_wf(grows, collection_id@);
                lemma_data_write_keeps_inv(*old(self), *self, j as int);
            }
        }
        Ok(JsonValue::Null)
    }

    fn get_data_from_collection(&self, collection: &Collection, collection_id: &str) -> (r: Result<
        JsonValue,
        StorageError,
    >) {
        let i = match self.find_schema(collection.name.as_str()) {
            None => {
                return Err(
                    StorageError::CollectionNotFound { collection: collection.name.clone() },
                );
            },
            Some(i) => i,
        };
        let j = match self.find_table(collection.name.as_str()) {
            None => {
                proof {
                    assert(self.schemas@[i as int]@.name == collection.name@);
                    assert(false);
                }
                return Err(
                    StorageError::CollectionNotFound { collection: collection.name.clone() },
                );
            },
            Some(j) => j,
        };
        match find_row(&self.tables[j].rows, collection_id) {
            None => Err(
                StorageError::ValueNotFound {
                    collection: collection.name.clone(),
                    id: collection_id.to_owned(),
                },
            ),
            Some(k) => Ok(materialize(&self.schemas[i], &self.tables[j].rows[k])),
        }
    }

    fn list_data_from_collection(&self, collection: &Collection, query: &Vec<(String, Where)>) -> (r:
        Result<Vec<JsonValue>, StorageError>) {
        let i = match self.find_schema(collection.name.as_str()) {
            None => {
                return Err(
                    StorageError::CollectionNotFound { collection: collection.name.clone() },
                );
            },
            Some(i) => i,
        };
        let ghost c0 = self.schemas.deep_view()[i as int];
        let j = match self.find_table(collection.name.as_str()) {
            None => {
                proof {
                    assert(self.schemas@[i as int]@.name == collection.name@);
                    assert(false);
                }
                return Err(
                    StorageError::CollectionNotFound { collection: collection.name.clone() },
                );
            },
            Some(j) => j,
        };
        let ghost grows = self.tables@[j as int].rows.deep_view();
        let ghost gq = query.deep_view();
        let n = self.tables[j].rows.len();
        let mut out: Vec<JsonValue> = Vec::new();
        let mut k: usize = 0;
        proof {
            assert(grows.skip(0) =~= grows);
        }
        while k < n
            invariant
                0 <= i < self.schemas@.len(),
                c0 == self.schemas@[i as int]@,
                0 <= j < self.tables@.len(),
                n == self.tables@[j as int].rows@.len(),
                grows == self.tables@[j as int].rows.deep_view(),
                grows.len() == n,
                gq == query.deep_view(),
                0 <= k <= n,
                list_spec(c0, grows, gq) =~= out.deep_view() + list_spec(
                    c0,
                    grows.skip(k as int),
                    gq,
                ),
            decreases n - k,
        {
            assert(grows.skip(k as int)[0] == grows[k as int]);
            if eval_query(&self.schemas[i], query, &self.tables[j].rows[k]) {
                let ghost prev = out.deep_view();
                out.push(materialize(&self.schemas[i], &self.tables[j].rows[k]));
                proof {
                    assert(out.deep_view() =~= prev.push(materialize_row(c0, grows[k as int])));
                }
            }
            assert(grows.skip(k as int).skip(1) =~= grows.skip(k + 1));
            k = k + 1;
        }
        proof {
            assert(grows.skip(n as int) =~= Seq::<JsonVal>::empty());
            assert(out.deep_view() =~= list_spec(c0, grows, gq));
        }
        Ok(out)
    }
}

impl MemoryStorage {
    /// The index of the cataloged schema under `name`, if any.
    fn find_schema(&self, name: &str) -> (r: Option<usize>)
        ensures
            match r {
                Some(i) => {
                    &&& 0 <= i < self.schemas@.len()
                    &&& self.schemas@[i as int]@.name == name@
                    &&& forall|j: int|
                        0 <= j < i ==> (#[trigger] self.schemas@[j])@.name != name@
                    &&& schema_lookup(self.schemas.deep_view(), name@) == Some(
                        self.schemas@[i as int]@,
                    )
                },
                None => schema_lookup(self.schemas.deep_view(), name@) is None,
            },
    {
        let ghost gs = self.schemas.deep_view();
        let n = self.schemas.len();
        let mut i: usize = 0;
        assert(gs.skip(0) =~= gs);
        while i < n
            invariant
                n == self.schemas@.len(),
                gs == self.schemas.deep_view(),
                gs.len() == n,
                0 <= i <= n,
                forall|j: int| 0 <= j < n ==> (#[trigger] gs[j]) == self.schemas@[j]@,
                forall|j: int| 0 <= j < i ==> (#[trigger] gs[j]).name != name@,
                schema_lookup(gs, name@) == schema_lookup(gs.skip(i as int), name@),
            decreases n - i,
        {
            assert(gs.skip(i as int)[0] == gs[i as int]);
            if str_eq(self.schemas[i].name.as_str(), name) {
                proof {
                    assert(gs[i as int].name == name@);
                    assert(schema_lookup(gs.skip(i as int), name@) == Some(gs[i as int]));
                    assert forall|j: int| 0 <= j < i implies (#[trigger] self.schemas@[j])@.name
                        != name@ by {
                        assert(gs[j] == self.schemas@[j]@);
                        assert(gs[j].name != name@);
                    }
                }
                return Some(i);
            }
            assert(gs.skip(i as int).skip(1) =~= gs.skip(i + 1));
            i = i + 1;
        }
        assert(gs.skip(n as int) =~= Seq::<CollectionModel>::empty());
        None
    }

    /// The index of the table under `name`, if any.
    fn find_table(&self, name: &str) -> (r: Option<usize>)
        ensures
            match r {
                Some(i) => {
                    &&& 0 <= i < self.tables@.len()
                    &&& self.tables@[i as int].name@ == name@
                    &&& forall|j: int| 0 <= j < i ==> (#[trigger] self.tables@[j]).name@ != name@
                    &&& tables_lookup(self.tables@, name@) == Some(
                        self.tables@[i as int].rows.deep_view(),
                    )
                },
                None => tables_lookup(self.tables@, name@) is None,
            },
    {
        let ghost gt = self.tables@;
        let n = self.tables.len();
        let mut i: usize = 0;
        assert(gt.skip(0) =~= gt);
        while i < n
            invariant
                n == gt.len(),
                gt == self.tables@,
                0 <= i <= n,
                forall|j: int| 0 <= j < i ==> (#[trigger] gt[j]).name@ != name@,
                tables_lookup(gt, name@) == tables_lookup(gt.skip(i as int), name@),
            decreases n - i,
        {
            assert(gt.skip(i as int)[0] == gt[i as int]);
            if str_eq(self.tables[i].name.as_str(), name) {
                return Some(i);
            }
            assert(gt.skip(i as int).skip(1) =~= gt.skip(i + 1));
            i = i + 1;
        }
        assert(gt.skip(n as int) =~= Seq::<MemoryTable>::empty());
        None
    }
}

proof fn lemma_tables_lookup_absent(tables: Seq<MemoryTable>, name: Seq<char>)
    ensures
        (tables_lookup(tables, name) is None) <==> (forall|i: int|
            0 <= i < tables.len() ==> (#[trigger] tables[i]).name@ != name),
    decreases tables.len(),
{
    if tables.len() > 0 {
        lemma_tables_lookup_absent(tables.skip(1), name);
        if tables_lookup(tables, name) is None {
            assert forall|i: int| 0 <= i < tables.len() implies (#[trigger] tables[i]).name@
                != name by {
                if i > 0 {
                    assert(tables[i] == tables.skip(1)[i - 1]);
                }
            }
        } else {
            if tables[0].name@ != name {
                let j = choose|j: int|
                    0 <= j < tables.skip(1).len() && (#[trigger] tables.skip(1)[j]).name@ == name;
                assert(tables[j + 1] == tables.skip(1)[j]);
            }
        }
    }
}

proof fn lemma_tables_lookup_found(tables: Seq<MemoryTable>, name: Seq<char>)
    requires
        tables_lookup(tables, name) is Some,
    ensures
        exists|i: int|
            0 <= i < tables.len() && (#[trigger] tables[i]).name@ == name && tables_lookup(
                tables,
                name,
            ) == Some(tables[i].rows.deep_view()),
    decreases tables.len(),
{
    if tables[0].name@ == name {
    } else {
        lemma_tables_lookup_found(tables.skip(1), name);
        let i = choose|i: int|
            0 <= i < tables.skip(1).len() && (#[trigger] tables.skip(1)[i]).name@ == name
                && tables_lookup(tables.skip(1), name) == Some(tables.skip(1)[i].rows.deep_view());
        assert(tables[i + 1] == tables.skip(1)[i]);
    }
}

proof fn lemma_tables_lookup_push_all(tables: Seq<MemoryTable>, t: MemoryTable)
    ensures
        forall|n: Seq<char>|
            #[trigger] tables_lookup(tables.push(t), n) == (match tables_lookup(tables, n) {
                Some(x) => Some(x),
                None => if t.name@ == n {
                    Some(t.rows.deep_view())
                } else {
                    None
                },
            }),
{
    assert forall|n: Seq<char>| true implies #[trigger] tables_lookup(tables.push(t), n) == (
    match tables_lookup(tables, n) {
        Some(x) => Some(x),
        None => if t.name@ == n {
            Some(t.rows.deep_view())
        } else {
            None
        },
    }) by {
        lemma_tables_lookup_push(tables, n, t);
    }
}

proof fn lemma_tables_lookup_push(tables: Seq<MemoryTable>, name: Seq<char>, t: MemoryTable)
    ensures
        tables_lookup(tables.push(t), name) == (match tables_lookup(tables, name) {
            Some(x) => Some(x),
            None => if t.name@ == name {
                Some(t.rows.deep_view())
            } else {
                None
            },
        }),
    decreases tables.len(),
{
    if tables.len() == 0 {
        assert(tables.push(t)[0] == t);
        assert(tables.push(t).skip(1) =~= Seq::<MemoryTable>::empty());
        assert(tables_lookup(tables.push(t).skip(1), name) is None);
        assert(tables.push(t)[0].rows.deep_view() == t.rows.deep_view());
        if t.name@ == name {
            assert(tables_lookup(tables.push(t), name) == Some(t.rows.deep_view()));
        } else {
            assert(tables_lookup(tables.push(t), name) is None);
        }
    } else {
        assert(tables.push(t)[0] == tables[0]);
        assert(tables.push(t).skip(1) =~= tables.skip(1).push(t));
        lemma_tables_lookup_push(tables.skip(1), name, t);
        assert(tables.push(t)[0].rows.deep_view() == tables[0].rows.deep_view());
    }
}

proof fn lemma_tables_lookup_update(tables: Seq<MemoryTable>, j: int, t: MemoryTable, name: Seq<char>)
    requires
        0 <= j < tables.len(),
        forall|k: int| 0 <= k < j ==> (#[trigger] tables[k]).name@ != tables[j].name@,
        t.name@ == tables[j].name@,
    ensures
        tables_lookup(tables.update(j, t), name) == (if name == tables[j].name@ {
            Some(t.rows.deep_view())
        } else {
            tables_lookup(tables, name)
        }),
    decreases tables.len(),
{
    if j == 0 {
        assert(tables.update(0, t)[0] == t);
        assert(tables.update(0, t).skip(1) =~= tables.skip(1));
    } else {
        assert(tables.update(j, t)[0] == tables[0]);
        assert(tables.update(j, t).skip(1) =~= tables.skip(1).update(j - 1, t));
        assert(tables.skip(1)[j - 1] == tables[j]);
        assert forall|k: int| 0 <= k < j - 1 implies (#[trigger] tables.skip(1)[k]).name@
            != tables.skip(1)[j - 1].name@ by {
            assert(tables.skip(1)[k] == tables[k + 1]);
        }
        lemma_tables_lookup_update(tables.skip(1), j - 1, t, name);
        if tables[0].name@ == name {
            assert(tables_lookup(tables.update(j, t), name) == Some(tables[0].rows.deep_view()));
        }
    }
}

proof fn lemma_tables_lookup_update_all(tables: Seq<MemoryTable>, j: int, t: MemoryTable)
    requires
        0 <= j < tables.len(),
        forall|k: int| 0 <= k < j ==> (#[trigger] tables[k]).name@ != tables[j].name@,
        t.name@ == tables[j].name@,
    ensures
        forall|n: Seq<char>|
            #[trigger] tables_lookup(tables.update(j, t), n) == (if n == tables[j].name@ {
                Some(t.rows.deep_view())
            } else {
                tables_lookup(tables, n)
            }),
{
    assert forall|n: Seq<char>| true implies #[trigger] tables_lookup(tables.update(j, t), n) == (
    if n == tables[j].name@ {
        Some(t.rows.deep_view())
    } else {
        tables_lookup(tables, n)
    }) by {
        lemma_tables_lookup_update(tables, j, t, n);
    }
}

proof fn lemma_field_lookup_remove(fields: Seq<FieldModel>, j: int)
    requires
        0 <= j < fields.len(),
        forall|k: int| 0 <= k < j ==> (#[trigger] fields[k]).name != fields[j].name,
    ensures
        remove_field_model(fields, fields[j].name) =~= fields.remove(j),
    decreases fields.len(),
{
    if j == 0 {
        assert(fields.remove(0) =~= fields.skip(1));
    } else {
        assert(fields.remove(j)[0] == fields[0]);
        assert(fields.remove(j).skip(1) =~= fields.skip(1).remove(j - 1));
        assert(fields.skip(1)[j - 1] == fields[j]);
        assert forall|k: int| 0 <= k < j - 1 implies (#[trigger] fields.skip(1)[k]).name
            != fields.skip(1)[j - 1].name by {
            assert(fields.skip(1)[k] == fields[k + 1]);
        }
        lemma_field_lookup_remove(fields.skip(1), j - 1);
        assert(remove_field_model(fields, fields[j].name) =~= fields.remove(j));
    }
}

/// The index of the first field called `name`, if any.
fn find_field_index(fields: &Vec<CollectionField>, name: &str) -> (r: Option<usize>)
    ensures
        match r {
            Some(j) => {
                &&& 0 <= j < fields@.len()
                &&& fields@[j as int]@.name == name@
                &&& forall|k: int| 0 <= k < j ==> (#[trigger] fields@[k])@.name != name@
                &&& field_lookup(fields.deep_view(), name@) == Some(fields@[j as int]@)
            },
            None => field_lookup(fields.deep_view(), name@) is None,
        },
{
    let ghost gf = fields.deep_view();
    let n = fields.len();
    let mut i: usize = 0;
    assert(gf.skip(0) =~= gf);
    while i < n
        invariant
            n == fields@.len(),
            gf == fields.deep_view(),
            gf.len() == n,
            0 <= i <= n,
            forall|k: int| 0 <= k < n ==> (#[trigger] gf[k]) == fields@[k]@,
            forall|k: int| 0 <= k < i ==> (#[trigger] gf[k]).name != name@,
            field_lookup(gf, name@) == field_lookup(gf.skip(i as int), name@),
        decreases n - i,
    {
        assert(gf.skip(i as int)[0] == gf[i as int]);
        if str_eq(fields[i].name.as_str(), name) {
            proof {
                assert(field_lookup(gf.skip(i as int), name@) == Some(gf[i as int]));
                assert forall|k: int| 0 <= k < i implies (#[trigger] fields@[k])@.name != name@ by {
                    assert(gf[k] == fields@[k]@);
                }
            }
            return Some(i);
        }
        assert(gf.skip(i as int).skip(1) =~= gf.skip(i + 1));
        i = i + 1;
    }
    assert(gf.skip(n as int) =~= Seq::<FieldModel>::empty());
    None
}

proof fn lemma_remove_keeps_inv(
    pre: MemoryStorage,
    post: MemoryStorage,
    schemas0: Seq<CollectionModel>,
    i: int,
)
    requires
        pre.inv(),
        schemas0 == pre.schemas.deep_view(),
        0 <= i < schemas0.len(),
        post.schemas.deep_view() == schemas0.remove(i),
        post.tables@.len() == pre.tables@.len(),
        forall|k: int|
            0 <= k < post.tables@.len() ==> (#[trigger] post.tables@[k]).name@
                == pre.tables@[k].name@,
        forall|k: int|
            0 <= k < post.tables@.len() ==> ((#[trigger] post.tables@[k]) == pre.tables@[k]
                || post.tables@[k].rows@.len() == 0),
        forall|k: int|
            0 <= k < pre.tables@.len() && (#[trigger] pre.tables@[k]).name@ == schemas0[i].name
                ==> post.tables@[k].rows@.len() == 0,
    ensures
        post.inv(),
{
    let s0 = schemas0;
    let s1 = post.schemas.deep_view();
    assert forall|a: int| 0 <= a < s1.len() implies #[trigger] s1[a] == s0[if a < i {
        a
    } else {
        a + 1
    }] by {}
    assert forall|a: int| 0 <= a < s1.len() implies (#[trigger] s1[a]).wf() by {
        let a0: int = if a < i {
            a
        } else {
            a + 1
        };
        assert(s1[a] == s0[a0]);
    }
    assert forall|a: int, b: int| 0 <= a < b < s1.len() implies (#[trigger] s1[a]).name != (
    #[trigger] s1[b]).name by {
        let a0: int = if a < i {
            a
        } else {
            a + 1
        };
        let b0: int = if b < i {
            b
        } else {
            b + 1
        };
        assert(s1[a] == s0[a0] && s1[b] == s0[b0]);
    }
    assert forall|k: int, l: int| 0 <= k < l < post.tables@.len() implies (
    #[trigger] post.tables@[k]).name@ != (#[trigger] post.tables@[l]).name@ by {
        assert(post.tables@[k].name@ == pre.tables@[k].name@);
        assert(post.tables@[l].name@ == pre.tables@[l].name@);
    }
    assert forall|k: int|
        0 <= k < post.tables@.len() implies (schema_lookup(
        s1,
        (#[trigger] post.tables@[k]).name@,
    ) is None ==> post.tables@[k].rows@.len() == 0) by {
        let n = post.tables@[k].name@;
        assert(n == pre.tables@[k].name@);
        if schema_lookup(s1, n) is None {
            if schema_lookup(s0, n) is Some {
                lemma_schema_lookup_found(s0, n);
                let a = choose|a: int|
                    0 <= a < s0.len() && (#[trigger] s0[a]) == schema_lookup(s0, n).unwrap()
                        && s0[a].name == n;
                if a == i {
                    assert(post.tables@[k].rows@.len() == 0);
                } else {
                    let a1: int = if a < i {
                        a
                    } else {
                        a - 1
                    };
                    assert(s1[a1] == s0[a]);
                    lemma_schema_lookup_absent(s1, n);
                    assert(false);
                }
            } else {
                assert(pre.tables@[k].rows@.len() == 0);
                if post.tables@[k] == pre.tables@[k] {
                } else {
                    assert(post.tables@[k].rows@.len() == 0);
                }
            }
        }
    }
    assert forall|a: int|
        0 <= a < post.schemas@.len() implies tables_lookup(
        post.tables@,
        (#[trigger] post.schemas@[a])@.name,
    ) is Some by {
        let a0: int = if a < i {
            a
        } else {
            a + 1
        };
        assert(post.schemas@[a]@ == s1[a]);
        assert(s1[a] == s0[a0]);
        assert(pre.schemas@[a0]@ == s0[a0]);
        assert(tables_lookup(pre.tables@, s0[a0].name) is Some);
        lemma_tables_lookup_found(pre.tables@, s0[a0].name);
        let k = choose|k: int|
            0 <= k < pre.tables@.len() && (#[trigger] pre.tables@[k]).name@ == s0[a0].name
                && tables_lookup(pre.tables@, s0[a0].name) == Some(
                pre.tables@[k].rows.deep_view(),
            );
        assert(post.tables@[k].name@ == s0[a0].name);
        lemma_tables_lookup_absent(post.tables@, s0[a0].name);
    }
    assert forall|k: int|
        0 <= k < post.tables@.len() implies rows_wf(
        (#[trigger] post.tables@[k]).rows.deep_view(),
    ) by {
        if post.tables@[k] == pre.tables@[k] {
        } else {
            assert(post.tables@[k].rows.deep_view() =~= Seq::<JsonVal>::empty());
        }
    }
}

/// Whether this row's id is the given one.
fn row_id_matches(row: &JsonValue, id: &str) -> (r: bool)
    ensures
        r == (row_id(row@) == Some(id@)),
{
    match row.get("id") {
        Some(JsonValue::Str(s)) => str_eq(s.as_str(), id),
        _ => false,
    }
}

/// The index of the first row with this id, if any.
fn find_row(rows: &Vec<JsonValue>, id: &str) -> (r: Option<usize>)
    ensures
        match r {
            Some(k) => {
                &&& 0 <= k < rows@.len()
                &&& row_id(rows.deep_view()[k as int]) == Some(id@)
                &&& forall|a: int|
                    0 <= a < k ==> row_id(#[trigger] rows.deep_view()[a]) != Some(id@)
                &&& row_lookup(rows.deep_view(), id@) == Some(rows.deep_view()[k as int])
            },
            None => row_lookup(rows.deep_view(), id@) is None,
        },
{
    let ghost grows = rows.deep_view();
    let n = rows.len();
    let mut k: usize = 0;
    assert(grows.skip(0) =~= grows);
    while k < n
        invariant
            n == rows@.len(),
            grows == rows.deep_view(),
            grows.len() == n,
            0 <= k <= n,
            forall|a: int| 0 <= a < k ==> row_id(#[trigger] grows[a]) != Some(id@),
            row_lookup(grows, id@) == row_lookup(grows.skip(k as int), id@),
        decreases n - k,
    {
        assert(grows.skip(k as int)[0] == grows[k as int]);
        if row_id_matches(&rows[k], id) {
            assert(row_lookup(grows.skip(k as int), id@) == Some(grows[k as int]));
            return Some(k);
        }
        assert(grows.skip(k as int).skip(1) =~= grows.skip(k + 1));
        k = k + 1;
    }
    assert(grows.skip(n as int) =~= Seq::<JsonVal>::empty());
    None
}

/// A fresh id: strictly longer than every id in the table, so it cannot
/// collide with any of them.
#[verifier::loop_isolation(false)]
fn gen_fresh_id(rows: &Vec<JsonValue>) -> (r: String)
    requires
        ids_below_max(rows.deep_view()),
    ensures
        row_lookup(rows.deep_view(), r@) is None,
{
    let ghost grows = rows.deep_view();
    let mut id: Vec<char> = Vec::new();
    id.push('r');
    let n = rows.len();
    let mut k: usize = 0;
    while k < n
        invariant
            0 <= k <= n,
            id@.len() >= 1,
            forall|a: int|
                0 <= a < k ==> (match row_id(#[trigger] grows[a]) {
                    Some(s) => s.len() < id@.len(),
                    None => true,
                }),
        decreases n - k,
    {
        let l: usize = match rows[k].get("id") {
            Some(JsonValue::Str(s)) => {
                proof {
                    assert(row_id(grows[k as int]) == Some(s@));
                }
                s.as_str().unicode_len()
            },
            _ => {
                proof {
                    assert(row_id(grows[k as int]) is None);
                }
                0
            },
        };
        let ghost len0 = id@.len();
        while id.len() <= l
            invariant
                len0 <= id@.len(),
            decreases l + 1 - id@.len(),
        {
            id.push('r');
        }
        assert(id@.len() > l);
        k = k + 1;
    }
    let r = string_from_chars(&id);
    proof {
        lemma_row_lookup_absent(grows, r@);
        assert forall|a: int| 0 <= a < grows.len() implies row_id(#[trigger] grows[a]) != Some(
            r@,
        ) by {
            match row_id(grows[a]) {
                Some(s) => {
                    assert(s.len() < r@.len());
                },
                None => {},
            }
        }
    }
    r
}

/// The tagged timestamp value for a write time.
fn make_ts(now: &str) -> (r: JsonValue)
    ensures
        r@ == ts_value(now@),
{
    let mut entries: Vec<(String, JsonValue)> = Vec::new();
    entries.push((String::from_str("__type"), JsonValue::Str(String::from_str("TimeStamp"))));
    entries.push((String::from_str("value"), JsonValue::Str(now.to_owned())));
    let r = JsonValue::Obj(entries);
    proof {
        match &r {
            JsonValue::Obj(es) => {
                let t = seq![("__type"@, JsonVal::Str("TimeStamp"@)), ("value"@, JsonVal::Str(
                    now@,
                ))];
                assert(es@.len() == 2);
                assert(t[0] == (es@[0].0@, jv_view(es@[0].1)));
                assert(t[1] == (es@[1].0@, jv_view(es@[1].1)));
                crate::json_value::jv_entries_view_eq(es@, t);
            },
            _ => {},
        }
    }
    r
}

/// The value under `key`, cloned, null when absent.
fn get_clone_or_null(row: &JsonValue, key: &str) -> (r: JsonValue)
    ensures
        r@ == get_or_null(row@, key@),
{
    match row.get(key) {
        Some(v) => v.deep_clone(),
        None => JsonValue::Null,
    }
}

/// The fully materialized form of a stored row under a schema.
#[verifier::loop_isolation(false)]
fn materialize(c: &Collection, row: &JsonValue) -> (r: JsonValue)
    ensures
        r@ == materialize_row(c@, row@),
{
    let ghost gfields = c@.fields;
    let mut entries: Vec<(String, JsonValue)> = Vec::new();
    entries.push((String::from_str("id"), get_clone_or_null(row, "id")));
    entries.push((String::from_str("created_at"), get_clone_or_null(row, "created_at")));
    entries.push((String::from_str("updated_at"), get_clone_or_null(row, "updated_at")));
    let ghost head = seq![
        ("id"@, get_or_null(row@, "id"@)),
        ("created_at"@, get_or_null(row@, "created_at"@)),
        ("updated_at"@, get_or_null(row@, "updated_at"@)),
    ];
    let ghost tail = Seq::new(
        gfields.len(),
        |i: int| (gfields[i].name, get_or_null(row@, gfields[i].name)),
    );
    let ghost full = head + tail;
    proof {
        assert(entries@.len() == 3);
        assert(((entries@[0]).0@, jv_view(entries@[0].1)) == full[0]);
        assert(((entries@[1]).0@, jv_view(entries@[1].1)) == full[1]);
        assert(((entries@[2]).0@, jv_view(entries@[2].1)) == full[2]);
    }
    let n = c.fields.len();
    let mut i: usize = 0;
    while i < n
        invariant
            n == c.fields@.len(),
            0 <= i <= n,
            entries@.len() == 3 + i,
            forall|a: int|
                0 <= a < 3 + i ==> ((#[trigger] entries@[a]).0@, jv_view(entries@[a].1))
                    == full[a],
        decreases n - i,
    {
        let field = &c.fields[i];
        let value = get_clone_or_null(row, field.name.as_str());
        let ghost prev = entries@;
        entries.push((field.name.clone(), value));
        proof {
            assert forall|a: int|
                0 <= a < 3 + i + 1 implies ((#[trigger] entries@[a]).0@, jv_view(entries@[a].1))
                == full[a] by {
                if a < 3 + i {
                    assert(entries@[a] == prev[a]);
                } else {
                    assert(full[a] == tail[i as int]);
                }
            }
        }
        i = i + 1;
    }
    proof {
        crate::json_value::jv_entries_view_eq(entries@, full);
    }
    let r = JsonValue::Obj(entries);
    proof {
        assert(r@ == materialize_row(c@, row@));
    }
    r
}

/// A freshly stored row, built in schema-field order.
#[verifier::loop_isolation(false)]
fn build_insert_row(c: &Collection, data: &JsonValue, id: String, now: &str) -> (r: JsonValue)
    ensures
        r@ == insert_row_spec(c@, data@, id@, now@),
{
    let ghost gfields = c@.fields;
    let ghost gid = id@;
    let mut entries: Vec<(String, JsonValue)> = Vec::new();
    entries.push((String::from_str("id"), JsonValue::Str(id)));
    let ghost head = seq![("id"@, JsonVal::Str(gid))];
    proof {
        jv_entries_view_index(entries@);
        assert(insert_fields_spec(gfields, data@) == insert_fields_spec(gfields.skip(0), data@))
            by {
            assert(gfields.skip(0) =~= gfields);
        }
        assert(jv_entries_view(entries@) =~= head);
    }
    let n = c.fields.len();
    let mut i: usize = 0;
    while i < n
        invariant
            n == c.fields@.len(),
            0 <= i <= n,
            head + insert_fields_spec(gfields, data@) =~= jv_entries_view(entries@)
                + insert_fields_spec(gfields.skip(i as int), data@),
        decreases n - i,
    {
        assert(gfields.skip(i as int)[0] == gfields[i as int]);
        let field = &c.fields[i];
        match data.get(field.name.as_str()) {
            Some(v) => {
                let ghost gv = v@;
                let ghost gmid = jv_entries_view(entries@);
                let ghost prev = entries@;
                proof {
                    jv_entries_view_index(prev);
                }
                entries.push((field.name.clone(), v.deep_clone()));
                proof {
                    let t = gmid.push((gfields[i as int].name, gv));
                    assert forall|a: int| 0 <= a < entries@.len() implies t[a] == ((
                    #[trigger] entries@[a]).0@, jv_view(entries@[a].1)) by {
                        if a < prev.len() {
                            assert(entries@[a] == prev[a]);
                            assert(gmid[a] == (prev[a].0@, jv_view(prev[a].1)));
                        }
                    }
                    crate::json_value::jv_entries_view_eq(entries@, t);
                    assert(data@.get(gfields[i as int].name) == Some(gv));
                }
            },
            None => {},
        }
        assert(gfields.skip(i as int).skip(1) =~= gfields.skip(i + 1));
        i = i + 1;
    }
    proof {
        assert(gfields.skip(n as int) =~= Seq::<FieldModel>::empty());
        assert(jv_entries_view(entries@) =~= head + insert_fields_spec(gfields, data@));
    }
    let ts1 = make_ts(now);
    let ts2 = make_ts(now);
    let ghost mid = jv_entries_view(entries@);
    let ghost prev1 = entries@;
    proof {
        jv_entries_view_index(prev1);
    }
    entries.push((String::from_str("created_at"), ts1));
    proof {
        let t = mid.push(("created_at"@, ts_value(now@)));
        assert forall|a: int| 0 <= a < entries@.len() implies t[a] == ((
        #[trigger] entries@[a]).0@, jv_view(entries@[a].1)) by {
            if a < prev1.len() {
                assert(entries@[a] == prev1[a]);
                assert(mid[a] == (prev1[a].0@, jv_view(prev1[a].1)));
            }
        }
        crate::json_value::jv_entries_view_eq(entries@, t);
    }
    let ghost mid2 = jv_entries_view(entries@);
    let ghost prev2 = entries@;
    proof {
        jv_entries_view_index(prev2);
    }
    entries.push((String::from_str("updated_at"), ts2));
    proof {
        let t = mid2.push(("updated_at"@, ts_value(now@)));
        assert forall|a: int| 0 <= a < entries@.len() implies t[a] == ((
        #[trigger] entries@[a]).0@, jv_view(entries@[a].1)) by {
            if a < prev2.len() {
                assert(entries@[a] == prev2[a]);
                assert(mid2[a] == (prev2[a].0@, jv_view(prev2[a].1)));
            }
        }
        crate::json_value::jv_entries_view_eq(entries@, t);
    }
    let r = JsonValue::Obj(entries);
    proof {
        assert(r@ == JsonVal::Obj(
            head + insert_fields_spec(gfields, data@) + seq![
                ("created_at"@, ts_value(now@)),
                ("updated_at"@, ts_value(now@)),
            ],
        )) by {
            assert(jv_entries_view(r->Obj_0@) =~= head + insert_fields_spec(gfields, data@)
                + seq![("created_at"@, ts_value(now@)), ("updated_at"@, ts_value(now@))]);
        }
    }
    r
}

/// Writes `v` under `key` in an entry list: replace the first occurrence,
/// or append when the key is new.
fn obj_set_exec(entries: &mut Vec<(String, JsonValue)>, key: &str, v: JsonValue)
    ensures
        jv_entries_view(final(entries)@) == obj_set(jv_entries_view(old(entries)@), key@, v@),
{
    let ghost g0 = jv_entries_view(old(entries)@);
    proof {
        jv_entries_view_index(entries@);
    }
    let n = entries.len();
    let mut i: usize = 0;
    while i < n
        invariant
            entries@ == old(entries)@,
            n == entries@.len(),
            g0 == jv_entries_view(entries@),
            g0.len() == n,
            forall|a: int|
                0 <= a < n ==> #[trigger] g0[a] == (entries@[a].0@, jv_view(entries@[a].1)),
            0 <= i <= n,
            forall|a: int| 0 <= a < i ==> (#[trigger] g0[a]).0 != key@,
        decreases n - i,
    {
        if str_eq(entries[i].0.as_str(), key) {
            let ghost gv = v@;
            let ghost prev = entries@;
            entries.set(i, (key.to_owned(), v));
            proof {
                lemma_obj_set_update(g0, i as int, key@, gv);
                let t = g0.update(i as int, (key@, gv));
                assert forall|a: int| 0 <= a < entries@.len() implies t[a] == ((
                #[trigger] entries@[a]).0@, jv_view(entries@[a].1)) by {
                    if a != i {
                        assert(entries@[a] == prev[a]);
                        assert(g0[a] == (prev[a].0@, jv_view(prev[a].1)));
                    }
                }
                crate::json_value::jv_entries_view_eq(entries@, t);
            }
            return ;
        }
        i = i + 1;
    }
    let ghost gv = v@;
    let ghost prev = entries@;
    entries.push((key.to_owned(), v));
    proof {
        lemma_obj_set_append(g0, key@, gv);
        let t = g0.push((key@, gv));
        assert forall|a: int| 0 <= a < entries@.len() implies t[a] == ((
        #[trigger] entries@[a]).0@, jv_view(entries@[a].1)) by {
            if a < prev.len() {
                assert(entries@[a] == prev[a]);
                assert(g0[a] == (prev[a].0@, jv_view(prev[a].1)));
            }
        }
        crate::json_value::jv_entries_view_eq(entries@, t);
    }
}

/// Whether a row satisfies every bundle of a query at a key the collection
/// knows; unknown keys impose nothing.
fn eval_query(c: &Collection, query: &Vec<(String, Where)>, row: &JsonValue) -> (r: bool)
    ensures
        r == matches_query(c@, query.deep_view(), row@),
{
    let ghost gq = query.deep_view();
    let n = query.len();
    let mut j: usize = 0;
    while j < n
        invariant
            n == query@.len(),
            gq == query.deep_view(),
            gq.len() == n,
            forall|a: int|
                0 <= a < n ==> #[trigger] gq[a] == (query@[a].0@, query@[a].1.deep_view()),
            0 <= j <= n,
            forall|a: int|
                0 <= a < j ==> (known_key(c@, (#[trigger] gq[a]).0) ==> sat_bundle(
                    gq[a].1,
                    get_or_null(row@, gq[a].0),
                )),
        decreases n - j,
    {
        let key = query[j].0.as_str();
        let known = is_reserved_name(key) || c.get_field(key).is_some();
        assert(known == known_key(c@, gq[j as int].0));
        if known {
            let val = row.get(key);
            if !query[j].1.satisfied_by(val) {
                assert(!sat_bundle(gq[j as int].1, get_or_null(row@, gq[j as int].0)));
                return false;
            }
        }
        j = j + 1;
    }
    true
}

/// A write that replaces one table's rows and nothing else keeps the store
/// consistent, provided the new rows are well-formed.
proof fn lemma_data_write_keeps_inv(pre: MemoryStorage, post: MemoryStorage, j: int)
    requires
        pre.inv(),
        post.schemas@ == pre.schemas@,
        0 <= j < pre.tables@.len(),
        post.tables@.len() == pre.tables@.len(),
        forall|k: int| 0 <= k < pre.tables@.len() && k != j ==> #[trigger] post.tables@[k]
            == pre.tables@[k],
        post.tables@[j].name@ == pre.tables@[j].name@,
        rows_wf(post.tables@[j].rows.deep_view()),
        schema_lookup(pre.schemas.deep_view(), pre.tables@[j].name@) is Some,
    ensures
        post.inv(),
{
    assert(post.schemas.deep_view() =~= pre.schemas.deep_view());
    assert forall|a: int, b: int| 0 <= a < b < post.tables@.len() implies (
    #[trigger] post.tables@[a]).name@ != (#[trigger] post.tables@[b]).name@ by {
        assert(post.tables@[a].name@ == pre.tables@[a].name@);
        assert(post.tables@[b].name@ == pre.tables@[b].name@);
    }
    assert forall|k: int|
        0 <= k < post.tables@.len() implies (schema_lookup(
        post.schemas.deep_view(),
        (#[trigger] post.tables@[k]).name@,
    ) is None ==> post.tables@[k].rows@.len() == 0) by {
        if k != j {
            assert(post.tables@[k] == pre.tables@[k]);
        } else {
            assert(schema_lookup(pre.schemas.deep_view(), post.tables@[j].name@) is Some);
        }
    }
    assert forall|a: int|
        0 <= a < post.schemas@.len() implies tables_lookup(
        post.tables@,
        (#[trigger] post.schemas@[a])@.name,
    ) is Some by {
        assert(post.schemas@[a] == pre.schemas@[a]);
        assert(tables_lookup(pre.tables@, pre.schemas@[a]@.name) is Some);
        lemma_tables_lookup_found(pre.tables@, pre.schemas@[a]@.name);
        let k = choose|k: int|
            0 <= k < pre.tables@.len() && (#[trigger] pre.tables@[k]).name@
                == pre.schemas@[a]@.name && tables_lookup(pre.tables@, pre.schemas@[a]@.name)
                == Some(pre.tables@[k].rows.deep_view());
        assert(post.tables@[k].name@ == pre.schemas@[a]@.name);
        lemma_tables_lookup_absent(post.tables@, pre.schemas@[a]@.name);
    }
    assert forall|k: int|
        0 <= k < post.tables@.len() implies rows_wf(
        (#[trigger] post.tables@[k]).rows.deep_view(),
    ) by {
        if k != j {
            assert(post.tables@[k] == pre.tables@[k]);
        }
    }
}

proof fn lemma_update_keeps_inv(
    pre: MemoryStorage,
    post: MemoryStorage,
    schemas0: Seq<CollectionModel>,
    i: int,
    c2: CollectionModel,
)
    requires
        pre.inv(),
        schemas0 == pre.schemas.deep_view(),
        0 <= i < schemas0.len(),
        c2.name == schemas0[i].name,
        c2.wf(),
        post.schemas.deep_view() == schemas0.update(i, c2),
        post.tables@ == pre.tables@,
        forall|j: int| 0 <= j < i ==> (#[trigger] schemas0[j]).name != schemas0[i].name,
    ensures
        post.inv(),
{
    let s0 = schemas0;
    let s1 = post.schemas.deep_view();
    lemma_schema_lookup_update_all(s0, i, c2);
    assert forall|a: int| 0 <= a < s1.len() implies (#[trigger] s1[a]).wf() by {
        if a != i {
            assert(s1[a] == s0[a]);
        }
    }
    assert forall|a: int, b: int| 0 <= a < b < s1.len() implies (#[trigger] s1[a]).name != (
    #[trigger] s1[b]).name by {
        assert(s1[a].name == s0[a].name);
        assert(s1[b].name == s0[b].name);
    }
    assert forall|k: int|
        0 <= k < post.tables@.len() implies (schema_lookup(
        s1,
        (#[trigger] post.tables@[k]).name@,
    ) is None ==> post.tables@[k].rows@.len() == 0) by {
        let n = post.tables@[k].name@;
        if schema_lookup(s1, n) is None {
            assert(n != s0[i].name);
            assert(schema_lookup(s0, n) is None);
            assert(pre.tables@[k] == post.tables@[k]);
        }
    }
    assert forall|a: int|
        0 <= a < post.schemas@.len() implies tables_lookup(
        post.tables@,
        (#[trigger] post.schemas@[a])@.name,
    ) is Some by {
        assert(post.schemas@[a]@ == s1[a]);
        assert(s1[a].name == s0[a].name);
        assert(pre.schemas@[a]@ == s0[a]);
        assert(tables_lookup(pre.tables@, s0[a].name) is Some);
    }
}

} // verus!
