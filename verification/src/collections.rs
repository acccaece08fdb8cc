//! The schema registry: a name-to-collection cache over one storage
//! backend. It resolves or creates collections, evolves their schemas
//! before a write, validates and defaults payloads, and delegates row
//! work to the storage. Callers must serialize access per collection
//! name; the registry itself takes exclusive access for every operation.

use vstd::prelude::*;

use crate::collection::{
    defaults_spec, invalid_keys_spec, new_fields_spec, obj_entries, required_missing_spec,
    Collection, CollectionModel,
};
use crate::collection_error::CollectionError;
use crate::json_value::{JsonVal, JsonValue};
use crate::storage::{schema_lookup, schema_replace, Storage};
use crate::util::str_eq;
use crate::where_attr::{where_of, Where, WhereModel};

verus! {

/// The registry: the in-memory schema cache and the storage it fronts.
pub struct Collections<T> {
    pub collections: Vec<Collection>,
    pub storage: T,
}

impl<T: Storage> Collections<T> {
    /// Well-formed registry: a consistent storage, and a cache whose
    /// entries carry distinct names and agree with the storage catalog.
    pub open spec fn wf(&self) -> bool {
        &&& self.storage.inv()
        &&& forall|i: int, j: int|
            0 <= i < j < self.collections@.len() ==> (#[trigger] self.collections@[i])@.name != (
            #[trigger] self.collections@[j])@.name
        &&& forall|i: int|
            0 <= i < self.collections@.len() ==> schema_lookup(
                self.storage.schemas(),
                (#[trigger] self.collections@[i])@.name,
            ) == Some(self.collections@[i]@)
    }

    /// The cached schema under `name`, if any.
    pub open spec fn cached(&self, name: Seq<char>) -> Option<CollectionModel> {
        schema_lookup(self.collections.deep_view(), name)
    }

    /// Well-formedness up to one name: every cache entry but `name`'s
    /// agrees with the catalog. Holds transiently while a schema is
    /// evolved in storage before its cache entry is refreshed.
    pub open spec fn wf_except(&self, name: Seq<char>) -> bool {
        &&& self.storage.inv()
        &&& forall|i: int, j: int|
            0 <= i < j < self.collections@.len() ==> (#[trigger] self.collections@[i])@.name != (
            #[trigger] self.collections@[j])@.name
        &&& forall|i: int|
            0 <= i < self.collections@.len() && (#[trigger] self.collections@[i])@.name != name
                ==> schema_lookup(self.storage.schemas(), self.collections@[i]@.name) == Some(
                self.collections@[i]@,
            )
    }

    /// A cached schema always stands in the storage catalog too.
    pub proof fn cached_in_catalog(&self, name: Seq<char>)
        requires
            self.wf(),
            self.cached(name) is Some,
        ensures
            schema_lookup(self.storage.schemas(), name) == self.cached(name),
            self.cached(name).unwrap().name == name,
    {
        let gs = self.collections.deep_view();
        crate::storage::lemma_schema_lookup_found(gs, name);
        let i = choose|i: int|
            0 <= i < gs.len() && (#[trigger] gs[i]) == schema_lookup(gs, name).unwrap()
                && gs[i].name == name;
        assert(gs[i] == self.collections@[i]@);
        assert(schema_lookup(self.storage.schemas(), self.collections@[i]@.name) == Some(
            self.collections@[i]@,
        ));
    }

    /// A registry seeded with every schema the storage holds.
    pub fn new(storage: T) -> (r: Collections<T>)
        requires
            storage.inv(),
        ensures
            r.wf(),
            r.storage == storage,
            r.collections.deep_view() == storage.schemas(),
    {
        proof {
            storage.inv_facts();
        }
        let collections = match storage.get_collections() {
            Ok(cs) => cs,
            Err(_) => Vec::new(),
        };
        let r = Collections { collections, storage };
        proof {
            crate::storage::lemma_schema_lookup_self(r.storage.schemas());
            assert forall|i: int|
                0 <= i < r.collections@.len() implies schema_lookup(
                r.storage.schemas(),
                (#[trigger] r.collections@[i])@.name,
            ) == Some(r.collections@[i]@) by {
                assert(r.collections.deep_view()[i] == r.collections@[i]@);
            }
            assert forall|i: int, j: int|
                0 <= i < j < r.collections@.len() implies (#[trigger] r.collections@[i])@.name != (
            #[trigger] r.collections@[j])@.name by {
                assert(r.collections.deep_view()[i] == r.collections@[i]@);
                assert(r.collections.deep_view()[j] == r.collections@[j]@);
            }
        }
        r
    }

    /// The storage behind the registry.
    pub fn get_storage(&self) -> (r: &T)
        ensures
            r == &self.storage,
    {
        &self.storage
    }

    /// A copy of the cached schema under `key`, if any.
    pub fn get_collection(&self, key: &str) -> (r: Option<Collection>)
        ensures
            match r {
                Some(c) => self.cached(key@) == Some(c@),
                None => self.cached(key@) is None,
            },
    {
        let ghost gs = self.collections.deep_view();
        let n = self.collections.len();
        let mut i: usize = 0;
        assert(gs.skip(0) =~= gs);
        while i < n
            invariant
                n == self.collections@.len(),
                gs == self.collections.deep_view(),
                gs.len() == n,
                forall|j: int| 0 <= j < n ==> (#[trigger] gs[j]) == self.collections@[j]@,
                0 <= i <= n,
                forall|j: int| 0 <= j < i ==> (#[trigger] gs[j]).name != key@,
                schema_lookup(gs, key@) == schema_lookup(gs.skip(i as int), key@),
            decreases n - i,
        {
            assert(gs.skip(i as int)[0] == gs[i as int]);
            if str_eq(self.collections[i].name.as_str(), key) {
                assert(schema_lookup(gs.skip(i as int), key@) == Some(gs[i as int]));
                return Some(self.collections[i].deep_clone());
            }
            assert(gs.skip(i as int).skip(1) =~= gs.skip(i + 1));
            i = i + 1;
        }
        assert(gs.skip(n as int) =~= Seq::<CollectionModel>::empty());
        None
    }

    /// Caches `value` under its own name, replacing any entry of that
    /// name. The value must agree with the storage catalog so the cache
    /// stays truthful.
    pub fn set_collection(&mut self, value: Collection)
        requires
            old(self).wf_except(value@.name),
            schema_lookup(old(self).storage.schemas(), value@.name) == Some(value@),
        ensures
            final(self).wf(),
            final(self).storage == old(self).storage,
            final(self).collections.deep_view() == (if old(self).cached(value@.name) is Some {
                schema_replace(old(self).collections.deep_view(), value@.name, value@)
            } else {
                old(self).collections.deep_view().push(value@)
            }),
            final(self).cached(value@.name) == Some(value@),
            forall|n: Seq<char>|
                n != value@.name ==> #[trigger] final(self).cached(n) == old(self).cached(n),
    {
        let ghost gs = self.collections.deep_view();
        let ghost gv = value@;
        let n = self.collections.len();
        let mut i: usize = 0;
        assert(gs.skip(0) =~= gs);
        while i < n
            invariant
                n == self.collections@.len(),
                gs == self.collections.deep_view(),
                gs.len() == n,
                forall|j: int| 0 <= j < n ==> (#[trigger] gs[j]) == self.collections@[j]@,
                0 <= i <= n,
                forall|j: int| 0 <= j < i ==> (#[trigger] gs[j]).name != gv.name,
                schema_lookup(gs, gv.name) == schema_lookup(gs.skip(i as int), gv.name),
                self.collections@ == old(self).collections@,
                self.storage == old(self).storage,
                gv == value@,
                old(self).wf_except(gv.name),
                schema_lookup(old(self).storage.schemas(), gv.name) == Some(gv),
            decreases n - i,
        {
            assert(gs.skip(i as int)[0] == gs[i as int]);
            let same = str_eq(self.collections[i].name.as_str(), value.name.as_str());
            if same {
                assert(schema_lookup(gs.skip(i as int), gv.name) == Some(gs[i as int]));
                self.collections.set(i, value);
                proof {
                    assert(self.collections.deep_view() =~= gs.update(i as int, gv));
                    crate::storage::lemma_schema_lookup_update_all(gs, i as int, gv);
                    assert(self.collections.deep_view() =~= schema_replace(gs, gv.name, gv));
                    assert forall|a: int, b: int|
                        0 <= a < b < self.collections@.len() implies (
                    #[trigger] self.collections@[a])@.name != (
                    #[trigger] self.collections@[b])@.name by {
                        assert(self.collections.deep_view()[a] == self.collections@[a]@);
                        assert(self.collections.deep_view()[b] == self.collections@[b]@);
                        assert(gs[a].name == self.collections.deep_view()[a].name);
                        assert(gs[b].name == self.collections.deep_view()[b].name);
                        assert(old(self).collections.deep_view()[a] == gs[a]);
                    }
                    assert forall|a: int|
                        0 <= a < self.collections@.len() implies schema_lookup(
                        self.storage.schemas(),
                        (#[trigger] self.collections@[a])@.name,
                    ) == Some(self.collections@[a]@) by {
                        assert(self.collections.deep_view()[a] == self.collections@[a]@);
                        if a != i {
                            assert(self.collections.deep_view()[a] == gs[a]);
                        }
                    }
                }
                return ;
            }
            assert(gs.skip(i as int).skip(1) =~= gs.skip(i + 1));
            i = i + 1;
        }
        assert(gs.skip(n as int) =~= Seq::<CollectionModel>::empty());
        self.collections.push(value);
        proof {
            assert(self.collections.deep_view() =~= gs.push(gv));
            crate::storage::lemma_schema_lookup_push_all(gs, gv);
            assert forall|a: int, b: int|
                0 <= a < b < self.collections@.len() implies (
            #[trigger] self.collections@[a])@.name != (#[trigger] self.collections@[b])@.name by {
                assert(self.collections.deep_view()[a] == self.collections@[a]@);
                assert(self.collections.deep_view()[b] == self.collections@[b]@);
                if b < gs.len() {
                    assert(self.collections.deep_view()[a] == gs[a]);
                    assert(self.collections.deep_view()[b] == gs[b]);
                } else {
                    if a < gs.len() {
                        assert(self.collections.deep_view()[a] == gs[a]);
                        assert(self.collections.deep_view()[b] == gv);
                    }
                }
            }
            assert forall|a: int|
                0 <= a < self.collections@.len() implies schema_lookup(
                self.storage.schemas(),
                (#[trigger] self.collections@[a])@.name,
            ) == Some(self.collections@[a]@) by {
                assert(self.collections.deep_view()[a] == self.collections@[a]@);
                if a < gs.len() {
                    assert(self.collections.deep_view()[a] == gs[a]);
                }
            }
        }
    }

    /// Deletes the row with this id. Fails, touching nothing, exactly when
    /// no collection of this name is cached.
    pub fn delete(&mut self, collection_name: &str, collection_id: &str) -> (r: Result<
        JsonValue,
        CollectionError,
    >)
        requires
            old(self).wf(),
        ensures
            final(self).wf(),
            final(self).collections == old(self).collections,
            final(self).storage.schemas() == old(self).storage.schemas(),
            match r {
                Ok(v) => {
                    &&& old(self).cached(collection_name@) is Some
                    &&& v@ == JsonVal::Null
                    &&& final(self).storage.rows_of(collection_name@) == crate::storage::remove_row(
                        old(self).storage.rows_of(collection_name@),
                        collection_id@,
                    )
                    &&& forall|n: Seq<char>|
                        n != collection_name@ ==> #[trigger] final(self).storage.rows_of(n) == old(
                            self,
                        ).storage.rows_of(n)
                },
                Err(e) => {
                    &&& old(self).cached(collection_name@) is None
                    &&& e matches CollectionError::CollectionNotFound { collection } && collection@
                        == collection_name@
                    &&& final(self).storage == old(self).storage
                },
            },
    {
        let collection = match self.get_collection(collection_name) {
            Some(c) => c,
            None => {
                return Err(
                    CollectionError::CollectionNotFound {
                        collection: collection_name.to_owned(),
                    },
                );
            },
        };
        proof {
            self.cached_in_catalog(collection_name@);
            assert(collection@.name == collection_name@);
        }
        match self.storage.delete_data_from_collection(&collection, collection_id) {
            Ok(v) => Ok(v),
            Err(error) => {
                proof {
                    assert(false);
                }
                Err(CollectionError::StorageError { error })
            },
        }
    }

    /// The materialized row with this id. Fails exactly when no collection
    /// of this name is cached or the row does not exist.
    pub fn get(&self, collection_name: &str, collection_id: &str) -> (r: Result<
        JsonValue,
        CollectionError,
    >)
        requires
            self.wf(),
        ensures
            match r {
                Ok(v) => {
                    &&& self.cached(collection_name@) is Some
                    &&& schema_lookup(self.storage.schemas(), collection_name@) matches Some(c0)
                        && crate::storage::row_lookup(
                        self.storage.rows_of(collection_name@),
                        collection_id@,
                    ) matches Some(row) && v@ == crate::storage::materialize_row(c0, row)
                },
                Err(e) => match e {
                    CollectionError::CollectionNotFound { collection } => {
                        &&& collection@ == collection_name@
                        &&& self.cached(collection_name@) is None
                    },
                    CollectionError::StorageError { error } => {
                        &&& self.cached(collection_name@) is Some
                        &&& crate::storage::row_lookup(
                            self.storage.rows_of(collection_name@),
                            collection_id@,
                        ) is None
                        &&& error matches crate::storage_error::StorageError::ValueNotFound {
                            collection,
                            id,
                        } && collection@ == collection_name@ && id@ == collection_id@
                    },
                    _ => false,
                },
            },
    {
        let collection = match self.get_collection(collection_name) {
            Some(c) => c,
            None => {
                return Err(
                    CollectionError::CollectionNotFound {
                        collection: collection_name.to_owned(),
                    },
                );
            },
        };
        proof {
            self.cached_in_catalog(collection_name@);
            assert(collection@.name == collection_name@);
        }
        match self.storage.get_data_from_collection(&collection, collection_id) {
            Ok(v) => Ok(v),
            Err(error) => Err(CollectionError::StorageError { error }),
        }
    }
}

/// The validation failures a payload meets against a schema: the keys
/// holding inadmissible values or, when all values fit, the required
/// fields still null after defaulting. `None` when the payload passes.
pub open spec fn validation_errors(c: CollectionModel, data: JsonVal) -> Option<Seq<Seq<char>>> {
    let bad = invalid_keys_spec(c.fields, obj_entries(data));
    if bad.len() > 0 {
        Some(bad)
    } else {
        let defaulted = JsonVal::Obj(defaults_spec(c.fields, data));
        let missing = required_missing_spec(c.fields, defaulted, false);
        if missing.len() > 0 {
            Some(missing)
        } else {
            None
        }
    }
}

/// The payload the storage receives on insert: the defaulted object, with
/// the caller's `id` entry carried in front when one was supplied.
pub open spec fn insert_payload(c: CollectionModel, data: JsonVal) -> JsonVal {
    match data.get("id"@) {
        Some(v) => JsonVal::Obj(seq![("id"@, v)] + defaults_spec(c.fields, data)),
        None => JsonVal::Obj(defaults_spec(c.fields, data)),
    }
}

/// The schema a first write creates: named after the collection, with
/// exactly the fields inferred from the payload.
pub open spec fn created_schema(name: Seq<char>, data: JsonVal, c: CollectionModel) -> bool {
    &&& c.name == name
    &&& c.fields == new_fields_spec(Seq::empty(), obj_entries(data))
}

/// What checking and writing one insert payload against schema `c` left
/// behind and returned: a validation error names the offending fields and
/// leaves the rows alone; a passing payload is stored as the storage
/// contract says, or rejected when its supplied id already exists.
pub open spec fn insert_checked_outcome(
    c: CollectionModel,
    name: Seq<char>,
    data: JsonVal,
    schemas1: Seq<CollectionModel>,
    rows0: Seq<JsonVal>,
    rows1: Seq<JsonVal>,
    r: Result<JsonValue, CollectionError>,
) -> bool {
    match validation_errors(c, data) {
        Some(bad) => {
            &&& r matches Err(CollectionError::ValidateFields { collection, fields })
                && collection@ == name && fields.deep_view() == bad
            &&& rows1 == rows0
        },
        None => match r {
            Ok(v) => crate::storage::insert_ok_post(
                schemas1,
                rows0,
                name,
                insert_payload(c, data),
                rows1,
                v@,
            ),
            Err(e) => {
                &&& e matches CollectionError::StorageError { error } && (error
                    matches crate::storage_error::StorageError::CollectionCreate { collection }
                    && collection@ == name)
                &&& insert_payload(c, data).get("id"@) matches Some(JsonVal::Str(s))
                    && crate::storage::row_lookup(rows0, s) is Some
                &&& rows1 == rows0
            },
        },
    }
}

/// The schema one insert resolved to, and everything that followed from
/// it: a cached schema is used as it stands, a fresh one carries exactly
/// the inferred fields; either way it ends cached and cataloged, and the
/// payload's outcome is [`insert_checked_outcome`].
pub open spec fn insert_resolved(
    c: CollectionModel,
    cached0: Option<CollectionModel>,
    name: Seq<char>,
    data: JsonVal,
    cached1: Option<CollectionModel>,
    schemas1: Seq<CollectionModel>,
    rows0: Seq<JsonVal>,
    rows1: Seq<JsonVal>,
    r: Result<JsonValue, CollectionError>,
) -> bool {
    &&& (match cached0 {
        Some(c0) => c.fields == c0.fields + new_fields_spec(c0.fields, obj_entries(data)),
        None => created_schema(name, data, c),
    })
    &&& cached1 == Some(c)
    &&& c.wf()
    &&& schema_lookup(schemas1, name) == Some(c)
    &&& insert_checked_outcome(c, name, data, schemas1, rows0, rows1, r)
}

/// The validation failures a partial update meets: keys with inadmissible
/// values or, when all fit, required fields the payload explicitly sets
/// to null. Keys the payload never mentions are not reported.
pub open spec fn update_validation_errors(c: CollectionModel, data: JsonVal) -> Option<
    Seq<Seq<char>>,
> {
    let bad = invalid_keys_spec(c.fields, obj_entries(data));
    if bad.len() > 0 {
        Some(bad)
    } else {
        let missing = required_missing_spec(c.fields, data, true);
        if missing.len() > 0 {
            Some(missing)
        } else {
            None
        }
    }
}

/// The schema one update evolved to, and everything that followed: the
/// cached schema widened by exactly the payload's new fields, re-cached
/// and re-cataloged; then the payload checked and the row rewritten as
/// the storage contract says.
pub open spec fn update_resolved(
    c: CollectionModel,
    c0: CollectionModel,
    name: Seq<char>,
    id: Seq<char>,
    data: JsonVal,
    cached1: Option<CollectionModel>,
    schemas1: Seq<CollectionModel>,
    rows0: Seq<JsonVal>,
    rows1: Seq<JsonVal>,
    r: Result<JsonValue, CollectionError>,
) -> bool {
    &&& c.name == name
    &&& c.fields == c0.fields + new_fields_spec(c0.fields, obj_entries(data))
    &&& cached1 == Some(c)
    &&& c.wf()
    &&& schema_lookup(schemas1, name) == Some(c)
    &&& match update_validation_errors(c, data) {
        Some(bad) => {
            &&& r matches Err(CollectionError::ValidateFields { collection, fields })
                && collection@ == name && fields.deep_view() == bad
            &&& rows1 == rows0
        },
        None => match r {
            Ok(v) => crate::storage::update_ok_post(schemas1, rows0, name, id, data, rows1, v@),
            Err(e) => {
                &&& e matches CollectionError::StorageError { error } && (error
                    matches crate::storage_error::StorageError::ValueNotFound {
                    collection,
                    id: rid,
                } && collection@ == name && rid@ == id)
                &&& crate::storage::row_lookup(rows0, id) is None
                &&& rows1 == rows0
            },
        },
    }
}

/// The predicate map a raw query object denotes: one bundle per entry, in
/// entry order.
pub open spec fn query_model(entries: Seq<(Seq<char>, JsonVal)>) -> Seq<(Seq<char>, WhereModel)> {
    Seq::new(entries.len(), |i: int| (entries[i].0, where_of(entries[i].1)))
}

impl<T: Storage> Collections<T> {
    /// Stores one payload under `collection_name`, creating the collection
    /// on first use and widening its schema for any new keys: a non-object
    /// payload is rejected, and the payload is validated, defaulted and
    /// required-checked before the storage writes the row. A payload's
    /// keys are distinct, as any JSON object's are; the machine limit on
    /// id lengths leaves room for one fresh id.
    #[verifier::rlimit(100)]
    #[verifier::spinoff_prover]
    pub fn insert(&mut self, collection_name: &str, data: JsonValue) -> (r: Result<
        JsonValue,
        CollectionError,
    >)
        requires
            old(self).wf(),
            data@ is Obj ==> data@.obj_wf(),
            crate::storage::ids_below_max(old(self).storage.rows_of(collection_name@)),
        ensures
            final(self).wf(),
            forall|n: Seq<char>|
                n != collection_name@ ==> #[trigger] final(self).storage.rows_of(n) == old(
                    self,
                ).storage.rows_of(n),
            forall|n: Seq<char>|
                n != collection_name@ ==> #[trigger] final(self).cached(n) == old(self).cached(n),
            data@ !is Obj ==> {
                &&& r matches Err(CollectionError::CollectionInputData { collection })
                    && collection@ == collection_name@
                &&& final(self).collections == old(self).collections
                &&& final(self).storage == old(self).storage
            },
            (data@ is Obj && old(self).cached(collection_name@) is None && schema_lookup(
                old(self).storage.schemas(),
                collection_name@,
            ) is Some) ==> {
                &&& r matches Err(CollectionError::StorageError { error }) && (error
                    matches crate::storage_error::StorageError::CollectionCreate { collection }
                    && collection@ == collection_name@)
                &&& final(self).collections == old(self).collections
                &&& final(self).storage.schemas() == old(self).storage.schemas()
                &&& final(self).storage.rows_of(collection_name@) == old(self).storage.rows_of(
                    collection_name@,
                )
            },
            (data@ is Obj && !(old(self).cached(collection_name@) is None && schema_lookup(
                old(self).storage.schemas(),
                collection_name@,
            ) is Some)) ==> exists|c: CollectionModel|
                #[trigger] insert_resolved(
                    c,
                    old(self).cached(collection_name@),
                    collection_name@,
                    data@,
                    final(self).cached(collection_name@),
                    final(self).storage.schemas(),
                    old(self).storage.rows_of(collection_name@),
                    final(self).storage.rows_of(collection_name@),
                    r,
                ),
    {
        if !data.is_object() {
            return Err(
                CollectionError::CollectionInputData { collection: collection_name.to_owned() },
            );
        }
        let ghost name = collection_name@;
        let ghost cached0 = old(self).cached(name);
        let ghost schemas0 = old(self).storage.schemas();
        let ghost rows0 = old(self).storage.rows_of(name);
        let (base, was_cached): (Collection, bool) = match self.get_collection(
            collection_name,
        ) {
            Some(c) => (c, true),
            None => {
                let schema = match self.storage.create_collection(collection_name, Vec::new()) {
                    Ok(s) => s,
                    Err(error) => {
                        return Err(CollectionError::StorageError { error });
                    },
                };
                proof {
                    assert(schema@.fields =~= Seq::<crate::collection_field::FieldModel>::empty());
                    crate::storage::lemma_schema_lookup_push_all(schemas0, schema@);
                }
                (schema, false)
            },
        };
        let ghost cbase = base@;
        proof {
            if was_cached {
                self.cached_in_catalog(name);
                self.storage.inv_facts();
                crate::storage::lemma_schema_lookup_found(self.storage.schemas(), name);
                let fi = choose|fi: int|
                    0 <= fi < self.storage.schemas().len() && (
                    #[trigger] self.storage.schemas()[fi]) == schema_lookup(
                        self.storage.schemas(),
                        name,
                    ).unwrap() && self.storage.schemas()[fi].name == name;
                assert(cbase.wf());
            } else {
                crate::storage::lemma_schema_lookup_absent(
                    old(self).collections.deep_view(),
                    name,
                );
                assert(cbase.wf()) by {
                    assert(cbase.fields
                        =~= Seq::<crate::collection_field::FieldModel>::empty());
                }
            }
            crate::collection::lemma_new_fields_props(cbase.fields, obj_entries(data@));
            assert(schema_lookup(self.storage.schemas(), name) == Some(cbase));
            assert forall|n2: Seq<char>| n2 != name implies #[trigger] schema_lookup(
                self.storage.schemas(),
                n2,
            ) == schema_lookup(schemas0, n2) by {
                if !was_cached {
                    assert(schema_lookup(schemas0.push(cbase), n2) == schema_lookup(
                        schemas0,
                        n2,
                    ));
                }
            }
        }
        let new_fields = base.get_new_fields(&data);
        let ghost nf = new_fields.deep_view();
        let ghost did_set = !was_cached || new_fields@.len() > 0;
        let collection: Collection = if new_fields.len() > 0 || !was_cached {
            let nn = new_fields.len();
            let mut coll = base;
            let mut k: usize = 0;
            proof {
                assert(nf.take(0) =~= Seq::<crate::collection_field::FieldModel>::empty());
                assert(coll@.fields =~= cbase.fields + nf.take(0));
            }
            while k < nn
                invariant
                    nn == new_fields@.len(),
                    nf == new_fields.deep_view(),
                    nf.len() == nn,
                    forall|t: int| 0 <= t < nn ==> (#[trigger] nf[t]) == new_fields@[t]@,
                    forall|t: int|
                        0 <= t < nn ==> !crate::collection::is_reserved((#[trigger] nf[t]).name)
                            && crate::collection::field_lookup(cbase.fields, (nf[t]).name) is None,
                    forall|t: int, u: int|
                        0 <= t < u < nn ==> (#[trigger] nf[t]).name != (#[trigger] nf[u]).name,
                    0 <= k <= nn,
                    self.storage.inv(),
                    self.collections == old(self).collections,
                    coll@.name == name,
                    coll@.fields =~= cbase.fields + nf.take(k as int),
                    coll@.wf(),
                    cbase.wf(),
                    schema_lookup(self.storage.schemas(), name) == Some(coll@),
                    forall|n2: Seq<char>|
                        n2 != name ==> #[trigger] schema_lookup(self.storage.schemas(), n2)
                            == schema_lookup(schemas0, n2),
                    forall|n2: Seq<char>|
                        #[trigger] self.storage.rows_of(n2) == old(self).storage.rows_of(n2),
                    old(self).wf(),
                    data@ is Obj,
                decreases nn - k,
            {
                let field = new_fields[k].deep_clone();
                proof {
                    assert(field@ == nf[k as int]);
                    assert(!crate::collection::is_reserved(field@.name));
                    crate::storage::lemma_field_lookup_absent(coll@.fields, field@.name);
                    assert forall|t: int|
                        0 <= t < coll@.fields.len() implies (#[trigger] coll@.fields[t]).name
                        != field@.name by {
                        if t < cbase.fields.len() {
                            assert(coll@.fields[t] == cbase.fields[t]);
                            crate::storage::lemma_field_lookup_absent(cbase.fields, field@.name);
                        } else {
                            assert(coll@.fields[t] == nf.take(k as int)[t - cbase.fields.len()]);
                            assert(nf.take(k as int)[t - cbase.fields.len()] == nf[t
                                - cbase.fields.len()]);
                        }
                    }
                    assert(crate::collection::field_lookup(coll@.fields, field@.name) is None);
                }
                let ghost s_pre = self.storage.schemas();
                let coll2 = match self.storage.insert_field_to_collection(&coll, field) {
                    Ok(c2) => c2,
                    Err(error) => {
                        proof {
                            assert(false);
                        }
                        return Err(CollectionError::StorageError { error });
                    },
                };
                coll = coll2;
                proof {
                    assert(coll@.fields =~= cbase.fields + nf.take(k + 1));
                    assert forall|n2: Seq<char>| true implies #[trigger] schema_lookup(
                        self.storage.schemas(),
                        n2,
                    ) == (if n2 == name {
                        Some(coll@)
                    } else {
                        schema_lookup(s_pre, n2)
                    }) by {
                        crate::storage::lemma_schema_replace_lookup(s_pre, name, coll@, n2);
                    }
                }
                k = k + 1;
            }
            proof {
                assert(nf.take(nn as int) =~= nf);
                assert(coll@.fields =~= cbase.fields + nf);
                assert(self.wf_except(name)) by {
                    assert forall|j: int|
                        0 <= j < self.collections@.len() && (
                    #[trigger] self.collections@[j])@.name != name implies schema_lookup(
                        self.storage.schemas(),
                        self.collections@[j]@.name,
                    ) == Some(self.collections@[j]@) by {
                        assert(self.collections@[j] == old(self).collections@[j]);
                        assert(schema_lookup(
                            self.storage.schemas(),
                            old(self).collections@[j]@.name,
                        ) == schema_lookup(schemas0, old(self).collections@[j]@.name));
                    }
                }
            }
            let cached_copy = coll.deep_clone();
            self.set_collection(cached_copy);
            proof {
                assert forall|n2: Seq<char>| n2 != name implies #[trigger] self.cached(n2)
                    == old(self).cached(n2) by {}
            }
            coll
        } else {
            proof {
                assert(nf =~= Seq::<crate::collection_field::FieldModel>::empty());
                assert(base@.fields =~= cbase.fields + nf);
            }
            base
        };
        let ghost c = collection@;
        proof {
            assert(self.cached(name) == Some(c));
            self.cached_in_catalog(name);
            self.storage.inv_facts();
            crate::storage::lemma_schema_lookup_found(self.storage.schemas(), name);
            let fi = choose|fi: int|
                0 <= fi < self.storage.schemas().len() && (#[trigger] self.storage.schemas()[fi])
                    == schema_lookup(self.storage.schemas(), name).unwrap()
                    && self.storage.schemas()[fi].name == name;
            assert(c.wf());
            assert(self.storage.rows_of(name) == rows0);
        }
        match collection.validate(&data) {
            Ok(_) => {},
            Err(e) => {
                proof {
                    assert(insert_resolved(
                        c,
                        cached0,
                        name,
                        data@,
                        self.cached(name),
                        self.storage.schemas(),
                        rows0,
                        self.storage.rows_of(name),
                        Err(e),
                    ));
                }
                return Err(e);
            },
        }
        let id_entry: Option<JsonValue> = match data.get("id") {
            Some(v) => Some(v.deep_clone()),
            None => None,
        };
        let defaulted = collection.default_values(data);
        match collection.required_values(&defaulted, false) {
            Ok(_) => {},
            Err(e) => {
                proof {
                    assert(insert_resolved(
                        c,
                        cached0,
                        name,
                        data@,
                        self.cached(name),
                        self.storage.schemas(),
                        rows0,
                        self.storage.rows_of(name),
                        Err(e),
                    ));
                }
                return Err(e);
            },
        }
        let payload: JsonValue = match id_entry {
            Some(idv) => {
                match defaulted {
                    JsonValue::Obj(mut entries) => {
                        let ghost prev = entries@;
                        proof {
                            crate::json_value::jv_entries_view_index(prev);
                        }
                        entries.insert(0, (String::from_str("id"), idv));
                        proof {
                            let ghost gid = crate::json_value::jv_view(idv);
                            let t = seq![("id"@, gid)] + crate::json_value::jv_entries_view(prev);
                            assert forall|a: int|
                                0 <= a < entries@.len() implies t[a] == ((
                            #[trigger] entries@[a]).0@, crate::json_value::jv_view(
                                entries@[a].1,
                            )) by {
                                if a > 0 {
                                    assert(entries@[a] == prev[a - 1]);
                                }
                            }
                            crate::json_value::jv_entries_view_eq(entries@, t);
                        }
                        JsonValue::Obj(entries)
                    },
                    _ => {
                        proof {
                            assert(false);
                        }
                        JsonValue::Null
                    },
                }
            },
            None => defaulted,
        };
        proof {
            assert(payload@ == insert_payload(c, data@));
            assert(validation_errors(c, data@) is None);
            assert(self.storage.rows_of(name) == rows0);
        }
        let result = match self.storage.insert_data_into_collection(&collection, payload) {
            Ok(v) => Ok(v),
            Err(error) => Err(CollectionError::StorageError { error }),
        };
        proof {
            assert(insert_resolved(
                c,
                cached0,
                name,
                data@,
                self.cached(name),
                self.storage.schemas(),
                rows0,
                self.storage.rows_of(name),
                result,
            ));
            assert forall|n2: Seq<char>| n2 != name implies #[trigger] self.cached(n2) == old(
                self,
            ).cached(n2) by {
                if !did_set {
                    assert(self.collections == old(self).collections);
                } else if cached0 is Some {
                    assert(self.collections.deep_view() == schema_replace(
                        old(self).collections.deep_view(),
                        name,
                        c,
                    ));
                    crate::storage::lemma_schema_replace_lookup(
                        old(self).collections.deep_view(),
                        name,
                        c,
                        n2,
                    );
                } else {
                    assert(self.collections.deep_view() == old(
                        self,
                    ).collections.deep_view().push(c));
                    crate::storage::lemma_schema_lookup_push_all(
                        old(self).collections.deep_view(),
                        c,
                    );
                }
            }
        }
        result
    }

    /// Rewrites the columns one payload mentions on the row with this id,
    /// widening the schema first for any new keys. A collection never
    /// written to is not created here, and a payload's keys are distinct,
    /// as any JSON object's are.
    #[verifier::rlimit(100)]
    #[verifier::spinoff_prover]
    pub fn update(&mut self, collection_name: &str, collection_id: &str, data: JsonValue) -> (r:
        Result<JsonValue, CollectionError>)
        requires
            old(self).wf(),
            data@ is Obj ==> data@.obj_wf(),
        ensures
            final(self).wf(),
            forall|n: Seq<char>|
                n != collection_name@ ==> #[trigger] final(self).storage.rows_of(n) == old(
                    self,
                ).storage.rows_of(n),
            forall|n: Seq<char>|
                n != collection_name@ ==> #[trigger] final(self).cached(n) == old(self).cached(n),
            data@ !is Obj ==> {
                &&& r matches Err(CollectionError::CollectionInputData { collection })
                    && collection@ == collection_name@
                &&& final(self).collections == old(self).collections
                &&& final(self).storage == old(self).storage
            },
            (data@ is Obj && old(self).cached(collection_name@) is None) ==> {
                &&& r matches Err(CollectionError::CollectionNotFound { collection })
                    && collection@ == collection_name@
                &&& final(self).collections == old(self).collections
                &&& final(self).storage == old(self).storage
            },
            (data@ is Obj && old(self).cached(collection_name@) is Some) ==> exists|
                c: CollectionModel,
            |
                #[trigger] update_resolved(
                    c,
                    old(self).cached(collection_name@).unwrap(),
                    collection_name@,
                    collection_id@,
                    data@,
                    final(self).cached(collection_name@),
                    final(self).storage.schemas(),
                    old(self).storage.rows_of(collection_name@),
                    final(self).storage.rows_of(collection_name@),
                    r,
                ),
    {
        if !data.is_object() {
            return Err(
                CollectionError::CollectionInputData { collection: collection_name.to_owned() },
            );
        }
        let ghost name = collection_name@;
        let ghost schemas0 = old(self).storage.schemas();
        let ghost rows0 = old(self).storage.rows_of(name);
        let cached_hit = match self.get_collection(collection_name) {
            Some(c) => c,
            None => {
                return Err(
                    CollectionError::CollectionNotFound {
                        collection: collection_name.to_owned(),
                    },
                );
            },
        };
        let ghost c0 = cached_hit@;
        proof {
            self.cached_in_catalog(name);
            self.storage.inv_facts();
            crate::storage::lemma_schema_lookup_found(self.storage.schemas(), name);
            let fi = choose|fi: int|
                0 <= fi < self.storage.schemas().len() && (#[trigger] self.storage.schemas()[fi])
                    == schema_lookup(self.storage.schemas(), name).unwrap()
                    && self.storage.schemas()[fi].name == name;
            assert(c0.wf());
            crate::collection::lemma_new_fields_props(c0.fields, obj_entries(data@));
            crate::storage::lemma_schema_lookup_absent(Seq::<CollectionModel>::empty(), name);
        }
        let new_fields = cached_hit.get_new_fields(&data);
        let ghost nf = new_fields.deep_view();
        let collection: Collection = if new_fields.len() > 0 {
            let nn = new_fields.len();
            let mut coll = cached_hit;
            let mut k: usize = 0;
            proof {
                assert(nf.take(0)
                    =~= Seq::<crate::collection_field::FieldModel>::empty());
                assert(coll@.fields =~= c0.fields + nf.take(0));
            }
            while k < nn
                invariant
                    nn == new_fields@.len(),
                    nf == new_fields.deep_view(),
                    nf.len() == nn,
                    forall|t: int| 0 <= t < nn ==> (#[trigger] nf[t]) == new_fields@[t]@,
                    forall|t: int|
                        0 <= t < nn ==> !crate::collection::is_reserved((#[trigger] nf[t]).name)
                            && crate::collection::field_lookup(c0.fields, (nf[t]).name) is None,
                    forall|t: int, u: int|
                        0 <= t < u < nn ==> (#[trigger] nf[t]).name != (#[trigger] nf[u]).name,
                    0 <= k <= nn,
                    self.storage.inv(),
                    self.collections == old(self).collections,
                    coll@.name == name,
                    coll@.fields =~= c0.fields + nf.take(k as int),
                    coll@.wf(),
                    c0.wf(),
                    schema_lookup(self.storage.schemas(), name) == Some(coll@),
                    forall|n2: Seq<char>|
                        n2 != name ==> #[trigger] schema_lookup(self.storage.schemas(), n2)
                            == schema_lookup(schemas0, n2),
                    forall|n2: Seq<char>|
                        #[trigger] self.storage.rows_of(n2) == old(self).storage.rows_of(n2),
                    old(self).wf(),
                    data@ is Obj,
                    old(self).cached(name) == Some(c0),
                    schemas0 == old(self).storage.schemas(),
                decreases nn - k,
            {
                let field = new_fields[k].deep_clone();
                proof {
                    assert(field@ == nf[k as int]);
                    assert(!crate::collection::is_reserved(field@.name));
                    crate::storage::lemma_field_lookup_absent(coll@.fields, field@.name);
                    assert forall|t: int|
                        0 <= t < coll@.fields.len() implies (#[trigger] coll@.fields[t]).name
                        != field@.name by {
                        if t < c0.fields.len() {
                            assert(coll@.fields[t] == c0.fields[t]);
                            crate::storage::lemma_field_lookup_absent(c0.fields, field@.name);
                        } else {
                            assert(coll@.fields[t] == nf.take(k as int)[t - c0.fields.len()]);
                            assert(nf.take(k as int)[t - c0.fields.len()] == nf[t
                                - c0.fields.len()]);
                        }
                    }
                    assert(crate::collection::field_lookup(coll@.fields, field@.name) is None);
                }
                let ghost s_pre = self.storage.schemas();
                let coll2 = match self.storage.insert_field_to_collection(&coll, field) {
                    Ok(c2) => c2,
                    Err(error) => {
                        proof {
                            assert(false);
                        }
                        return Err(CollectionError::StorageError { error });
                    },
                };
                coll = coll2;
                proof {
                    assert(coll@.fields =~= c0.fields + nf.take(k + 1));
                    assert forall|n2: Seq<char>| true implies #[trigger] schema_lookup(
                        self.storage.schemas(),
                        n2,
                    ) == (if n2 == name {
                        Some(coll@)
                    } else {
                        schema_lookup(s_pre, n2)
                    }) by {
                        crate::storage::lemma_schema_replace_lookup(s_pre, name, coll@, n2);
                    }
                }
                k = k + 1;
            }
            proof {
                assert(nf.take(nn as int) =~= nf);
                assert(coll@.fields =~= c0.fields + nf);
                assert(self.wf_except(name)) by {
                    assert forall|j: int|
                        0 <= j < self.collections@.len() && (
                    #[trigger] self.collections@[j])@.name != name implies schema_lookup(
                        self.storage.schemas(),
                        self.collections@[j]@.name,
                    ) == Some(self.collections@[j]@) by {
                        assert(self.collections@[j] == old(self).collections@[j]);
                        assert(schema_lookup(
                            self.storage.schemas(),
                            old(self).collections@[j]@.name,
                        ) == schema_lookup(schemas0, old(self).collections@[j]@.name));
                    }
                }
            }
            let cached_copy = coll.deep_clone();
            self.set_collection(cached_copy);
            proof {
                assert forall|n2: Seq<char>| n2 != name implies #[trigger] self.cached(n2) == old(
                    self,
                ).cached(n2) by {}
            }
            coll
        } else {
            proof {
                assert(nf =~= Seq::<crate::collection_field::FieldModel>::empty());
                assert(cached_hit@.fields =~= c0.fields + nf);
            }
            cached_hit
        };
        let ghost c = collection@;
        proof {
            assert(self.cached(name) == Some(c));
            self.cached_in_catalog(name);
            assert(self.storage.rows_of(name) == rows0);
        }
        match collection.validate(&data) {
            Ok(_) => {},
            Err(e) => {
                proof {
                    assert(update_resolved(
                        c,
                        c0,
                        name,
                        collection_id@,
                        data@,
                        self.cached(name),
                        self.storage.schemas(),
                        rows0,
                        self.storage.rows_of(name),
                        Err(e),
                    ));
                }
                return Err(e);
            },
        }
        match collection.required_values(&data, true) {
            Ok(_) => {},
            Err(e) => {
                proof {
                    assert(update_resolved(
                        c,
                        c0,
                        name,
                        collection_id@,
                        data@,
                        self.cached(name),
                        self.storage.schemas(),
                        rows0,
                        self.storage.rows_of(name),
                        Err(e),
                    ));
                }
                return Err(e);
            },
        }
        let result = match self.storage.update_data_into_collection(
            &collection,
            collection_id,
            data,
        ) {
            Ok(v) => Ok(v),
            Err(error) => Err(CollectionError::StorageError { error }),
        };
        proof {
            assert(update_resolved(
                c,
                c0,
                name,
                collection_id@,
                data@,
                self.cached(name),
                self.storage.schemas(),
                rows0,
                self.storage.rows_of(name),
                result,
            ));
            assert forall|n2: Seq<char>| n2 != name implies #[trigger] self.cached(n2) == old(
                self,
            ).cached(n2) by {
                if nf.len() == 0 {
                    assert(self.collections == old(self).collections);
                } else {
                    assert(self.collections.deep_view() == schema_replace(
                        old(self).collections.deep_view(),
                        name,
                        c,
                    ));
                    crate::storage::lemma_schema_replace_lookup(
                        old(self).collections.deep_view(),
                        name,
                        c,
                        n2,
                    );
                }
            }
        }
        result
    }

    /// The materialized rows the query selects, in storage order. Query
    /// keys the schema does not know are skipped silently. Fails exactly
    /// when no collection of this name is cached.
    pub fn list(&self, collection_name: &str, query: &JsonValue) -> (r: Result<
        Vec<JsonValue>,
        CollectionError,
    >)
        requires
            self.wf(),
            query@ is Obj,
        ensures
            match r {
                Ok(vs) => {
                    &&& self.cached(collection_name@) is Some
                    &&& schema_lookup(self.storage.schemas(), collection_name@) matches Some(c0)
                        && vs.deep_view() == crate::storage::list_spec(
                        c0,
                        self.storage.rows_of(collection_name@),
                        query_model(obj_entries(query@)),
                    )
                },
                Err(e) => {
                    &&& self.cached(collection_name@) is None
                    &&& e matches CollectionError::CollectionNotFound { collection } && collection@
                        == collection_name@
                },
            },
    {
        let collection = match self.get_collection(collection_name) {
            Some(c) => c,
            None => {
                return Err(
                    CollectionError::CollectionNotFound {
                        collection: collection_name.to_owned(),
                    },
                );
            },
        };
        proof {
            self.cached_in_catalog(collection_name@);
            assert(collection@.name == collection_name@);
        }
        let entries = match query {
            JsonValue::Obj(entries) => entries,
            _ => {
                proof {
                    assert(false);
                }
                return Err(
                    CollectionError::CollectionNotFound {
                        collection: collection_name.to_owned(),
                    },
                );
            },
        };
        proof {
            crate::json_value::jv_entries_view_index(entries@);
        }
        let ghost gentries = crate::json_value::jv_entries_view(entries@);
        let ghost gq = query_model(gentries);
        let n = entries.len();
        let mut fields: Vec<(String, Where)> = Vec::new();
        let mut i: usize = 0;
        while i < n
            invariant
                n == entries@.len(),
                gentries == crate::json_value::jv_entries_view(entries@),
                gentries.len() == n,
                forall|j: int|
                    0 <= j < n ==> #[trigger] gentries[j] == (entries@[j].0@, crate::json_value::jv_view(
                        entries@[j].1,
                    )),
                gq == query_model(gentries),
                0 <= i <= n,
                fields@.len() == i,
                forall|j: int| 0 <= j < i ==> (#[trigger] fields@[j]).deep_view() == gq[j],
            decreases n - i,
        {
            let entry = &entries[i];
            let w = Where::from_value(&entry.1);
            let ghost prev = fields@;
            fields.push((entry.0.clone(), w));
            proof {
                assert forall|j: int| 0 <= j < i + 1 implies (#[trigger] fields@[j]).deep_view()
                    == gq[j] by {
                    if j < i {
                        assert(fields@[j] == prev[j]);
                    } else {
                        assert(gentries[i as int] == (entries@[i as int].0@, crate::json_value::jv_view(
                            entries@[i as int].1,
                        )));
                    }
                }
            }
            i = i + 1;
        }
        proof {
            assert(fields.deep_view() =~= gq);
        }
        match self.storage.list_data_from_collection(&collection, &fields) {
            Ok(vs) => Ok(vs),
            Err(_) => {
                proof {
                    assert(false);
                }
                Err(CollectionError::CollectionNotFound { collection: collection_name.to_owned() })
            },
        }
    }
}

} // verus!
