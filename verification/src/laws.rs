//! Laws the engine guarantees, stated and proved over the same spec
//! functions the public contracts use.

use vstd::prelude::*;

use crate::collection::CollectionModel;
use crate::collection_field::FieldModel;
use crate::json_value::JsonVal;
use crate::storage::{
    chosen_id, get_or_null, insert_effect, insert_row_spec, known_key, lemma_insert_row_wf,
    lemma_row_lookup_push, materialize_row, matches_query, row_lookup,
};
use crate::where_attr::{sat_bundle, WhereModel};

verus! {

/// The bundle a bare `$eq` query denotes.
pub open spec fn eq_bundle(x: JsonVal) -> WhereModel {
    WhereModel {
        eq: Some(x),
        ne: None,
        gt: None,
        lt: None,
        gte: None,
        lte: None,
        in_: None,
        nin: None,
    }
}

/// The bundle a bare `$ne` query denotes.
pub open spec fn ne_bundle(x: JsonVal) -> WhereModel {
    WhereModel {
        eq: None,
        ne: Some(x),
        gt: None,
        lt: None,
        gte: None,
        lte: None,
        in_: None,
        nin: None,
    }
}

/// The bundle a bare `$in` query denotes.
pub open spec fn in_bundle(xs: Seq<JsonVal>) -> WhereModel {
    WhereModel {
        eq: None,
        ne: None,
        gt: None,
        lt: None,
        gte: None,
        lte: None,
        in_: Some(xs),
        nin: None,
    }
}

/// The bundle a bare `$nin` query denotes.
pub open spec fn nin_bundle(xs: Seq<JsonVal>) -> WhereModel {
    WhereModel {
        eq: None,
        ne: None,
        gt: None,
        lt: None,
        gte: None,
        lte: None,
        in_: None,
        nin: Some(xs),
    }
}

/// Round trip: a row a successful insert stored is found again under the
/// id the insert chose, and it materializes to exactly what the insert
/// returned. Reading back an insert's result returns an equal object.
pub proof fn lemma_insert_get_round_trip(
    c0: CollectionModel,
    rows0: Seq<JsonVal>,
    data: JsonVal,
    id: Seq<char>,
    now: Seq<char>,
    rows1: Seq<JsonVal>,
    out: JsonVal,
)
    requires
        c0.wf(),
        insert_effect(c0, rows0, data, id, now, rows1, out),
    ensures
        row_lookup(rows1, chosen_id(data, id)) == Some(insert_row_spec(
            c0,
            data,
            chosen_id(data, id),
            now,
        )),
        materialize_row(c0, row_lookup(rows1, chosen_id(data, id)).unwrap()) == out,
{
    let rid = chosen_id(data, id);
    let row = insert_row_spec(c0, data, rid, now);
    lemma_insert_row_wf(c0, data, rid, now);
    lemma_row_lookup_push(rows0, rid, row);
}

/// Equality and inequality partition the rows: on a known key whose row
/// value is not null, a row matches the `$eq` query exactly when it does
/// not match the `$ne` query. So the two result sets are disjoint and
/// together cover every row.
pub proof fn lemma_eq_ne_partition(c: CollectionModel, key: Seq<char>, x: JsonVal, row: JsonVal)
    requires
        known_key(c, key),
        !(get_or_null(row, key) is Null),
    ensures
        matches_query(c, seq![(key, eq_bundle(x))], row) <==> !matches_query(
            c,
            seq![(key, ne_bundle(x))],
            row,
        ),
{
    let q_eq = seq![(key, eq_bundle(x))];
    let q_ne = seq![(key, ne_bundle(x))];
    let val = get_or_null(row, key);
    assert(q_eq[0] == (key, eq_bundle(x)));
    assert(q_ne[0] == (key, ne_bundle(x)));
    assert(sat_bundle(eq_bundle(x), val) == (val == x));
    assert(sat_bundle(ne_bundle(x), val) == (val != x));
    if sat_bundle(eq_bundle(x), val) {
        assert(matches_query(c, q_eq, row));
        assert(!matches_query(c, q_ne, row));
    } else {
        assert(!matches_query(c, q_eq, row)) by {
            assert(known_key(c, q_eq[0].0));
        }
        assert(matches_query(c, q_ne, row)) by {
            assert forall|j: int| 0 <= j < q_ne.len() implies (known_key(
                c,
                (#[trigger] q_ne[j]).0,
            ) ==> sat_bundle(q_ne[j].1, get_or_null(row, q_ne[j].0))) by {}
        }
    }
}

/// Membership and its complement partition the rows the same way: on a
/// known key whose row value is not null, a row matches the `$in` query
/// exactly when it does not match the `$nin` query over the same list.
pub proof fn lemma_in_nin_partition(
    c: CollectionModel,
    key: Seq<char>,
    xs: Seq<JsonVal>,
    row: JsonVal,
)
    requires
        known_key(c, key),
        !(get_or_null(row, key) is Null),
    ensures
        matches_query(c, seq![(key, in_bundle(xs))], row) <==> !matches_query(
            c,
            seq![(key, nin_bundle(xs))],
            row,
        ),
{
    let q_in = seq![(key, in_bundle(xs))];
    let q_nin = seq![(key, nin_bundle(xs))];
    let val = get_or_null(row, key);
    assert(q_in[0] == (key, in_bundle(xs)));
    assert(q_nin[0] == (key, nin_bundle(xs)));
    assert(sat_bundle(in_bundle(xs), val) == xs.contains(val));
    assert(sat_bundle(nin_bundle(xs), val) == !xs.contains(val));
    if xs.contains(val) {
        assert(matches_query(c, q_in, row));
        assert(!matches_query(c, q_nin, row)) by {
            assert(known_key(c, q_nin[0].0));
        }
    } else {
        assert(!matches_query(c, q_in, row)) by {
            assert(known_key(c, q_in[0].0));
        }
        assert(matches_query(c, q_nin, row));
    }
}

/// Round trip at the registry's level: after a successful insert, the
/// stored table holds a row under the id the insert chose, and reading
/// that row back under the cataloged schema materializes to exactly the
/// object the insert returned — which is what `get` returns for that id.
pub proof fn lemma_round_trip_after_insert(
    schemas1: Seq<CollectionModel>,
    rows0: Seq<JsonVal>,
    name: Seq<char>,
    data: JsonVal,
    rows1: Seq<JsonVal>,
    out: JsonVal,
)
    requires
        crate::storage::schemas_wf(schemas1),
        crate::storage::insert_ok_post(schemas1, rows0, name, data, rows1, out),
    ensures
        crate::storage::schema_lookup(schemas1, name) matches Some(c0) && (exists|rid: Seq<char>|
            {
                &&& #[trigger] row_lookup(rows1, rid) is Some
                &&& materialize_row(c0, row_lookup(rows1, rid).unwrap()) == out
            }),
{
    let (id, now) = choose|id: Seq<char>, now: Seq<char>|
        #[trigger] crate::storage::insert_ok_at(schemas1, rows0, name, data, id, now, rows1, out);
    let c0 = crate::storage::schema_lookup(schemas1, name).unwrap();
    crate::storage::lemma_schema_lookup_found(schemas1, name);
    let fi = choose|fi: int|
        0 <= fi < schemas1.len() && (#[trigger] schemas1[fi]) == crate::storage::schema_lookup(
            schemas1,
            name,
        ).unwrap() && schemas1[fi].name == name;
    assert(c0.wf());
    lemma_insert_get_round_trip(c0, rows0, data, id, now, rows1, out);
    let rid = chosen_id(data, id);
    assert(row_lookup(rows1, rid) is Some);
}

/// Required enforcement: a field declared required with no default, for
/// which the payload supplies nothing or null, is named by the
/// required-field check that runs after defaulting — so such an insert
/// fails with a validation error listing that field.
pub proof fn lemma_required_enforcement(fields: Seq<FieldModel>, data: JsonVal, i: int)
    requires
        0 <= i < fields.len(),
        crate::collection::fields_wf(fields),
        fields[i].is_required(),
        fields[i].default is None,
        data.get(fields[i].name) is None || data.get(fields[i].name) == Some(JsonVal::Null),
    ensures
        crate::collection::required_missing_spec(
            fields,
            JsonVal::Obj(crate::collection::defaults_spec(fields, data)),
            false,
        ).contains(fields[i].name),
{
    let defaulted = JsonVal::Obj(crate::collection::defaults_spec(fields, data));
    let entries = crate::collection::defaults_spec(fields, data);
    assert(entries[i] == (fields[i].name, crate::collection::resolved_value(fields[i], data)));
    assert forall|k: int| 0 <= k < i implies (#[trigger] entries[k]).0 != entries[i].0 by {
        assert(entries[k].0 == fields[k].name);
    }
    crate::json_value::lemma_obj_lookup_at(entries, i);
    assert(defaulted.get(fields[i].name) == Some(JsonVal::Null));
    lemma_required_missing_member(fields, defaulted, i);
}

/// A required field whose value is still null after defaulting is among
/// the reported names.
proof fn lemma_required_missing_member(fields: Seq<FieldModel>, d: JsonVal, i: int)
    requires
        0 <= i < fields.len(),
        fields[i].is_required(),
        match d.get(fields[i].name) {
            Some(v) => v is Null,
            None => true,
        },
    ensures
        crate::collection::required_missing_spec(fields, d, false).contains(fields[i].name),
    decreases fields.len(),
{
    let res = crate::collection::required_missing_spec(fields, d, false);
    let rest = crate::collection::required_missing_spec(fields.skip(1), d, false);
    if i == 0 {
        assert(res[0] == fields[0].name);
        assert(res.contains(fields[0].name));
    } else {
        assert(fields.skip(1)[i - 1] == fields[i]);
        lemma_required_missing_member(fields.skip(1), d, i - 1);
        let w = choose|w: int| 0 <= w < rest.len() && rest[w] == fields[i].name;
        if fields[0].is_required() && (match d.get(fields[0].name) {
            Some(v) => v is Null,
            None => true,
        }) {
            assert(res[1 + w] == rest[w]);
            assert(res.contains(fields[i].name));
        } else {
            assert(res == rest);
            assert(res.contains(fields[i].name));
        }
    }
}

/// Defaulting: a field resolves to the supplied value when one is present
/// and not null, and to its declared default (null when none is set)
/// otherwise.
pub proof fn lemma_defaulting(f: FieldModel, data: JsonVal)
    ensures
        data.get(f.name) matches Some(v) ==> (!(v is Null)
            ==> crate::collection::resolved_value(f, data) == v),
        (data.get(f.name) is None || data.get(f.name) == Some(JsonVal::Null))
            ==> crate::collection::resolved_value(f, data) == f.default_or_null(),
{
}

} // verus!
