//! The relational adapter's compute half: DDL text for schema changes,
//! type-directed conversion of values into bound parameters, and the
//! typed decoding of raw column values back into JSON. A backend executes
//! these texts and parameters; nothing here performs I/O.

use vstd::prelude::*;

use crate::collection::{field_lookup, Collection, CollectionModel};
use crate::collection_field::CollectionField;
use crate::field_type::FieldType;
use crate::json_value::{jv_entries_view, JsonVal, JsonValue};
use crate::storage::ts_value;
use crate::util::{append_str, dec_str, push_dec, str_eq, string_from_chars};
use crate::where_attr::{Where, WhereModel};

verus! {

/// The column type a field type maps to.
pub open spec fn column_type_text(t: FieldType) -> Seq<char> {
    match t {
        FieldType::String => "text"@,
        FieldType::Number => "double precision"@,
        FieldType::Boolean => "boolean"@,
        FieldType::Array => "jsonb"@,
        FieldType::Object => "jsonb"@,
        FieldType::TimeStamp => "timestamptz"@,
    }
}

/// The column type a field type maps to.
pub fn column_type(t: FieldType) -> (r: &'static str)
    ensures
        r@ == column_type_text(t),
{
    match t {
        FieldType::String => "text",
        FieldType::Number => "double precision",
        FieldType::Boolean => "boolean",
        FieldType::Array => "jsonb",
        FieldType::Object => "jsonb",
        FieldType::TimeStamp => "timestamptz",
    }
}

/// The statement that adds one field's column to a collection's table.
pub open spec fn alter_add_sql_spec(schema: Seq<char>, field: Seq<char>, t: FieldType) -> Seq<
    char,
> {
    "ALTER TABLE \""@ + schema + "\" ADD \""@ + field + "\" "@ + column_type_text(t) + ";"@
}

/// The statement that adds one field's column to a collection's table.
pub fn query_field_to_collection(schema: &str, field: &CollectionField) -> (r: String)
    ensures
        r@ == alter_add_sql_spec(schema@, field@.name, field@.field_type),
{
    let mut out: Vec<char> = Vec::new();
    append_str(&mut out, "ALTER TABLE \"");
    append_str(&mut out, schema);
    append_str(&mut out, "\" ADD \"");
    append_str(&mut out, field.name.as_str());
    append_str(&mut out, "\" ");
    append_str(&mut out, column_type(field.field_type));
    append_str(&mut out, ";");
    proof {
        assert(out@ =~= alter_add_sql_spec(schema@, field@.name, field@.field_type));
    }
    string_from_chars(&out)
}

/// The statement that creates a collection's table with exactly the three
/// reserved columns.
pub open spec fn create_table_sql_spec(name: Seq<char>) -> Seq<char> {
    "CREATE TABLE IF NOT EXISTS \""@ + name
        + "\" (id VARCHAR NOT NULL PRIMARY KEY, created_at TIMESTAMP with time zone NOT NULL, updated_at TIMESTAMP with time zone NOT NULL);"@
}

/// The statement that creates a collection's table with exactly the three
/// reserved columns.
pub fn create_table_sql(name: &str) -> (r: String)
    ensures
        r@ == create_table_sql_spec(name@),
{
    let mut out: Vec<char> = Vec::new();
    append_str(&mut out, "CREATE TABLE IF NOT EXISTS \"");
    append_str(&mut out, name);
    append_str(
        &mut out,
        "\" (id VARCHAR NOT NULL PRIMARY KEY, created_at TIMESTAMP with time zone NOT NULL, updated_at TIMESTAMP with time zone NOT NULL);",
    );
    proof {
        assert(out@ =~= create_table_sql_spec(name@));
    }
    string_from_chars(&out)
}

/// A value bound to one statement placeholder, already converted for its
/// column's type. Numeric slots carry decimal text for the backend to
/// parse into its machine representation.
#[derive(Debug)]
pub enum SqlParam {
    /// A text column's value: a string, or null for any other value.
    Text(Option<String>),
    /// A double-precision column's value as decimal text, or null.
    Float(Option<String>),
    /// A boolean column's value, or null.
    Bool(Option<bool>),
    /// A document column's value, or null for a non-document.
    Doc(Option<JsonValue>),
    /// A timestamp column's value as decimal text, or null.
    Stamp(Option<String>),
}

/// The mathematical shape of a bound parameter.
#[verifier::ext_equal]
pub enum SqlParamModel {
    Text(Option<Seq<char>>),
    Float(Option<Seq<char>>),
    Bool(Option<bool>),
    Doc(Option<JsonVal>),
    Stamp(Option<Seq<char>>),
}

impl View for SqlParam {
    type V = SqlParamModel;

    open spec fn view(&self) -> SqlParamModel {
        match self {
            SqlParam::Text(o) => SqlParamModel::Text(
                match o {
                    Some(s) => Some(s@),
                    None => None,
                },
            ),
            SqlParam::Float(o) => SqlParamModel::Float(
                match o {
                    Some(s) => Some(s@),
                    None => None,
                },
            ),
            SqlParam::Bool(o) => SqlParamModel::Bool(*o),
            SqlParam::Doc(o) => SqlParamModel::Doc(
                match o {
                    Some(v) => Some(v@),
                    None => None,
                },
            ),
            SqlParam::Stamp(o) => SqlParamModel::Stamp(
                match o {
                    Some(s) => Some(s@),
                    None => None,
                },
            ),
        }
    }
}

/// The parameter a JSON value binds for a field's column: a string for a
/// text column, the number's text for a double or timestamp column, a
/// boolean for a boolean column, the document itself for a document
/// column; anything else binds null.
pub open spec fn param_spec(t: FieldType, v: JsonVal) -> SqlParamModel {
    match t {
        FieldType::String => SqlParamModel::Text(
            match v {
                JsonVal::Str(s) => Some(s),
                _ => None,
            },
        ),
        FieldType::Number => SqlParamModel::Float(
            match v {
                JsonVal::Num(s) => Some(s),
                _ => None,
            },
        ),
        FieldType::Boolean => SqlParamModel::Bool(
            match v {
                JsonVal::Bool(b) => Some(b),
                _ => None,
            },
        ),
        FieldType::Array | FieldType::Object => SqlParamModel::Doc(
            match v {
                JsonVal::Arr(_) => Some(v),
                JsonVal::Obj(_) => Some(v),
                _ => None,
            },
        ),
        FieldType::TimeStamp => SqlParamModel::Stamp(
            match v {
                JsonVal::Num(s) => Some(s),
                _ => None,
            },
        ),
    }
}

impl DeepView for SqlParam {
    type V = SqlParamModel;

    open spec fn deep_view(&self) -> SqlParamModel {
        self.view()
    }
}

/// Converts one JSON value into the bound parameter its field's column
/// type calls for.
pub fn add_value_into_args(field: &CollectionField, value: &JsonValue, args: &mut Vec<SqlParam>)
    ensures
        final(args)@.len() == old(args)@.len() + 1,
        (final(args)@[old(args)@.len() as int])@ == param_spec(field@.field_type, value@),
        forall|i: int| 0 <= i < old(args)@.len() ==> final(args)@[i] == old(args)@[i],
{
    let p = to_param(field.field_type, value);
    args.push(p);
}

/// Converts one JSON value into the bound parameter a column type calls
/// for.
pub fn to_param(t: FieldType, value: &JsonValue) -> (p: SqlParam)
    ensures
        p@ == param_spec(t, value@),
{
    let p: SqlParam = match t {
        FieldType::String => SqlParam::Text(
            match value {
                JsonValue::Str(s) => Some(s.clone()),
                _ => None,
            },
        ),
        FieldType::Number => SqlParam::Float(
            match value {
                JsonValue::Num(s) => Some(s.clone()),
                _ => None,
            },
        ),
        FieldType::Boolean => SqlParam::Bool(
            match value {
                JsonValue::Bool(b) => Some(*b),
                _ => None,
            },
        ),
        FieldType::Array | FieldType::Object => SqlParam::Doc(
            match value {
                JsonValue::Arr(_) => Some(value.deep_clone()),
                JsonValue::Obj(_) => Some(value.deep_clone()),
                _ => None,
            },
        ),
        FieldType::TimeStamp => SqlParam::Stamp(
            match value {
                JsonValue::Num(s) => Some(s.clone()),
                _ => None,
            },
        ),
    };
    p
}

/// One raw column value as a backend hands it over: typed, or null.
#[derive(Debug)]
pub enum ColumnValue {
    Null,
    /// A text column's content.
    Text(String),
    /// A double-precision column's content, as decimal text.
    Float(String),
    /// A boolean column's content.
    Bool(bool),
    /// A document column's content.
    Doc(JsonValue),
    /// A timestamp column's content, as its text form.
    Stamp(String),
}

/// The JSON value one raw column decodes to under its field's type: null
/// stays null, matching kinds carry over, and a timestamp becomes the
/// tagged wrapper. A value of the wrong kind decodes to null.
pub open spec fn decode_column_spec(t: FieldType, col: ColumnValue) -> JsonVal {
    match (t, col) {
        (FieldType::String, ColumnValue::Text(s)) => JsonVal::Str(s@),
        (FieldType::Number, ColumnValue::Float(s)) => JsonVal::Num(s@),
        (FieldType::Boolean, ColumnValue::Bool(b)) => JsonVal::Bool(b),
        (FieldType::Array, ColumnValue::Doc(v)) => v@,
        (FieldType::Object, ColumnValue::Doc(v)) => v@,
        (FieldType::TimeStamp, ColumnValue::Stamp(s)) => ts_value(s@),
        _ => JsonVal::Null,
    }
}

/// Decodes one raw column under its field's type.
pub fn decode_column(t: FieldType, col: &ColumnValue) -> (r: JsonValue)
    ensures
        r@ == decode_column_spec(t, *col),
{
    match (t, col) {
        (FieldType::String, ColumnValue::Text(s)) => JsonValue::Str(s.clone()),
        (FieldType::Number, ColumnValue::Float(s)) => JsonValue::Num(s.clone()),
        (FieldType::Boolean, ColumnValue::Bool(b)) => JsonValue::Bool(*b),
        (FieldType::Array, ColumnValue::Doc(v)) => v.deep_clone(),
        (FieldType::Object, ColumnValue::Doc(v)) => v.deep_clone(),
        (FieldType::TimeStamp, ColumnValue::Stamp(s)) => {
            let mut entries: Vec<(String, JsonValue)> = Vec::new();
            entries.push(
                (String::from_str("__type"), JsonValue::Str(String::from_str("TimeStamp"))),
            );
            entries.push((String::from_str("value"), JsonValue::Str(s.clone())));
            let r = JsonValue::Obj(entries);
            proof {
                match &r {
                    JsonValue::Obj(es) => {
                        let t2 = seq![
                            ("__type"@, JsonVal::Str("TimeStamp"@)),
                            ("value"@, JsonVal::Str(s@)),
                        ];
                        assert(es@.len() == 2);
                        assert(t2[0] == (es@[0].0@, crate::json_value::jv_view(es@[0].1)));
                        assert(t2[1] == (es@[1].0@, crate::json_value::jv_view(es@[1].1)));
                        crate::json_value::jv_entries_view_eq(es@, t2);
                    },
                    _ => {},
                }
            }
            r
        },
        _ => JsonValue::Null,
    }
}

/// The `$n` placeholder for the one-based parameter number `n`.
pub open spec fn ph_text(n: nat) -> Seq<char> {
    seq!['$'] + dec_str(n)
}

/// A column name in its quoted form.
pub open spec fn quoted(key: Seq<char>) -> Seq<char> {
    seq!['"'] + key + seq!['"']
}

/// One comparison fragment: the quoted column, the operator, and the
/// placeholder numbered `n`.
pub open spec fn simple_frag(key: Seq<char>, op: Seq<char>, n: nat) -> Seq<char> {
    quoted(key) + op + ph_text(n)
}

/// The comma-joined placeholders numbered `n` through `n + len - 1`.
pub open spec fn ph_list(n: nat, len: nat) -> Seq<char>
    decreases len,
{
    if len == 0 {
        Seq::empty()
    } else if len == 1 {
        ph_text(n)
    } else {
        ph_text(n) + ", "@ + ph_list(n + 1, (len - 1) as nat)
    }
}

/// The membership fragment: the quoted column equals any of a placeholder
/// array.
pub open spec fn any_frag(key: Seq<char>, n: nat, len: nat) -> Seq<char> {
    quoted(key) + " = ANY(ARRAY["@ + ph_list(n, len) + "])"@
}

/// The negated membership fragment.
pub open spec fn not_any_frag(key: Seq<char>, n: nat, len: nat) -> Seq<char> {
    "NOT("@ + quoted(key) + " = ANY(ARRAY["@ + ph_list(n, len) + "]))"@
}

/// The parameter one operator slot contributes.
pub open spec fn opt_param(t: FieldType, o: Option<JsonVal>) -> Seq<SqlParamModel> {
    match o {
        Some(x) => seq![param_spec(t, x)],
        None => Seq::empty(),
    }
}

/// The fragment one operator slot contributes, numbered `n`.
pub open spec fn opt_frag(key: Seq<char>, op: Seq<char>, o: Option<JsonVal>, n: nat) -> Seq<
    Seq<char>,
> {
    match o {
        Some(_) => seq![simple_frag(key, op, n)],
        None => Seq::empty(),
    }
}

/// Every fragment and parameter one predicate bundle contributes, with
/// parameter numbers continuing from `p0` bound parameters before it.
/// Operator order: `eq, ne, gt, gte, lt, lte, in, nin`.
pub open spec fn bundle_frags(key: Seq<char>, t: FieldType, w: WhereModel, p0: nat) -> (
    Seq<Seq<char>>,
    Seq<SqlParamModel>,
) {
    let f1 = opt_frag(key, " = "@, w.eq, p0 + 1);
    let a1 = opt_param(t, w.eq);
    let p1 = p0 + a1.len();
    let f2 = opt_frag(key, " != "@, w.ne, p1 + 1);
    let a2 = opt_param(t, w.ne);
    let p2 = p1 + a2.len();
    let f3 = opt_frag(key, " > "@, w.gt, p2 + 1);
    let a3 = opt_param(t, w.gt);
    let p3 = p2 + a3.len();
    let f4 = opt_frag(key, " >= "@, w.gte, p3 + 1);
    let a4 = opt_param(t, w.gte);
    let p4 = p3 + a4.len();
    let f5 = opt_frag(key, " < "@, w.lt, p4 + 1);
    let a5 = opt_param(t, w.lt);
    let p5 = p4 + a5.len();
    let f6 = opt_frag(key, " <= "@, w.lte, p5 + 1);
    let a6 = opt_param(t, w.lte);
    let p6 = p5 + a6.len();
    let f7 = match w.in_ {
        Some(xs) => seq![any_frag(key, p6 + 1, xs.len())],
        None => Seq::empty(),
    };
    let a7 = match w.in_ {
        Some(xs) => xs.map_values(|x: JsonVal| param_spec(t, x)),
        None => Seq::empty(),
    };
    let p7 = p6 + a7.len();
    let f8 = match w.nin {
        Some(xs) => seq![not_any_frag(key, p7 + 1, xs.len())],
        None => Seq::empty(),
    };
    let a8 = match w.nin {
        Some(xs) => xs.map_values(|x: JsonVal| param_spec(t, x)),
        None => Seq::empty(),
    };
    (f1 + f2 + f3 + f4 + f5 + f6 + f7 + f8, a1 + a2 + a3 + a4 + a5 + a6 + a7 + a8)
}

/// The column type a query key addresses: a reserved column's implicit
/// type, or the declared field's; `None` for a key the schema does not
/// know.
pub open spec fn key_field_type(c: CollectionModel, key: Seq<char>) -> Option<FieldType> {
    if key == "id"@ {
        Some(FieldType::String)
    } else if key == "created_at"@ || key == "updated_at"@ {
        Some(FieldType::TimeStamp)
    } else {
        match field_lookup(c.fields, key) {
            Some(f) => Some(f.field_type),
            None => None,
        }
    }
}

/// Every fragment and parameter a whole predicate map contributes, in map
/// order, numbering parameters from `p0`; unknown keys contribute
/// nothing.
pub open spec fn where_frags(
    c: CollectionModel,
    q: Seq<(Seq<char>, WhereModel)>,
    p0: nat,
) -> (Seq<Seq<char>>, Seq<SqlParamModel>)
    decreases q.len(),
{
    if q.len() == 0 {
        (Seq::empty(), Seq::empty())
    } else {
        match key_field_type(c, q[0].0) {
            Some(t) => {
                let head = bundle_frags(q[0].0, t, q[0].1, p0);
                let rest = where_frags(c, q.skip(1), p0 + head.1.len());
                (head.0 + rest.0, head.1 + rest.1)
            },
            None => where_frags(c, q.skip(1), p0),
        }
    }
}

/// The fragments joined with `AND`.
pub open spec fn join_and(frags: Seq<Seq<char>>) -> Seq<char>
    decreases frags.len(),
{
    if frags.len() == 0 {
        Seq::empty()
    } else if frags.len() == 1 {
        frags[0]
    } else {
        frags[0] + " AND "@ + join_and(frags.skip(1))
    }
}

proof fn join_and_push(frags: Seq<Seq<char>>, f: Seq<char>)
    ensures
        join_and(frags.push(f)) == if frags.len() == 0 {
            f
        } else {
            join_and(frags) + " AND "@ + f
        },
    decreases frags.len(),
{
    if frags.len() == 0 {
        assert(frags.push(f)[0] == f);
    } else {
        assert(frags.push(f)[0] == frags[0]);
        assert(frags.push(f).skip(1) =~= frags.skip(1).push(f));
        join_and_push(frags.skip(1), f);
        assert(join_and(frags.push(f)) =~= join_and(frags) + " AND "@ + f);
    }
}

/// The column type a query key addresses, or `None` for an unknown key.
pub fn key_field_type_exec(c: &Collection, key: &str) -> (r: Option<FieldType>)
    ensures
        r == key_field_type(c@, key@),
{
    if str_eq(key, "id") {
        Some(FieldType::String)
    } else if str_eq(key, "created_at") || str_eq(key, "updated_at") {
        Some(FieldType::TimeStamp)
    } else {
        match c.get_field(key) {
            Some(f) => Some(f.field_type),
            None => None,
        }
    }
}

/// Appends one comparison fragment for the parameter just bound.
fn push_simple_frag(frags: &mut Vec<String>, key: &str, op: &str, n: usize)
    ensures
        final(frags)@.len() == old(frags)@.len() + 1,
        forall|i: int| 0 <= i < old(frags)@.len() ==> final(frags)@[i] == old(frags)@[i],
        (final(frags)@[old(frags)@.len() as int])@ == simple_frag(key@, op@, n as nat),
{
    let mut text: Vec<char> = Vec::new();
    text.push('"');
    append_str(&mut text, key);
    text.push('"');
    append_str(&mut text, op);
    text.push('$');
    push_dec(&mut text, n as u64);
    proof {
        assert(text@ =~= simple_frag(key@, op@, n as nat));
    }
    frags.push(string_from_chars(&text));
}

/// Appends one membership fragment (`= ANY(ARRAY[...])`, negated when
/// `negated`) and one parameter per list element.
#[verifier::loop_isolation(false)]
#[verifier::rlimit(60)]
fn append_any_frag(
    key: &str,
    t: FieldType,
    xs: &Vec<JsonValue>,
    negated: bool,
    frags: &mut Vec<String>,
    params: &mut Vec<SqlParam>,
)
    ensures
        final(frags).deep_view() == old(frags).deep_view() + seq![
            (if negated {
                not_any_frag(key@, old(params)@.len() as nat + 1, xs@.len())
            } else {
                any_frag(key@, old(params)@.len() as nat + 1, xs@.len())
            }),
        ],
        final(params).deep_view() == old(params).deep_view() + crate::json_value::jv_seq_view(
            xs@,
        ).map_values(|x: JsonVal| param_spec(t, x)),
{
    let ghost frags_pre0 = frags@;
    let start = params.len();
    let ghost params_pre = params@;
    let mut text: Vec<char> = Vec::new();
    if negated {
        append_str(&mut text, "NOT(");
    }
    text.push('"');
    append_str(&mut text, key);
    text.push('"');
    append_str(&mut text, " = ANY(ARRAY[");
    let ghost arr0 = text@;
    let nn = xs.len();
    let mut k: usize = 0;
    while k < nn
        invariant
            nn == xs@.len(),
            0 <= k <= nn,
            params@.len() == start + k,
            text@ == arr0 + ph_list(start as nat + 1, k as nat),
            forall|i: int|
                0 <= i < k ==> (#[trigger] params@[start + i])@ == param_spec(t, xs@[i]@),
            forall|i2: int| 0 <= i2 < start ==> #[trigger] params@[i2] == params_pre[i2],
        decreases nn - k,
    {
        params.push(to_param(t, &xs[k]));
        if k > 0 {
            append_str(&mut text, ", ");
        }
        text.push('$');
        push_dec(&mut text, params.len() as u64);
        proof {
            ph_list_push(start as nat + 1, k as nat);
            assert(text@ =~= arr0 + ph_list(start as nat + 1, (k + 1) as nat));
        }
        k = k + 1;
    }
    if negated {
        append_str(&mut text, "]))");
        proof {
            assert(text@ =~= not_any_frag(key@, start as nat + 1, nn as nat));
        }
    } else {
        append_str(&mut text, "])");
        proof {
            assert(text@ =~= any_frag(key@, start as nat + 1, nn as nat));
        }
    }
    push_text_frag(frags, &text);
    proof {
        crate::json_value::jv_seq_view_index(xs@);
        let ax = crate::json_value::jv_seq_view(xs@).map_values(|x: JsonVal| param_spec(t, x));
        let fx = seq![
            (if negated {
                not_any_frag(key@, params_pre.len() as nat + 1, xs@.len())
            } else {
                any_frag(key@, params_pre.len() as nat + 1, xs@.len())
            }),
        ];
        assert forall|j: int| 0 <= j < params@.len() implies params.deep_view()[j] == (old(
            params,
        ).deep_view() + ax)[j] by {
            if j < start {
                assert(params@[j] == params_pre[j]);
                assert(old(params).deep_view()[j] == params_pre[j]@);
            } else {
                assert(params@[start + (j - start)]@ == param_spec(t, xs@[j - start]@));
                assert(params@[j]@ == param_spec(t, xs@[j - start]@));
                assert(ax[j - start] == param_spec(
                    t,
                    crate::json_value::jv_seq_view(xs@)[j - start],
                ));
            }
        }
        assert(params.deep_view() =~= old(params).deep_view() + ax);
        assert forall|j: int| 0 <= j < frags@.len() implies frags.deep_view()[j] == (old(
            frags,
        ).deep_view() + fx)[j] by {
            if j < frags_pre0.len() {
                assert(frags@[j] == frags_pre0[j]);
                assert(old(frags).deep_view()[j] == frags_pre0[j]@);
            }
        }
        assert(frags.deep_view() =~= old(frags).deep_view() + fx);
    }
}

/// Appends one comparison fragment and parameter when the slot is set.
fn append_simple_op(
    key: &str,
    op: &str,
    t: FieldType,
    slot: &Option<JsonValue>,
    frags: &mut Vec<String>,
    params: &mut Vec<SqlParam>,
)
    ensures
        final(frags).deep_view() == old(frags).deep_view() + opt_frag(
            key@,
            op@,
            crate::where_attr::opt_view(*slot),
            old(params)@.len() as nat + 1,
        ),
        final(params).deep_view() == old(params).deep_view() + opt_param(
            t,
            crate::where_attr::opt_view(*slot),
        ),
{
    let ghost frags_pre = frags@;
    let ghost params_pre = params@;
    match slot {
        Some(x) => {
            params.push(to_param(t, x));
            push_simple_frag(frags, key, op, params.len());
            proof {
                let fx = opt_frag(
                    key@,
                    op@,
                    crate::where_attr::opt_view(*slot),
                    params_pre.len() as nat + 1,
                );
                let ax = opt_param(t, crate::where_attr::opt_view(*slot));
                assert forall|j: int| 0 <= j < frags@.len() implies frags.deep_view()[j] == (
                old(frags).deep_view() + fx)[j] by {
                    if j < frags_pre.len() {
                        assert(frags@[j] == frags_pre[j]);
                    }
                }
                assert(frags.deep_view() =~= old(frags).deep_view() + fx);
                assert forall|j: int| 0 <= j < params@.len() implies params.deep_view()[j] == (
                old(params).deep_view() + ax)[j] by {
                    if j < params_pre.len() {
                        assert(params@[j] == params_pre[j]);
                    }
                }
                assert(params.deep_view() =~= old(params).deep_view() + ax);
            }
        },
        None => {
            proof {
                assert(frags.deep_view() =~= old(frags).deep_view() + Seq::<Seq<char>>::empty());
                assert(params.deep_view() =~= old(params).deep_view()
                    + Seq::<SqlParamModel>::empty());
            }
        },
    }
}

/// Appends one finished fragment text.
fn push_text_frag(frags: &mut Vec<String>, text: &Vec<char>)
    ensures
        final(frags)@.len() == old(frags)@.len() + 1,
        forall|i: int| 0 <= i < old(frags)@.len() ==> final(frags)@[i] == old(frags)@[i],
        (final(frags)@[old(frags)@.len() as int])@ == text@,
{
    frags.push(string_from_chars(text));
}

/// The fragments and parameters the six comparison operators contribute.
pub open spec fn cmp_frags(key: Seq<char>, t: FieldType, w: WhereModel, p0: nat) -> (
    Seq<Seq<char>>,
    Seq<SqlParamModel>,
) {
    let a1 = opt_param(t, w.eq);
    let p1 = p0 + a1.len();
    let a2 = opt_param(t, w.ne);
    let p2 = p1 + a2.len();
    let a3 = opt_param(t, w.gt);
    let p3 = p2 + a3.len();
    let a4 = opt_param(t, w.gte);
    let p4 = p3 + a4.len();
    let a5 = opt_param(t, w.lt);
    let p5 = p4 + a5.len();
    let a6 = opt_param(t, w.lte);
    (
        opt_frag(key, " = "@, w.eq, p0 + 1) + opt_frag(key, " != "@, w.ne, p1 + 1) + opt_frag(
            key,
            " > "@,
            w.gt,
            p2 + 1,
        ) + opt_frag(key, " >= "@, w.gte, p3 + 1) + opt_frag(key, " < "@, w.lt, p4 + 1)
            + opt_frag(key, " <= "@, w.lte, p5 + 1),
        a1 + a2 + a3 + a4 + a5 + a6,
    )
}

/// How a whole bundle decomposes into its comparison part and the two
/// membership parts.
proof fn bundle_decompose(key: Seq<char>, t: FieldType, w: WhereModel, p0: nat)
    ensures
        ({
            let cmp = cmp_frags(key, t, w, p0);
            let p6 = p0 + cmp.1.len();
            let a7 = (match w.in_ {
                Some(xs) => xs.map_values(|x: JsonVal| param_spec(t, x)),
                None => Seq::empty(),
            });
            let p7 = p6 + a7.len();
            let f7 = (match w.in_ {
                Some(xs) => seq![any_frag(key, p6 + 1, xs.len())],
                None => Seq::empty(),
            });
            let a8 = (match w.nin {
                Some(xs) => xs.map_values(|x: JsonVal| param_spec(t, x)),
                None => Seq::empty(),
            });
            let f8 = (match w.nin {
                Some(xs) => seq![not_any_frag(key, p7 + 1, xs.len())],
                None => Seq::empty(),
            });
            &&& bundle_frags(key, t, w, p0).0 == cmp.0 + f7 + f8
            &&& bundle_frags(key, t, w, p0).1 == cmp.1 + a7 + a8
        }),
{
}

/// Appends the six comparison operators' fragments and parameters.
#[verifier::rlimit(100)]
#[verifier::spinoff_prover]
fn append_bundle_cmp(
    key: &str,
    t: FieldType,
    w: &Where,
    frags: &mut Vec<String>,
    params: &mut Vec<SqlParam>,
)
    ensures
        final(frags).deep_view() == old(frags).deep_view() + cmp_frags(
            key@,
            t,
            w@,
            old(params)@.len() as nat,
        ).0,
        final(params).deep_view() == old(params).deep_view() + cmp_frags(
            key@,
            t,
            w@,
            old(params)@.len() as nat,
        ).1,
{
    let ghost p0 = params@.len() as nat;
    let ghost frags0 = frags.deep_view();
    let ghost params0 = params.deep_view();
    append_simple_op(key, " = ", t, &w.eq, frags, params);
    let ghost p1 = p0 + opt_param(t, w@.eq).len();
    append_simple_op(key, " != ", t, &w.ne, frags, params);
    let ghost p2 = p1 + opt_param(t, w@.ne).len();
    append_simple_op(key, " > ", t, &w.gt, frags, params);
    let ghost p3 = p2 + opt_param(t, w@.gt).len();
    append_simple_op(key, " >= ", t, &w.gte, frags, params);
    let ghost p4 = p3 + opt_param(t, w@.gte).len();
    append_simple_op(key, " < ", t, &w.lt, frags, params);
    let ghost p5 = p4 + opt_param(t, w@.lt).len();
    append_simple_op(key, " <= ", t, &w.lte, frags, params);
    proof {
        assert(frags.deep_view() =~= frags0 + cmp_frags(key@, t, w@, p0).0);
        assert(params.deep_view() =~= params0 + cmp_frags(key@, t, w@, p0).1);
    }
}

/// Appends every fragment and parameter one bundle contributes.
#[verifier::rlimit(100)]
#[verifier::spinoff_prover]
fn append_bundle(
    key: &str,
    t: FieldType,
    w: &Where,
    frags: &mut Vec<String>,
    params: &mut Vec<SqlParam>,
)
    ensures
        final(frags).deep_view() == old(frags).deep_view() + bundle_frags(
            key@,
            t,
            w@,
            old(params)@.len() as nat,
        ).0,
        final(params).deep_view() == old(params).deep_view() + bundle_frags(
            key@,
            t,
            w@,
            old(params)@.len() as nat,
        ).1,
{
    let ghost p0 = params@.len() as nat;
    let ghost frags0 = frags.deep_view();
    let ghost params0 = params.deep_view();
    append_bundle_cmp(key, t, w, frags, params);
    let ghost cmp = cmp_frags(key@, t, w@, p0);
    let ghost facc6 = frags0 + cmp.0;
    let ghost aacc6 = params0 + cmp.1;
    let ghost p6 = p0 + cmp.1.len();
    match &w.in_ {
        Some(xs) => {
            append_any_frag(key, t, xs, false, frags, params);
        },
        None => {},
    }
    let ghost f7 = (match w@.in_ {
        Some(xs) => seq![any_frag(key@, p6 + 1, xs.len())],
        None => Seq::empty(),
    });
    let ghost a7 = (match w@.in_ {
        Some(xs) => xs.map_values(|x: JsonVal| param_spec(t, x)),
        None => Seq::empty(),
    });
    proof {
        match &w.in_ {
            Some(xs) => {
                crate::json_value::jv_seq_view_index(xs@);
            },
            None => {},
        }
        assert(frags.deep_view() =~= facc6 + f7);
        assert(params.deep_view() =~= aacc6 + a7);
    }
    let ghost facc7 = facc6 + f7;
    let ghost aacc7 = aacc6 + a7;
    let ghost p7 = p6 + a7.len();
    match &w.nin {
        Some(xs) => {
            append_any_frag(key, t, xs, true, frags, params);
        },
        None => {},
    }
    let ghost f8 = (match w@.nin {
        Some(xs) => seq![not_any_frag(key@, p7 + 1, xs.len())],
        None => Seq::empty(),
    });
    let ghost a8 = (match w@.nin {
        Some(xs) => xs.map_values(|x: JsonVal| param_spec(t, x)),
        None => Seq::empty(),
    });
    proof {
        match &w.nin {
            Some(xs) => {
                crate::json_value::jv_seq_view_index(xs@);
            },
            None => {},
        }
        assert(frags.deep_view() =~= facc7 + f8);
        assert(params.deep_view() =~= aacc7 + a8);
        bundle_decompose(key@, t, w@, p0);
        assert(frags.deep_view() =~= frags0 + bundle_frags(key@, t, w@, p0).0);
        assert(params.deep_view() =~= params0 + bundle_frags(key@, t, w@, p0).1);
    }
}

/// How a placeholder list grows by one more placeholder.
proof fn ph_list_push(n: nat, len: nat)
    ensures
        ph_list(n, len + 1) == if len == 0 {
            ph_text(n)
        } else {
            ph_list(n, len) + ", "@ + ph_text(n + len)
        },
    decreases len,
{
    if len > 0 {
        ph_list_push(n + 1, (len - 1) as nat);
        assert(ph_list(n, len + 1) =~= ph_list(n, len) + ", "@ + ph_text(n + len));
    }
}

/// The whole filter clause and its bound parameters for one predicate
/// map: the fragments of every known key joined with `AND`, parameters
/// numbered from `$1` in order.
pub fn build_where_clause(c: &Collection, query: &Vec<(String, Where)>) -> (r: (
    String,
    Vec<SqlParam>,
))
    ensures
        r.0@ == join_and(where_frags(c@, query.deep_view(), 0).0),
        r.1.deep_view() == where_frags(c@, query.deep_view(), 0).1,
{
    let ghost gq = query.deep_view();
    let mut frags: Vec<String> = Vec::new();
    let mut params: Vec<SqlParam> = Vec::new();
    let n = query.len();
    let mut i: usize = 0;
    proof {
        assert(gq.skip(0) =~= gq);
        assert(frags.deep_view() =~= Seq::<Seq<char>>::empty());
        assert(params.deep_view() =~= Seq::<SqlParamModel>::empty());
    }
    while i < n
        invariant
            n == query@.len(),
            gq == query.deep_view(),
            gq.len() == n,
            forall|j: int| 0 <= j < n ==> #[trigger] gq[j] == (query@[j].0@, query@[j].1@),
            0 <= i <= n,
            where_frags(c@, gq, 0).0 =~= frags.deep_view() + where_frags(
                c@,
                gq.skip(i as int),
                params@.len() as nat,
            ).0,
            where_frags(c@, gq, 0).1 =~= params.deep_view() + where_frags(
                c@,
                gq.skip(i as int),
                params@.len() as nat,
            ).1,
        decreases n - i,
    {
        assert(gq.skip(i as int)[0] == gq[i as int]);
        let key = query[i].0.as_str();
        let ghost plen_a = params@.len() as nat;
        let ghost frags_a = frags.deep_view();
        let ghost params_a = params.deep_view();
        match key_field_type_exec(c, key) {
            Some(t) => {
                append_bundle(key, t, &query[i].1, &mut frags, &mut params);
                proof {
                    let head = bundle_frags(gq[i as int].0, t, gq[i as int].1, plen_a);
                    assert(frags.deep_view() == frags_a + head.0);
                    assert(params.deep_view() == params_a + head.1);
                    assert(where_frags(c@, gq.skip(i as int), plen_a).0 == head.0 + where_frags(
                        c@,
                        gq.skip(i as int).skip(1),
                        plen_a + head.1.len(),
                    ).0);
                    assert(params.deep_view().len() == params@.len());
                    assert(params_a.len() == plen_a);
                    assert(params@.len() as nat == plen_a + head.1.len());
                }
            },
            None => {
                proof {
                    assert(where_frags(c@, gq.skip(i as int), plen_a).0 == where_frags(
                        c@,
                        gq.skip(i as int).skip(1),
                        plen_a,
                    ).0);
                }
            },
        }
        proof {
            assert(gq.skip(i as int).skip(1) =~= gq.skip(i + 1));
        }
        i = i + 1;
    }
    proof {
        assert(gq.skip(n as int) =~= Seq::<(Seq<char>, WhereModel)>::empty());
        assert(frags.deep_view() =~= where_frags(c@, gq, 0).0);
        assert(params.deep_view() =~= where_frags(c@, gq, 0).1);
    }
    let mut text: Vec<char> = Vec::new();
    let nf = frags.len();
    let mut k: usize = 0;
    proof {
        assert(frags.deep_view().take(0) =~= Seq::<Seq<char>>::empty());
        assert(text@ =~= join_and(frags.deep_view().take(0)));
    }
    while k < nf
        invariant
            nf == frags@.len(),
            0 <= k <= nf,
            text@ == join_and(frags.deep_view().take(k as int)),
        decreases nf - k,
    {
        if k > 0 {
            append_str(&mut text, " AND ");
        }
        append_str(&mut text, frags[k].as_str());
        proof {
            join_and_push(frags.deep_view().take(k as int), frags.deep_view()[k as int]);
            assert(frags.deep_view().take(k as int).push(frags.deep_view()[k as int])
                =~= frags.deep_view().take(k + 1));
            assert(text@ =~= join_and(frags.deep_view().take(k + 1)));
        }
        k = k + 1;
    }
    proof {
        assert(frags.deep_view().take(nf as int) =~= frags.deep_view());
    }
    (string_from_chars(&text), params)
}

} // verus!
