use collection_store::json_value::JsonValue;
use collection_store::sql::{
    build_where_clause, create_table_sql, query_field_to_collection, SqlParam,
};
use collection_store::util::u64_to_string;
use collection_store::value_to_string::{serialize_value, value_to_string, JsonFormatter};
use collection_store::where_attr::Where;
use collection_store::{Collection, CollectionField, FieldType};

fn jstr(v: &str) -> JsonValue {
    JsonValue::Str(v.to_string())
}

fn jnum(v: &str) -> JsonValue {
    JsonValue::Num(v.to_string())
}

fn jobj(entries: Vec<(&str, JsonValue)>) -> JsonValue {
    JsonValue::Obj(entries.into_iter().map(|(k, v)| (k.to_string(), v)).collect())
}

fn sample_value() -> JsonValue {
    jobj(vec![
        ("a", jstr("string")),
        ("b", jnum("1.2")),
        ("c", jnum("1.0")),
        ("d", jnum("2")),
        ("e", JsonValue::Bool(true)),
        ("f", jobj(vec![("g", JsonValue::Arr(vec![jstr("i"), jnum("1.0"), jnum("1.2")]))])),
    ])
}

#[test]
fn json_formatter_serialize_value_test() {
    let item = serialize_value(sample_value());
    assert_eq!(item, r#"{"a":"string","b":1.2,"c":1,"d":2,"e":true,"f":{"g":["i",1,1.2]}}"#);
}

#[test]
fn value_to_string_serialize_value_test() {
    let item = value_to_string(&sample_value());
    assert_eq!(item, r#"{"a":"string","b":1.2,"c":1,"d":2,"e":true,"f":{"g":["i",1,1.2]}}"#);
}

#[test]
fn number_formatting_trims_integral_suffix() {
    let formatter = JsonFormatter::new();
    let mut out: Vec<char> = Vec::new();
    formatter.write_number(&mut out, "10.0");
    let text: String = out.into_iter().collect();
    assert_eq!(text, "10");
    assert_eq!(value_to_string(&jnum("1.0")), "1");
    assert_eq!(value_to_string(&jnum("1.25")), "1.25");
    assert_eq!(value_to_string(&jnum("-3.0")), "-3");
    assert_eq!(value_to_string(&jnum("100")), "100");
}

#[test]
fn string_escaping() {
    assert_eq!(value_to_string(&jstr("he said \"hi\"")), r#""he said \"hi\"""#);
    assert_eq!(value_to_string(&jstr("a\\b")), r#""a\\b""#);
    assert_eq!(value_to_string(&jstr("line\nbreak\ttab")), "\"line\\nbreak\\ttab\"");
    assert_eq!(value_to_string(&jstr("ctrl\u{1f}end")), "\"ctrl\\u001fend\"");
    assert_eq!(value_to_string(&JsonValue::Null), "null");
    assert_eq!(value_to_string(&JsonValue::Arr(vec![])), "[]");
    assert_eq!(value_to_string(&jobj(vec![])), "{}");
}

#[test]
fn decimal_text() {
    assert_eq!(u64_to_string(0), "0");
    assert_eq!(u64_to_string(7), "7");
    assert_eq!(u64_to_string(1234567890), "1234567890");
}

#[test]
fn ddl_statements() {
    let field = CollectionField {
        name: "age".to_string(),
        field_type: FieldType::Number,
        default: None,
        required: None,
    };
    assert_eq!(
        query_field_to_collection("Collection1", &field),
        r#"ALTER TABLE "Collection1" ADD "age" double precision;"#
    );
    let field2 = CollectionField {
        name: "name".to_string(),
        field_type: FieldType::String,
        default: None,
        required: None,
    };
    assert_eq!(
        query_field_to_collection("Collection1", &field2),
        r#"ALTER TABLE "Collection1" ADD "name" text;"#
    );
    assert_eq!(
        create_table_sql("C"),
        "CREATE TABLE IF NOT EXISTS \"C\" (id VARCHAR NOT NULL PRIMARY KEY, created_at TIMESTAMP with time zone NOT NULL, updated_at TIMESTAMP with time zone NOT NULL);"
    );
}

#[test]
fn where_clause_translation() {
    let collection = Collection {
        name: "Collection1".to_string(),
        fields: vec![CollectionField {
            name: "age".to_string(),
            field_type: FieldType::Number,
            default: None,
            required: None,
        }],
        created_at: 0,
        updated_at: 0,
    };
    let query = vec![
        (
            "id".to_string(),
            Where {
                eq: Some(jstr("abc")),
                ne: None,
                gt: None,
                lt: None,
                gte: None,
                lte: None,
                in_: None,
                nin: None,
            },
        ),
        (
            "age".to_string(),
            Where {
                eq: None,
                ne: None,
                gt: Some(jnum("10")),
                lt: None,
                gte: None,
                lte: None,
                in_: Some(vec![jnum("11"), jnum("12"), jnum("13")]),
                nin: None,
            },
        ),
        (
            "unknown".to_string(),
            Where {
                eq: Some(jstr("zzz")),
                ne: None,
                gt: None,
                lt: None,
                gte: None,
                lte: None,
                in_: None,
                nin: None,
            },
        ),
    ];
    let (text, params) = build_where_clause(&collection, &query);
    assert_eq!(
        text,
        r#""id" = $1 AND "age" > $2 AND "age" = ANY(ARRAY[$3, $4, $5])"#
    );
    assert_eq!(params.len(), 5);
    assert!(matches!(&params[0], SqlParam::Text(Some(s)) if s == "abc"));
    assert!(matches!(&params[1], SqlParam::Float(Some(s)) if s == "10"));
    assert!(matches!(&params[4], SqlParam::Float(Some(s)) if s == "13"));
}
