use collection_store::json_value::{json_eq, JsonValue};
use collection_store::where_attr::Where;
use collection_store::{Collection, CollectionError, CollectionField, FieldType};

fn jstr(v: &str) -> JsonValue {
    JsonValue::Str(v.to_string())
}

fn jnum(v: &str) -> JsonValue {
    JsonValue::Num(v.to_string())
}

fn jobj(entries: Vec<(&str, JsonValue)>) -> JsonValue {
    JsonValue::Obj(entries.into_iter().map(|(k, v)| (k.to_string(), v)).collect())
}

fn schema(fields: Vec<CollectionField>) -> Collection {
    Collection { name: "Collection1".to_string(), fields, created_at: 0, updated_at: 0 }
}

fn field(name: &str, t: FieldType) -> CollectionField {
    CollectionField { name: name.to_string(), field_type: t, default: None, required: None }
}

#[test]
fn classify_infers_field_types() {
    assert_eq!(FieldType::classify(&jstr("x")), FieldType::String);
    assert_eq!(FieldType::classify(&jnum("1")), FieldType::Number);
    assert_eq!(FieldType::classify(&JsonValue::Bool(false)), FieldType::Boolean);
    assert_eq!(FieldType::classify(&JsonValue::Arr(vec![])), FieldType::Array);
    assert_eq!(FieldType::classify(&jobj(vec![])), FieldType::Object);
    assert_eq!(FieldType::classify(&JsonValue::Null), FieldType::Object);
}

#[test]
fn admissibility_accepts_null_and_matching_kinds() {
    assert!(FieldType::String.is_maybe_exists(&jstr("x")));
    assert!(FieldType::String.is_maybe_exists(&JsonValue::Null));
    assert!(!FieldType::String.is_maybe_exists(&jnum("1")));
    assert!(FieldType::TimeStamp.is_maybe_exists(&jstr("2020-01-01")));
    assert!(FieldType::Number.is_maybe_exists(&jnum("1.5")));
    assert!(!FieldType::Number.is_maybe_exists(&jstr("1.5")));
    assert!(FieldType::Boolean.is_maybe_exists(&JsonValue::Bool(true)));
    assert!(FieldType::Array.is_maybe_exists(&JsonValue::Arr(vec![])));
    assert!(FieldType::Object.is_maybe_exists(&jobj(vec![])));
}

#[test]
fn get_new_fields_skips_known_reserved_and_null() {
    let c = schema(vec![field("name", FieldType::String)]);
    let data = jobj(vec![
        ("name", jstr("x")),
        ("id", jstr("explicit")),
        ("created_at", jstr("t")),
        ("age", jnum("10")),
        ("gone", JsonValue::Null),
    ]);
    let new_fields = c.get_new_fields(&data);
    assert_eq!(new_fields.len(), 1);
    assert_eq!(new_fields[0].name, "age");
    assert_eq!(new_fields[0].field_type, FieldType::Number);
    assert!(new_fields[0].default.is_none());
    assert!(new_fields[0].required.is_none());
}

#[test]
fn validate_reports_exactly_the_offending_keys() {
    let c = schema(vec![field("name", FieldType::String), field("age", FieldType::Number)]);
    assert!(c.validate(&jobj(vec![("name", jstr("x")), ("age", jnum("3"))])).is_ok());
    assert!(c.validate(&jobj(vec![("unknown", jnum("3"))])).is_ok());
    let bad = c.validate(&jobj(vec![("name", jnum("3")), ("age", jstr("x"))]));
    match bad {
        Err(CollectionError::ValidateFields { collection, fields }) => {
            assert_eq!(collection, "Collection1");
            assert_eq!(fields, vec!["name".to_string(), "age".to_string()]);
        },
        other => panic!("unexpected: {:?}", other),
    }
    let not_object = c.validate(&jstr("nope"));
    assert!(matches!(
        not_object,
        Err(CollectionError::CollectionInputData { collection }) if collection == "Collection1"
    ));
}

#[test]
fn default_values_fills_every_schema_field() {
    let mut with_default = field("name", FieldType::String);
    with_default.default = Some(jstr("default_name"));
    let c = schema(vec![with_default, field("age", FieldType::Number)]);
    let out = c.default_values(jobj(vec![("age", jnum("7"))]));
    assert!(json_eq(&out, &jobj(vec![("name", jstr("default_name")), ("age", jnum("7"))])));
    let out2 = c.default_values(jobj(vec![("name", jstr("given")), ("extra", jstr("dropped"))]));
    assert!(json_eq(&out2, &jobj(vec![("name", jstr("given")), ("age", JsonValue::Null)])));
}

#[test]
fn required_values_checks_create_and_update_paths() {
    let mut required = field("name", FieldType::String);
    required.required = Some(true);
    let c = schema(vec![required]);
    let missing = c.required_values(&jobj(vec![]), false);
    assert!(matches!(
        missing,
        Err(CollectionError::ValidateFields { fields, .. }) if fields == vec!["name".to_string()]
    ));
    assert!(c.required_values(&jobj(vec![("name", jstr("x"))]), false).is_ok());
    assert!(c.required_values(&jobj(vec![("age", jnum("1"))]), true).is_ok());
    let explicit_null = c.required_values(&jobj(vec![("name", JsonValue::Null)]), true);
    assert!(matches!(
        explicit_null,
        Err(CollectionError::ValidateFields { fields, .. }) if fields == vec!["name".to_string()]
    ));
}

#[test]
fn get_field_finds_declared_fields() {
    let c = schema(vec![field("name", FieldType::String), field("age", FieldType::Number)]);
    assert_eq!(c.get_field("age").map(|f| f.field_type), Some(FieldType::Number));
    assert!(c.get_field("missing").is_none());
}

#[test]
fn where_from_value_decodes_operators() {
    let bare = Where::from_value(&jstr("x"));
    assert!(matches!(&bare.eq, Some(v) if json_eq(v, &jstr("x"))));
    assert!(bare.ne.is_none() && bare.in_.is_none());
    let bundle = Where::from_value(&jobj(vec![
        ("$ne", jstr("y")),
        ("$in", JsonValue::Arr(vec![jstr("a"), jstr("b")])),
        ("$mystery", jstr("ignored")),
    ]));
    assert!(bundle.eq.is_none());
    assert!(matches!(&bundle.ne, Some(v) if json_eq(v, &jstr("y"))));
    assert!(matches!(&bundle.in_, Some(xs) if xs.len() == 2));
    assert!(bundle.nin.is_none());
    let bad_list = Where::from_value(&jobj(vec![("$in", jstr("not-a-list"))]));
    assert!(bad_list.in_.is_none());
}
