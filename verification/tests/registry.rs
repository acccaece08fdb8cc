use collection_store::json_value::{json_eq, JsonValue};
use collection_store::{
    Collection, CollectionError, CollectionField, Collections, FieldType, MemoryStorage, Storage,
};

fn jstr(v: &str) -> JsonValue {
    JsonValue::Str(v.to_string())
}

fn jnum(v: &str) -> JsonValue {
    JsonValue::Num(v.to_string())
}

fn jobj(entries: Vec<(&str, JsonValue)>) -> JsonValue {
    JsonValue::Obj(entries.into_iter().map(|(k, v)| (k.to_string(), v)).collect())
}

fn get_str(row: &JsonValue, key: &str) -> String {
    match row.get(key) {
        Some(JsonValue::Str(s)) => s.clone(),
        other => panic!("expected string under {key}, got {other:?}"),
    }
}

fn get_num(row: &JsonValue, key: &str) -> String {
    match row.get(key) {
        Some(JsonValue::Num(s)) => s.clone(),
        other => panic!("expected number under {key}, got {other:?}"),
    }
}

fn string_field(name: &str, default: Option<JsonValue>, required: Option<bool>) -> CollectionField {
    CollectionField { name: name.to_string(), field_type: FieldType::String, default, required }
}

fn registry() -> Collections<MemoryStorage> {
    Collections::new(MemoryStorage::new())
}

#[test]
fn collection_default() {
    let mut collections = registry();
    let table_name = "Collection1";
    let collection = collections
        .storage
        .create_collection(table_name, vec![string_field("name", Some(jstr("default_name")), None)])
        .unwrap();
    collections.set_collection(collection);

    let created_default = collections.insert(table_name, jobj(vec![])).unwrap();
    assert_eq!(get_str(&created_default, "name"), "default_name");

    let created_exists = collections.insert(table_name, jobj(vec![("name", jstr("test"))])).unwrap();
    assert_eq!(get_str(&created_exists, "name"), "test");
}

#[test]
fn collection_required() {
    let mut collections = registry();
    let table_name = "Collection1";
    let collection = collections
        .storage
        .create_collection(table_name, vec![string_field("name", None, Some(true))])
        .unwrap();
    collections.set_collection(collection);

    let created_default = collections.insert(table_name, jobj(vec![]));
    assert!(created_default.is_err());
    assert_eq!(
        format!("{created_default:?}"),
        r#"Err(ValidateFields { collection: "Collection1", fields: ["name"] })"#
    );

    let created_exists = collections.insert(table_name, jobj(vec![("name", jstr("test"))])).unwrap();
    assert_eq!(get_str(&created_exists, "name"), "test");
}

#[test]
fn collection_insert() {
    let mut collections = registry();
    let table_name = "Collection1";
    let created = collections
        .insert(table_name, jobj(vec![("name", jstr("test")), ("age", jnum("10"))]))
        .unwrap();
    assert_eq!(get_str(&created, "name"), "test");
    assert_eq!(get_num(&created, "age"), "10");

    let check = collections.get(table_name, &get_str(&created, "id")).unwrap();
    assert!(json_eq(&check, &created));
}

#[test]
fn collection_get() {
    let mut collections = registry();
    let table_name = "Collection1";
    let created = collections
        .insert(table_name, jobj(vec![("name", jstr("test")), ("age", jnum("10"))]))
        .unwrap();
    let check = collections.get(table_name, &get_str(&created, "id")).unwrap();
    assert!(json_eq(&check, &created));

    let check2 = collections.get(table_name, "not-exists");
    assert!(check2.is_err());
    assert_eq!(
        format!("{check2:?}"),
        r#"Err(StorageError { error: ValueNotFound { collection: "Collection1", id: "not-exists" } })"#
    );
}

#[test]
fn collections_update() {
    let mut collections = registry();
    let table_name = "Collection1";
    let created = collections
        .insert(table_name, jobj(vec![("name", jstr("test")), ("age", jnum("10"))]))
        .unwrap();
    assert_eq!(get_str(&created, "name"), "test");
    let id = get_str(&created, "id");

    let updated = collections
        .update(table_name, &id, jobj(vec![("name", jstr("test2")), ("age", jnum("11"))]))
        .unwrap();
    assert_eq!(get_str(&updated, "name"), "test2");
    assert_eq!(get_num(&updated, "age"), "11");

    let check = collections.get(table_name, &id).unwrap();
    assert!(json_eq(&check, &updated));
}

#[test]
fn collections_delete() {
    let mut collections = registry();
    let table_name = "Collection1";
    let created = collections.insert(table_name, jobj(vec![("name", jstr("test"))])).unwrap();
    let id = get_str(&created, "id");

    let deleted = collections.delete(table_name, &id);
    assert!(deleted.is_ok());

    let gone = collections.get(table_name, &id);
    assert!(gone.is_err());
}

#[test]
fn collection_string() {
    let mut storage = MemoryStorage::new();
    let schema = storage
        .create_collection("CreateSchema1", vec![string_field("name", None, None)])
        .unwrap();
    assert_eq!(schema.fields.len(), 1);

    let row = storage
        .insert_data_into_collection(&schema, jobj(vec![("name", jstr("test"))]))
        .unwrap();
    assert_eq!(get_str(&row, "name"), "test");

    let row = storage
        .update_data_into_collection(&schema, &get_str(&row, "id"), jobj(vec![("name", jstr("test2"))]))
        .unwrap();
    assert_eq!(get_str(&row, "name"), "test2");

    let row3 = storage
        .insert_data_into_collection(&schema, jobj(vec![("name", jstr("test3"))]))
        .unwrap();
    assert_eq!(get_str(&row3, "name"), "test3");

    storage.insert_data_into_collection(&schema, jobj(vec![("name", jstr("test4"))])).unwrap();
    let row5 = storage
        .insert_data_into_collection(&schema, jobj(vec![("name", jstr("test5"))]))
        .unwrap();

    let query = vec![(
        "name".to_string(),
        collection_store::Where {
            eq: Some(jstr("test5")),
            ne: None,
            gt: None,
            lt: None,
            gte: None,
            lte: None,
            in_: None,
            nin: None,
        },
    )];
    let result_eq = storage.list_data_from_collection(&schema, &query).unwrap();
    assert_eq!(result_eq.len(), 1);
    assert_eq!(get_str(&result_eq[0], "id"), get_str(&row5, "id"));
}

#[test]
fn collection_where() {
    let mut collections = registry();
    let table_name = "CollectionWhereEq";
    let mut ids: Vec<String> = Vec::new();
    for i in 0..5u32 {
        let row = collections
            .insert(
                table_name,
                jobj(vec![
                    ("name", jstr(&format!("test_{}", i))),
                    ("age", jnum(&format!("{}", 10 + i))),
                ]),
            )
            .unwrap();
        ids.push(get_str(&row, "id"));
    }

    let result_eq = collections
        .list(table_name, &jobj(vec![("id", jstr(&ids[0]))]))
        .unwrap();
    assert_eq!(result_eq.len(), 1);
    assert_eq!(get_str(&result_eq[0], "id"), ids[0]);

    let result_ne = collections
        .list(table_name, &jobj(vec![("id", jobj(vec![("$ne", jstr(&ids[0]))]))]))
        .unwrap();
    assert_eq!(result_ne.len(), 4);
    assert!(result_ne.iter().all(|row| get_str(row, "id") != ids[0]));

    let in_list = JsonValue::Arr(vec![jstr(&ids[0]), jstr(&ids[1]), jstr("some value")]);
    let result_in = collections
        .list(table_name, &jobj(vec![("id", jobj(vec![("$in", in_list)]))]))
        .unwrap();
    assert_eq!(result_in.len(), 2);
    let in_ids: Vec<String> = result_in.iter().map(|row| get_str(row, "id")).collect();
    assert!(in_ids.contains(&ids[0]));
    assert!(in_ids.contains(&ids[1]));

    let nin_list = JsonValue::Arr(vec![jstr(&ids[0]), jstr(&ids[1]), jstr("some value")]);
    let result_nin = collections
        .list(table_name, &jobj(vec![("id", jobj(vec![("$nin", nin_list)]))]))
        .unwrap();
    assert_eq!(result_nin.len(), 3);
    let nin_ids: Vec<String> = result_nin.iter().map(|row| get_str(row, "id")).collect();
    assert!(!nin_ids.contains(&ids[0]));
    assert!(!nin_ids.contains(&ids[1]));
}

#[test]
fn schema_inference_on_first_write() {
    let mut collections = registry();
    let created = collections.insert("C", jobj(vec![])).unwrap();
    match &created {
        JsonValue::Obj(entries) => {
            let keys: Vec<&str> = entries.iter().map(|(k, _)| k.as_str()).collect();
            assert_eq!(keys, vec!["id", "created_at", "updated_at"]);
        },
        other => panic!("expected object, got {other:?}"),
    }
    let schema = collections.get_collection("C").unwrap();
    assert_eq!(schema.fields.len(), 0);

    collections.insert("C", jobj(vec![("name", jstr("x"))])).unwrap();
    let schema = collections.get_collection("C").unwrap();
    assert_eq!(schema.fields.len(), 1);
    assert_eq!(schema.fields[0].name, "name");
    assert_eq!(schema.fields[0].field_type, FieldType::String);
}

#[test]
fn partial_update_keeps_unmentioned_required_fields() {
    let mut collections = registry();
    let table_name = "Collection1";
    let collection = collections
        .storage
        .create_collection(table_name, vec![string_field("name", None, Some(true))])
        .unwrap();
    collections.set_collection(collection);

    let created = collections
        .insert(table_name, jobj(vec![("name", jstr("test")), ("age", jnum("10"))]))
        .unwrap();
    let id = get_str(&created, "id");

    let updated = collections.update(table_name, &id, jobj(vec![("age", jnum("11"))])).unwrap();
    assert_eq!(get_str(&updated, "name"), "test");
    assert_eq!(get_num(&updated, "age"), "11");
}

#[test]
fn registry_error_variants() {
    let mut collections = registry();
    let non_object = collections.insert("C", jstr("not an object"));
    assert!(matches!(
        non_object,
        Err(CollectionError::CollectionInputData { collection }) if collection == "C"
    ));

    let unknown_update = collections.update("missing", "id1", jobj(vec![]));
    assert!(matches!(
        unknown_update,
        Err(CollectionError::CollectionNotFound { collection }) if collection == "missing"
    ));
    assert!(collections.get("missing", "id1").is_err());
    assert!(collections.delete("missing", "id1").is_err());
    assert!(collections.list("missing", &jobj(vec![])).is_err());

    collections.insert("C", jobj(vec![("age", jnum("1"))])).unwrap();
    let mismatch = collections.insert("C", jobj(vec![("age", jstr("one"))]));
    assert!(matches!(
        mismatch,
        Err(CollectionError::ValidateFields { fields, .. }) if fields == vec!["age".to_string()]
    ));
}

#[test]
fn supplied_ids_and_duplicates() {
    let mut collections = registry();
    let created = collections
        .insert("C", jobj(vec![("id", jstr("chosen")), ("name", jstr("x"))]))
        .unwrap();
    assert_eq!(get_str(&created, "id"), "chosen");

    let duplicate = collections.insert("C", jobj(vec![("id", jstr("chosen"))]));
    assert!(matches!(duplicate, Err(CollectionError::StorageError { .. })));

    let fetched = collections.get("C", "chosen").unwrap();
    assert!(json_eq(&fetched, &created));
}

#[test]
fn ordering_predicates_on_numbers() {
    let mut collections = registry();
    for age in ["10", "11", "12"] {
        collections.insert("C", jobj(vec![("age", jnum(age))])).unwrap();
    }
    let above = collections
        .list("C", &jobj(vec![("age", jobj(vec![("$gt", jnum("10"))]))]))
        .unwrap();
    assert_eq!(above.len(), 2);
    let at_most = collections
        .list("C", &jobj(vec![("age", jobj(vec![("$lte", jnum("11"))]))]))
        .unwrap();
    assert_eq!(at_most.len(), 2);
}

#[test]
fn timestamps_are_tagged_wrappers() {
    let mut collections = registry();
    let created = collections.insert("C", jobj(vec![("name", jstr("x"))])).unwrap();
    let tag = match created.get("created_at") {
        Some(ts) => match ts.get("__type") {
            Some(JsonValue::Str(s)) => s.clone(),
            other => panic!("expected tag, got {other:?}"),
        },
        None => panic!("missing created_at"),
    };
    assert_eq!(tag, "TimeStamp");
}

#[test]
fn remove_collection_and_field() {
    let mut storage = MemoryStorage::new();
    let schema = storage
        .create_collection("Gone", vec![string_field("name", None, None)])
        .unwrap();
    let widened = storage
        .insert_field_to_collection(
            &schema,
            CollectionField {
                name: "age".to_string(),
                field_type: FieldType::Number,
                default: None,
                required: None,
            },
        )
        .unwrap();
    assert_eq!(widened.fields.len(), 2);

    let again = storage.insert_field_to_collection(
        &widened,
        CollectionField {
            name: "age".to_string(),
            field_type: FieldType::Number,
            default: None,
            required: None,
        },
    );
    assert!(again.is_err());

    let narrowed = storage
        .remove_field_from_collection(&widened, string_field("name", None, None))
        .unwrap();
    assert_eq!(narrowed.fields.len(), 1);
    assert_eq!(narrowed.fields[0].name, "age");

    assert!(storage.remove_collection(&narrowed).is_ok());
    assert!(storage.get_collection("Gone").is_err());
}
