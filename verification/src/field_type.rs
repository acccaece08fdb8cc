//! The closed set of value kinds a field can have, with the rules for
//! classifying and validating JSON values against them.

use vstd::prelude::*;

use crate::json_value::{JsonVal, JsonValue};

verus! {

/// The kind of values a collection field stores.
#[derive(Debug, Clone, Copy, PartialEq, Eq, Structural)]
pub enum FieldType {
    String,
    Number,
    Boolean,
    Array,
    Object,
    TimeStamp,
}

/// The field type inferred from a literal JSON value. Used only for
/// new-field inference, never for re-typing an existing field; `null`
/// infers `Object`.
pub open spec fn classify_spec(v: JsonVal) -> FieldType {
    match v {
        JsonVal::Str(_) => FieldType::String,
        JsonVal::Num(_) => FieldType::Number,
        JsonVal::Bool(_) => FieldType::Boolean,
        JsonVal::Arr(_) => FieldType::Array,
        JsonVal::Obj(_) => FieldType::Object,
        JsonVal::Null => FieldType::Object,
    }
}

/// Whether `v` is admissible for a field of type `t`: `null` always is,
/// otherwise the value's JSON kind must match the field type.
pub open spec fn admits(t: FieldType, v: JsonVal) -> bool {
    match t {
        FieldType::String | FieldType::TimeStamp => v is Str || v is Null,
        FieldType::Number => v is Num || v is Null,
        FieldType::Boolean => v is Bool || v is Null,
        FieldType::Array => v is Arr || v is Null,
        FieldType::Object => v is Obj || v is Null,
    }
}

impl FieldType {
    /// Infers the field type of a literal JSON value.
    pub fn classify(value: &JsonValue) -> (t: FieldType)
        ensures
            t == classify_spec(value@),
    {
        match value {
            JsonValue::Str(_) => FieldType::String,
            JsonValue::Num(_) => FieldType::Number,
            JsonValue::Bool(_) => FieldType::Boolean,
            JsonValue::Arr(_) => FieldType::Array,
            JsonValue::Obj(_) => FieldType::Object,
            JsonValue::Null => FieldType::Object,
        }
    }

    /// Whether `value` could live in a field of this type.
    pub fn is_maybe_exists(&self, value: &JsonValue) -> (r: bool)
        ensures
            r == admits(*self, value@),
    {
        match self {
            FieldType::String | FieldType::TimeStamp => value.is_string() || value.is_null(),
            FieldType::Number => value.is_number() || value.is_null(),
            FieldType::Boolean => value.is_boolean() || value.is_null(),
            FieldType::Array => value.is_array() || value.is_null(),
            FieldType::Object => value.is_object() || value.is_null(),
        }
    }
}

} // verus!
