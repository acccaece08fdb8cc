//! One named, typed attribute of a collection's records.

use vstd::prelude::*;

use crate::field_type::FieldType;
use crate::json_value::{jv_view, JsonVal, JsonValue};

verus! {

/// A field of a collection: its name, value kind, optional default value
/// and optional required flag.
#[derive(Debug)]
pub struct CollectionField {
    pub name: String,
    pub field_type: FieldType,
    pub default: Option<JsonValue>,
    pub required: Option<bool>,
}

/// The mathematical shape of a collection field.
#[verifier::ext_equal]
pub struct FieldModel {
    pub name: Seq<char>,
    pub field_type: FieldType,
    pub default: Option<JsonVal>,
    pub required: Option<bool>,
}

impl View for CollectionField {
    type V = FieldModel;

    open spec fn view(&self) -> FieldModel {
        FieldModel {
            name: self.name@,
            field_type: self.field_type,
            default: match self.default {
                Some(v) => Some(jv_view(v)),
                None => None,
            },
            required: self.required,
        }
    }
}

impl DeepView for CollectionField {
    type V = FieldModel;

    open spec fn deep_view(&self) -> FieldModel {
        self.view()
    }
}

impl FieldModel {
    /// The default value a missing or null entry resolves to: the declared
    /// default, or null when none is set.
    pub open spec fn default_or_null(self) -> JsonVal {
        match self.default {
            Some(v) => v,
            None => JsonVal::Null,
        }
    }

    /// Whether the field demands a non-null value.
    pub open spec fn is_required(self) -> bool {
        self.required == Some(true)
    }
}

impl CollectionField {
    /// A copy of the field with the same mathematical view.
    pub fn deep_clone(&self) -> (r: CollectionField)
        ensures
            r@ == self@,
    {
        CollectionField {
            name: self.name.clone(),
            field_type: self.field_type,
            default: match &self.default {
                Some(v) => Some(v.deep_clone()),
                None => None,
            },
            required: self.required,
        }
    }
}

impl Clone for CollectionField {
    /// A clone carries the same mathematical view as the original.
    fn clone(&self) -> (r: CollectionField)
        ensures
            r@ == self@,
    {
        self.deep_clone()
    }
}

} // verus!
