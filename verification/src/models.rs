//! Models (note types): the requests of the model actions.

use vstd::prelude::*;
use crate::client::{AnkiRequest, is_request};
use crate::json::{jstr, obj1, object1, text};

verus! {

/// Gets the names of all models (`modelNames`).
pub fn model_names_request() -> (r: AnkiRequest)
    ensures
        is_request(r, "modelNames"@, None),
{
    AnkiRequest::new("modelNames", None)
}

/// Gets the field names of a model (`modelFieldNames`).
pub fn model_field_names_request(model_name: &str) -> (r: AnkiRequest)
    ensures
        is_request(r, "modelFieldNames"@, Some(obj1("modelName"@, jstr(model_name@)))),
{
    AnkiRequest::new("modelFieldNames", Some(object1("modelName", text(model_name))))
}

} // verus!
