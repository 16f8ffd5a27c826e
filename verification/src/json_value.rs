//! The JSON value that presence state data carries.
//!
//! The library never looks inside such a value: it stores it, hands it on and
//! copies it. What it relies on is declared here and is believed, not proved.

use vstd::prelude::*;

verus! {

/// `serde_json::Value`, carried through as an opaque value.
#[verifier::external_type_specification]
#[verifier::external_body]
pub struct ExValue(serde_json::Value);

/// `<serde_json::Value as Clone>::clone`: the derived clone rebuilds the same
/// JSON tree, so the copy equals the value it was made from.
pub assume_specification[ <serde_json::Value as Clone>::clone ](
    value: &serde_json::Value,
) -> (copy: serde_json::Value)
    ensures
        copy == *value,
;

} // verus!
