//! The classifier: every category maps to one of two main types, and every
//! component that builds a store key goes through this mapping.
use vstd::prelude::*;

use crate::strutil::str_eq;

verus! {

/// The coarse classification of a category: it decides the API endpoint,
/// the key namespace and the shape of the filter policy.
#[derive(Debug, Clone, Copy, PartialEq, Eq, Structural)]
pub enum MainType {
    Currency,
    Item,
}

/// The two fungible-currency categories; everything else is an item
/// category.
pub open spec fn spec_is_currency_category(cat: Seq<char>) -> bool {
    cat == "Currency"@ || cat == "Fragment"@
}

/// Main type of a category.
pub open spec fn spec_main_type(cat: Seq<char>) -> MainType {
    if spec_is_currency_category(cat) {
        MainType::Currency
    } else {
        MainType::Item
    }
}

/// The namespace string of a main type, as used in every store key.
pub open spec fn spec_main_type_name(mt: MainType) -> Seq<char> {
    match mt {
        MainType::Currency => "Currency"@,
        MainType::Item => "Item"@,
    }
}

/// The namespace string of a category's main type.
pub open spec fn spec_query_type(cat: Seq<char>) -> Seq<char> {
    spec_main_type_name(spec_main_type(cat))
}

/// Main type of a category.
pub fn main_type_of(category: &str) -> (r: MainType)
    ensures
        r == spec_main_type(category@),
{
    if str_eq(category, "Currency") || str_eq(category, "Fragment") {
        MainType::Currency
    } else {
        MainType::Item
    }
}

/// The namespace string of a main type.
pub fn main_type_name(mt: MainType) -> (r: String)
    ensures
        r@ == spec_main_type_name(mt),
{
    match mt {
        MainType::Currency => String::from_str("Currency"),
        MainType::Item => String::from_str("Item"),
    }
}

/// The namespace string of a category's main type.
pub fn get_query_type(category: String) -> (r: String)
    ensures
        r@ == spec_query_type(category@),
{
    main_type_name(main_type_of(category.as_str()))
}

} // verus!
