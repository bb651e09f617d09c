use vstd::prelude::*;
use crate::strategy_structs::SimpleColumn;

verus! {

/// The views of a list of qualified columns.
pub open spec fn columns_view(v: Seq<SimpleColumn>) -> Seq<(Seq<char>, Seq<char>)> {
    v.map_values(|c: SimpleColumn| c@)
}

/// The views of a list of names.
pub open spec fn names_view(v: Seq<String>) -> Seq<Seq<char>> {
    v.map_values(|s: String| s@)
}

/// Every problem found while compiling a strategy document, by kind.
#[derive(Clone, Debug, PartialEq, Eq)]
pub struct ValidationErrors {
    pub unanonymised_pii: Vec<SimpleColumn>,
    pub unknown_data_categories: Vec<SimpleColumn>,
    pub error_transformer_types: Vec<SimpleColumn>,
    pub duplicate_columns: Vec<SimpleColumn>,
    pub duplicate_tables: Vec<String>,
}

impl ValidationErrors {
    pub open spec fn none_found(&self) -> bool {
        &&& self.unanonymised_pii@.len() == 0
        &&& self.unknown_data_categories@.len() == 0
        &&& self.error_transformer_types@.len() == 0
        &&& self.duplicate_columns@.len() == 0
        &&& self.duplicate_tables@.len() == 0
    }

    pub fn new() -> (r: ValidationErrors)
        ensures
            r.none_found(),
    {
        ValidationErrors {
            unanonymised_pii: Vec::new(),
            unknown_data_categories: Vec::new(),
            error_transformer_types: Vec::new(),
            duplicate_columns: Vec::new(),
            duplicate_tables: Vec::new(),
        }
    }

    pub fn is_empty(errors: &ValidationErrors) -> (r: bool)
        ensures
            r == errors.none_found(),
    {
        errors.unanonymised_pii.len() == 0 && errors.unknown_data_categories.len() == 0
            && errors.error_transformer_types.len() == 0 && errors.duplicate_columns.len() == 0
            && errors.duplicate_tables.len() == 0
    }
}

/// Differences between the columns of a policy and those of the live schema.
#[derive(Clone, Debug, PartialEq, Eq)]
pub struct DbErrors {
    pub missing_from_strategy_file: Vec<SimpleColumn>,
    pub missing_from_db: Vec<SimpleColumn>,
}

impl DbErrors {
    pub fn is_empty(errors: &DbErrors) -> (r: bool)
        ensures
            r == (errors.missing_from_strategy_file@.len() == 0
                && errors.missing_from_db@.len() == 0),
    {
        errors.missing_from_strategy_file.len() == 0 && errors.missing_from_db.len() == 0
    }
}

} // verus!
