use vstd::prelude::*;

verus! {

/// A column of a table declaration: its name and declared type.
#[derive(Clone, Debug, PartialEq, Eq)]
pub struct Column {
    pub name: String,
    pub data_type: String,
}

} // verus!
