use vstd::prelude::*;

verus! {

/// A table of the database, as the catalog lists it.
#[derive(Debug, Clone, PartialEq)]
pub struct Table {
    pub table_name: String,
}

/// A column of a catalog table: its name and type, and for each of its constraints the
/// constraint's kind and the table and column it references, if any.
#[derive(Debug, Clone, PartialEq)]
pub struct ColumnsInfo {
    pub column_name: String,
    pub data_type: String,
    pub constraint_types: Vec<Option<String>>,
    pub referenced_tables: Vec<Option<String>>,
    pub referenced_columns: Vec<Option<String>>,
}

} // verus!
