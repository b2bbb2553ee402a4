use vstd::prelude::*;

use crate::models::Table;

verus! {

/// The home screen's data: its title and the tables of the database, both unknown until
/// the catalog has been read.
#[derive(Debug, Clone)]
pub struct Home {
    pub title: Option<String>,
    pub tables: Option<Vec<Table>>,
}

impl Home {
    pub fn new() -> (r: Self)
        ensures
            r.title is None,
            r.tables is None,
    {
        Home { title: None, tables: None }
    }

    /// Takes the tables that the catalog lists and sets the title.
    pub fn initialize_component(&mut self, tables: Vec<Table>)
        ensures
            final(self).tables == Some(tables),
            final(self).title matches Some(t) && t@ == "Home Component"@,
    {
        self.tables = Some(tables);
        self.title = Some(String::from_str("Home Component"));
    }
}

} // verus!
