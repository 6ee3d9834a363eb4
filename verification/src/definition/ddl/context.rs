//! Where a definition stands: the schema, and the table for what belongs to one.
use vstd::prelude::*;

verus! {

pub struct Context {
    pub schema_name: String,
    pub table_name: Option<String>,
}

impl Context {
    pub fn new(schema_name: String) -> (r: Self)
        ensures
            r.schema_name@ == schema_name@,
            r.table_name is None,
    {
        Self { schema_name, table_name: None }
    }
}

impl Default for Context {
    fn default() -> (r: Self)
        ensures
            r.schema_name@ == "public"@,
            r.table_name is None,
    {
        Self { schema_name: "public".to_owned(), table_name: None }
    }
}

} // verus!
