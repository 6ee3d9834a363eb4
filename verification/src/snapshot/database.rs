//! A database: its schemas, each named once, in the order they were added.
use vstd::prelude::*;
use crate::text::str_eq;
use super::{
    Column, Constraint, Function, Relation, Schema, SchemaView, RelationView, FunctionView, SnapshotError,
    SnapshotErrorView, distinct_names, has_name, name_index, lemma_name_index_unique, lemma_distinct_push,
    err_view, column_adder, constraint_adder,
};
use super::{ColumnView, ConstraintView};
#[allow(unused_imports)]
use vstd::view::View as ViewTrait;

verus! {

#[derive(Debug, PartialEq)]
pub struct Database {
    schemas: Vec<Schema>,
}

pub ghost struct DatabaseView {
    pub schemas: Seq<SchemaView>,
}

impl vstd::view::View for Database {
    type V = DatabaseView;

    closed spec fn view(&self) -> DatabaseView {
        DatabaseView { schemas: self.schemas@.map_values(|s: Schema| s@) }
    }
}

pub open spec fn relation_adder(relation: RelationView) -> spec_fn(SchemaView) -> Result<SchemaView, SnapshotErrorView> {
    |s: SchemaView| s.add_relation(relation)
}

pub open spec fn function_adder(function: FunctionView) -> spec_fn(SchemaView) -> Result<SchemaView, SnapshotErrorView> {
    |s: SchemaView| s.add_function(function)
}

pub open spec fn table_column_adder(table: Seq<char>, column: ColumnView) -> spec_fn(SchemaView) -> Result<SchemaView, SnapshotErrorView> {
    |s: SchemaView| s.update_table(table, column_adder(column))
}

pub open spec fn table_constraint_adder(table: Seq<char>, constraint: ConstraintView) -> spec_fn(SchemaView) -> Result<SchemaView, SnapshotErrorView> {
    |s: SchemaView| s.update_table(table, constraint_adder(constraint))
}

impl DatabaseView {
    pub open spec fn schema_names(self) -> Seq<Seq<char>> {
        self.schemas.map_values(|s: SchemaView| s.name)
    }

    pub open spec fn wf(self) -> bool {
        distinct_names(self.schema_names())
    }

    pub open spec fn has_schema(self, name: Seq<char>) -> bool {
        has_name(self.schema_names(), name)
    }

    /// The position of the schema of the given name, if it is there.
    pub open spec fn schema_index(self, name: Seq<char>) -> int {
        name_index(self.schema_names(), name)
    }

    /// The database after adding a schema, or the error that refuses it.
    pub open spec fn add_schema(self, s: SchemaView) -> Result<DatabaseView, SnapshotErrorView> {
        if self.has_schema(s.name) {
            Err(SnapshotErrorView::DuplicateSchema { schema: s.name })
        } else {
            Ok(DatabaseView { schemas: self.schemas.push(s) })
        }
    }

    /// The database after changing the schema of the given name, or the error that
    /// refuses it.
    pub open spec fn update_schema(self, name: Seq<char>, f: spec_fn(SchemaView) -> Result<SchemaView, SnapshotErrorView>) -> Result<DatabaseView, SnapshotErrorView> {
        if !self.has_schema(name) {
            Err(SnapshotErrorView::SchemaNotFound { schema: name })
        } else {
            match f(self.schemas[self.schema_index(name)]) {
                Ok(s) => Ok(DatabaseView { schemas: self.schemas.update(self.schema_index(name), s) }),
                Err(e) => Err(e),
            }
        }
    }

    /// The database after removing the schema of the given name, or the error that
    /// refuses it.
    pub open spec fn remove_schema(self, name: Seq<char>) -> Result<DatabaseView, SnapshotErrorView> {
        if !self.has_schema(name) {
            Err(SnapshotErrorView::SchemaNotFound { schema: name })
        } else {
            Ok(DatabaseView { schemas: self.schemas.remove(self.schema_index(name)) })
        }
    }

    /// Taking in a schema: merged into the schema of the same name, or added when there
    /// is none.
    pub open spec fn merge_schema(self, s: SchemaView) -> (DatabaseView, Option<SnapshotErrorView>) {
        if self.has_schema(s.name) {
            let i = self.schema_index(s.name);
            let (merged, e) = self.schemas[i].merge(s);
            (DatabaseView { schemas: self.schemas.update(i, merged) }, e)
        } else {
            (DatabaseView { schemas: self.schemas.push(s) }, None)
        }
    }

    /// Taking in the schemas of another database one after the other, until one is
    /// refused.
    pub open spec fn merge_schemas(self, ss: Seq<SchemaView>) -> (DatabaseView, Option<SnapshotErrorView>)
        decreases ss.len(),
    {
        if ss.len() == 0 {
            (self, None)
        } else {
            let before = self.merge_schemas(ss.drop_last());
            match before.1 {
                Some(e) => before,
                None => before.0.merge_schema(ss.last()),
            }
        }
    }
}

/// Once a schema is refused, taking in more schemas changes nothing.
pub proof fn lemma_merge_schemas_stops(d: DatabaseView, ss: Seq<SchemaView>, k: int)
    requires
        0 <= k <= ss.len(),
        d.merge_schemas(ss.take(k)).1 is Some,
    ensures
        d.merge_schemas(ss) == d.merge_schemas(ss.take(k)),
    decreases ss.len() - k,
{
    if k < ss.len() {
        assert(ss.take(k + 1).drop_last() =~= ss.take(k));
        lemma_merge_schemas_stops(d, ss, k + 1);
    } else {
        assert(ss.take(k) =~= ss);
    }
}

impl Database {
    #[verifier::type_invariant]
    spec fn inv(self) -> bool {
        self@.wf()
    }

    pub fn new() -> (r: Database)
        ensures
            r@.schemas == Seq::<SchemaView>::empty(),
    {
        let d = Database { schemas: Vec::new() };
        assert(d@.schemas =~= Seq::<SchemaView>::empty());
        d
    }

    pub fn iter_schemas(&self) -> (r: &Vec<Schema>)
        ensures
            r@.map_values(|s: Schema| s@) == self@.schemas,
    {
        &self.schemas
    }

    /// The position of the schema of the given name.
    fn find_schema(&self, name: &str) -> (r: Option<usize>)
        ensures
            match r {
                Some(i) => self@.has_schema(name@) && i == self@.schema_index(name@) && i < self.schemas@.len(),
                None => !self@.has_schema(name@),
            },
    {
        proof {
            use_type_invariant(self);
        }
        let ghost names = self@.schema_names();
        for i in 0..self.schemas.len()
            invariant
                names == self@.schema_names(),
                names.len() == self.schemas@.len(),
                distinct_names(names),
                forall|j: int| 0 <= j < i ==> names[j] != name@,
        {
            if str_eq(self.schemas[i].name().as_str(), name) {
                proof {
                    assert(names[i as int] == name@);
                    lemma_name_index_unique(names, name@, i as int);
                }
                return Some(i);
            }
        }
        None
    }

    pub fn has_schema(&self, name: &str) -> (r: bool)
        ensures
            r == self@.has_schema(name@),
    {
        self.find_schema(name).is_some()
    }

    pub fn get_schema(&self, name: &str) -> (r: Result<&Schema, SnapshotError>)
        ensures
            match r {
                Ok(s) => self@.has_schema(name@) && s@ == self@.schemas[self@.schema_index(name@)],
                Err(e) => !self@.has_schema(name@) && e@ == (SnapshotErrorView::SchemaNotFound { schema: name@ }),
            },
    {
        match self.find_schema(name) {
            Some(i) => Ok(&self.schemas[i]),
            None => Err(SnapshotError::SchemaNotFound { schema: name.to_owned() }),
        }
    }

    /// Adds a schema after the others; a schema of the same name makes it fail.
    pub fn add_schema(&mut self, schema: Schema) -> (r: Result<(), SnapshotError>)
        ensures
            match old(self)@.add_schema(schema@) {
                Ok(d) => r is Ok && final(self)@ == d,
                Err(e) => r is Err && r->Err_0@ == e && final(self)@ == old(self)@,
            },
    {
        proof {
            use_type_invariant(&*self);
        }
        if self.has_schema(schema.name().as_str()) {
            return Err(SnapshotError::DuplicateSchema { schema: schema.name().clone() });
        }
        let ghost before = self@;
        let ghost sv = schema@;
        let mut schemas = Vec::new();
        std::mem::swap(&mut schemas, &mut self.schemas);
        schemas.push(schema);
        proof {
            assert(schemas@.map_values(|s: Schema| s@) =~= before.schemas.push(sv));
            assert(before.schemas.push(sv).map_values(|s: SchemaView| s.name) =~= before.schema_names().push(sv.name));
            lemma_distinct_push(before.schema_names(), sv.name);
        }
        self.schemas = schemas;
        Ok(())
    }

    /// Removes the schema of the given name.
    pub fn remove_schema(&mut self, name: &str) -> (r: Result<(), SnapshotError>)
        ensures
            match old(self)@.remove_schema(name@) {
                Ok(d) => r is Ok && final(self)@ == d,
                Err(e) => r is Err && r->Err_0@ == e && final(self)@ == old(self)@,
            },
    {
        proof {
            use_type_invariant(&*self);
        }
        let i = match self.find_schema(name) {
            Some(i) => i,
            None => {
                return Err(SnapshotError::SchemaNotFound { schema: name.to_owned() });
            },
        };
        let ghost before = self@;
        let mut schemas = Vec::new();
        std::mem::swap(&mut schemas, &mut self.schemas);
        let ghost items = schemas@;
        let removed = schemas.remove(i);
        proof {
            assert(schemas@.map_values(|s: Schema| s@) =~= before.schemas.remove(i as int));
            let names = before.schema_names();
            let after = before.schemas.remove(i as int).map_values(|s: SchemaView| s.name);
            assert(after =~= names.remove(i as int));
            assert forall|a: int, b: int| 0 <= a < b < after.len() implies after[a] != after[b] by {
                let a2 = if a < i { a } else { a + 1 };
                let b2 = if b < i { b } else { b + 1 };
                assert(after[a] == names[a2]);
                assert(after[b] == names[b2]);
            }
        }
        self.schemas = schemas;
        Ok(())
    }

    /// Putting back at its place a schema whose name did not change keeps the schemas'
    /// names, and the view is the old one with that schema replaced.
    proof fn lemma_replace(before: Seq<Schema>, after: Seq<Schema>, i: int)
        requires
            0 <= i < before.len(),
            after.len() == before.len(),
            forall|j: int| 0 <= j < before.len() && j != i ==> #[trigger] after[j] == before[j],
            after[i]@.name == before[i]@.name,
        ensures
            after.map_values(|s: Schema| s@) == before.map_values(|s: Schema| s@).update(i, after[i]@),
            after.map_values(|s: Schema| s@).map_values(|s: SchemaView| s.name)
                == before.map_values(|s: Schema| s@).map_values(|s: SchemaView| s.name),
    {
        assert(after.map_values(|s: Schema| s@) =~= before.map_values(|s: Schema| s@).update(i, after[i]@));
        assert(after.map_values(|s: Schema| s@).map_values(|s: SchemaView| s.name)
            =~= before.map_values(|s: Schema| s@).map_values(|s: SchemaView| s.name));
    }

    /// Adds a relation to the schema of the given name.
    pub fn add_relation(&mut self, schema_name: &str, relation: Relation) -> (r: Result<(), SnapshotError>)
        ensures
            match old(self)@.update_schema(schema_name@, relation_adder(relation@)) {
                Ok(d) => r is Ok && final(self)@ == d,
                Err(e) => r is Err && r->Err_0@ == e && final(self)@ == old(self)@,
            },
    {
        let ghost rv = relation@;
        proof {
            use_type_invariant(&*self);
        }
        let i = match self.find_schema(schema_name) {
            Some(i) => i,
            None => {
                return Err(SnapshotError::SchemaNotFound { schema: schema_name.to_owned() });
            },
        };
        let mut schemas = Vec::new();
        std::mem::swap(&mut schemas, &mut self.schemas);
        let ghost before = schemas@;
        let mut schema = schemas.remove(i);
        let ghost sv = schema@;
        let added = schema.add_relation(relation);
        let ghost s2 = schema@;
        schemas.insert(i, schema);
        proof {
            Self::lemma_replace(before, schemas@, i as int);
        }
        self.schemas = schemas;
        proof {
            assert(relation_adder(rv)(sv) == sv.add_relation(rv));
            if added is Err {
                assert(self@.schemas =~= old(self)@.schemas);
            }
        }
        added
    }

    /// Adds a function to the schema of the given name.
    pub fn add_function(&mut self, schema_name: &str, function: Function) -> (r: Result<(), SnapshotError>)
        ensures
            match old(self)@.update_schema(schema_name@, function_adder(function@)) {
                Ok(d) => r is Ok && final(self)@ == d,
                Err(e) => r is Err && r->Err_0@ == e && final(self)@ == old(self)@,
            },
    {
        let ghost fv = function@;
        proof {
            use_type_invariant(&*self);
        }
        let i = match self.find_schema(schema_name) {
            Some(i) => i,
            None => {
                return Err(SnapshotError::SchemaNotFound { schema: schema_name.to_owned() });
            },
        };
        let mut schemas = Vec::new();
        std::mem::swap(&mut schemas, &mut self.schemas);
        let ghost before = schemas@;
        let mut schema = schemas.remove(i);
        let ghost sv = schema@;
        let added = schema.add_function(function);
        schemas.insert(i, schema);
        proof {
            Self::lemma_replace(before, schemas@, i as int);
        }
        self.schemas = schemas;
        proof {
            assert(function_adder(fv)(sv) == sv.add_function(fv));
            if added is Err {
                assert(self@.schemas =~= old(self)@.schemas);
            }
        }
        added
    }

    /// Adds a column to the table of the given name in the schema of the given name.
    pub fn add_column(&mut self, schema_name: &str, table_name: &str, column: Column) -> (r: Result<(), SnapshotError>)
        ensures
            match old(self)@.update_schema(schema_name@, table_column_adder(table_name@, column@)) {
                Ok(d) => r is Ok && final(self)@ == d,
                Err(e) => r is Err && r->Err_0@ == e && final(self)@ == old(self)@,
            },
    {
        let ghost cv = column@;
        proof {
            use_type_invariant(&*self);
        }
        let i = match self.find_schema(schema_name) {
            Some(i) => i,
            None => {
                return Err(SnapshotError::SchemaNotFound { schema: schema_name.to_owned() });
            },
        };
        let mut schemas = Vec::new();
        std::mem::swap(&mut schemas, &mut self.schemas);
        let ghost before = schemas@;
        let mut schema = schemas.remove(i);
        let ghost sv = schema@;
        let added = schema.add_column_to(table_name, column);
        schemas.insert(i, schema);
        proof {
            Self::lemma_replace(before, schemas@, i as int);
        }
        self.schemas = schemas;
        proof {
            assert(table_column_adder(table_name@, cv)(sv) == sv.update_table(table_name@, column_adder(cv)));
            if added is Err {
                assert(self@.schemas =~= old(self)@.schemas);
            }
        }
        added
    }

    /// Adds a constraint to the table of the given name in the schema of the given name.
    pub fn add_constraint(&mut self, schema_name: &str, table_name: &str, constraint: Constraint) -> (r: Result<(), SnapshotError>)
        ensures
            match old(self)@.update_schema(schema_name@, table_constraint_adder(table_name@, constraint@)) {
                Ok(d) => r is Ok && final(self)@ == d,
                Err(e) => r is Err && r->Err_0@ == e && final(self)@ == old(self)@,
            },
    {
        let ghost cv = constraint@;
        proof {
            use_type_invariant(&*self);
        }
        let i = match self.find_schema(schema_name) {
            Some(i) => i,
            None => {
                return Err(SnapshotError::SchemaNotFound { schema: schema_name.to_owned() });
            },
        };
        let mut schemas = Vec::new();
        std::mem::swap(&mut schemas, &mut self.schemas);
        let ghost before = schemas@;
        let mut schema = schemas.remove(i);
        let ghost sv = schema@;
        let added = schema.add_constraint_to(table_name, constraint);
        schemas.insert(i, schema);
        proof {
            Self::lemma_replace(before, schemas@, i as int);
        }
        self.schemas = schemas;
        proof {
            assert(table_constraint_adder(table_name@, cv)(sv) == sv.update_table(table_name@, constraint_adder(cv)));
            if added is Err {
                assert(self@.schemas =~= old(self)@.schemas);
            }
        }
        added
    }

    /// Takes in a schema: merges it into the schema of the same name, or adds it when
    /// there is none.
    pub fn merge_schema(&mut self, schema: Schema) -> (r: Result<(), SnapshotError>)
        ensures
            (final(self)@, err_view(r)) == old(self)@.merge_schema(schema@),
    {
        proof {
            use_type_invariant(&*self);
        }
        let ghost sv0 = schema@;
        match self.find_schema(schema.name().as_str()) {
            None => {
                let added = self.add_schema(schema);
                assert(added is Ok);
                added
            },
            Some(i) => {
                let mut schemas = Vec::new();
                std::mem::swap(&mut schemas, &mut self.schemas);
                let ghost before = schemas@;
                let mut target = schemas.remove(i);
                let merged = target.merge_schema(schema);
                proof {
                    assert(before[i as int]@.name == old(self)@.schemas[i as int].name);
                    lemma_merge_keeps_name(before[i as int]@, sv0);
                }
                schemas.insert(i, target);
                proof {
                    Self::lemma_replace(before, schemas@, i as int);
                }
                self.schemas = schemas;
                merged
            },
        }
    }

    /// Takes in the schemas of another database one after the other; the first that is
    /// refused stops it, and what was taken in before stays.
    pub fn merge(&mut self, other: Database) -> (r: Result<(), SnapshotError>)
        ensures
            (final(self)@, err_view(r)) == old(self)@.merge_schemas(other@.schemas),
    {
        let ghost ss = other@.schemas;
        let Database { schemas } = other;
        let ghost items = schemas@;
        proof {
            assert(ss.take(0) =~= Seq::<SchemaView>::empty());
        }
        for schema in it: schemas.into_iter()
            invariant
                it.seq() == items,
                items.map_values(|s: Schema| s@) == ss,
                ss == other@.schemas,
                old(self)@.merge_schemas(ss.take(it.index() as int)) == (self@, None::<SnapshotErrorView>),
        {
            let ghost k = it.index() as int;
            proof {
                assert(schema@ == ss[k]);
                assert(ss.take(k + 1).drop_last() =~= ss.take(k));
                assert(ss.take(k + 1).last() == ss[k]);
            }
            let merged = self.merge_schema(schema);
            if let Err(e) = merged {
                proof {
                    lemma_merge_schemas_stops(old(self)@, ss, k + 1);
                }
                return Err(e);
            }
        }
        proof {
            assert(ss.take(ss.len() as int) =~= ss);
        }
        Ok(())
    }
}

/// Merging into a schema keeps its name.
pub proof fn lemma_merge_keeps_name(s: SchemaView, o: SchemaView)
    ensures
        s.merge(o).0.name == s.name,
{
    lemma_add_relations_keeps_name(s, o.relations);
    let s1 = s.add_relations(o.relations).0;
    lemma_add_functions_keeps_name(s1, o.functions);
}

proof fn lemma_add_relations_keeps_name(s: SchemaView, rs: Seq<RelationView>)
    ensures
        s.add_relations(rs).0.name == s.name,
    decreases rs.len(),
{
    if rs.len() > 0 {
        lemma_add_relations_keeps_name(s, rs.drop_last());
    }
}

proof fn lemma_add_functions_keeps_name(s: SchemaView, fs: Seq<FunctionView>)
    ensures
        s.add_functions(fs).0.name == s.name,
    decreases fs.len(),
{
    if fs.len() > 0 {
        lemma_add_functions_keeps_name(s, fs.drop_last());
    }
}

} // verus!
