//! The database objects a definition describes: schemas holding relations and functions,
//! tables holding columns and constraints.
pub mod changes;
pub mod database;
pub use database::{Database, DatabaseView};
use vstd::prelude::*;
use crate::text::str_eq;
#[allow(unused_imports)]
use vstd::view::View as ViewTrait;

verus! {

#[derive(Debug, PartialEq)]
pub struct Column {
    pub schema_name: String,
    pub table_name: String,
    pub name: String,
    pub data_type: String,
    pub not_null: bool,
    pub default: Option<String>,
}

pub ghost struct ColumnView {
    pub schema_name: Seq<char>,
    pub table_name: Seq<char>,
    pub name: Seq<char>,
    pub data_type: Seq<char>,
    pub not_null: bool,
    pub default: Option<Seq<char>>,
}

impl vstd::view::View for Column {
    type V = ColumnView;

    open spec fn view(&self) -> ColumnView {
        ColumnView {
            schema_name: self.schema_name@,
            table_name: self.table_name@,
            name: self.name@,
            data_type: self.data_type@,
            not_null: self.not_null,
            default: self.default.deep_view(),
        }
    }
}

#[derive(Debug, PartialEq)]
pub struct Check {
    pub schema_name: String,
    pub table_name: String,
    pub name: String,
    pub expression: String,
    pub deferrable: bool,
    pub initially_deferred: bool,
}

pub ghost struct CheckView {
    pub schema_name: Seq<char>,
    pub table_name: Seq<char>,
    pub name: Seq<char>,
    pub expression: Seq<char>,
    pub deferrable: bool,
    pub initially_deferred: bool,
}

impl vstd::view::View for Check {
    type V = CheckView;

    open spec fn view(&self) -> CheckView {
        CheckView {
            schema_name: self.schema_name@,
            table_name: self.table_name@,
            name: self.name@,
            expression: self.expression@,
            deferrable: self.deferrable,
            initially_deferred: self.initially_deferred,
        }
    }
}

#[derive(Debug, PartialEq)]
pub struct Unique {
    pub schema_name: String,
    pub table_name: String,
    pub name: String,
    pub columns: Vec<String>,
    pub deferrable: bool,
    pub initially_deferred: bool,
}

/// The model of a unique constraint, and of a primary key, which has the same attributes.
pub ghost struct KeyView {
    pub schema_name: Seq<char>,
    pub table_name: Seq<char>,
    pub name: Seq<char>,
    pub columns: Seq<Seq<char>>,
    pub deferrable: bool,
    pub initially_deferred: bool,
}

impl vstd::view::View for Unique {
    type V = KeyView;

    open spec fn view(&self) -> KeyView {
        KeyView {
            schema_name: self.schema_name@,
            table_name: self.table_name@,
            name: self.name@,
            columns: self.columns.deep_view(),
            deferrable: self.deferrable,
            initially_deferred: self.initially_deferred,
        }
    }
}

#[derive(Debug, PartialEq)]
pub struct PrimaryKey {
    pub schema_name: String,
    pub table_name: String,
    pub name: String,
    pub columns: Vec<String>,
    pub deferrable: bool,
    pub initially_deferred: bool,
}

impl vstd::view::View for PrimaryKey {
    type V = KeyView;

    open spec fn view(&self) -> KeyView {
        KeyView {
            schema_name: self.schema_name@,
            table_name: self.table_name@,
            name: self.name@,
            columns: self.columns.deep_view(),
            deferrable: self.deferrable,
            initially_deferred: self.initially_deferred,
        }
    }
}

#[derive(Debug, PartialEq)]
pub struct ForeignKey {
    pub schema_name: String,
    pub table_name: String,
    pub name: String,
    pub columns: Vec<String>,
    pub target_schema: String,
    pub target_table: String,
    pub target_columns: Vec<String>,
    pub deferrable: bool,
    pub initially_deferred: bool,
    pub match_option: String,
    pub update_rule: String,
    pub delete_rule: String,
}

pub ghost struct ForeignKeyView {
    pub schema_name: Seq<char>,
    pub table_name: Seq<char>,
    pub name: Seq<char>,
    pub columns: Seq<Seq<char>>,
    pub target_schema: Seq<char>,
    pub target_table: Seq<char>,
    pub target_columns: Seq<Seq<char>>,
    pub deferrable: bool,
    pub initially_deferred: bool,
    pub match_option: Seq<char>,
    pub update_rule: Seq<char>,
    pub delete_rule: Seq<char>,
}

impl vstd::view::View for ForeignKey {
    type V = ForeignKeyView;

    open spec fn view(&self) -> ForeignKeyView {
        ForeignKeyView {
            schema_name: self.schema_name@,
            table_name: self.table_name@,
            name: self.name@,
            columns: self.columns.deep_view(),
            target_schema: self.target_schema@,
            target_table: self.target_table@,
            target_columns: self.target_columns.deep_view(),
            deferrable: self.deferrable,
            initially_deferred: self.initially_deferred,
            match_option: self.match_option@,
            update_rule: self.update_rule@,
            delete_rule: self.delete_rule@,
        }
    }
}

#[derive(Debug, PartialEq)]
pub struct Function {
    pub schema_name: String,
    pub name: String,
    pub body: String,
    pub language: String,
    pub returns: String,
    pub volatility: String,
}

pub ghost struct FunctionView {
    pub schema_name: Seq<char>,
    pub name: Seq<char>,
    pub body: Seq<char>,
    pub language: Seq<char>,
    pub returns: Seq<char>,
    pub volatility: Seq<char>,
}

impl vstd::view::View for Function {
    type V = FunctionView;

    open spec fn view(&self) -> FunctionView {
        FunctionView {
            schema_name: self.schema_name@,
            name: self.name@,
            body: self.body@,
            language: self.language@,
            returns: self.returns@,
            volatility: self.volatility@,
        }
    }
}

#[derive(Debug, PartialEq)]
pub struct Index {
    pub schema_name: String,
    pub table_name: String,
    pub name: String,
    pub unique: bool,
    pub method: String,
    pub key_expressions: Vec<String>,
}

pub ghost struct IndexView {
    pub schema_name: Seq<char>,
    pub table_name: Seq<char>,
    pub name: Seq<char>,
    pub unique: bool,
    pub method: Seq<char>,
    pub key_expressions: Seq<Seq<char>>,
}

impl vstd::view::View for Index {
    type V = IndexView;

    open spec fn view(&self) -> IndexView {
        IndexView {
            schema_name: self.schema_name@,
            table_name: self.table_name@,
            name: self.name@,
            unique: self.unique,
            method: self.method@,
            key_expressions: self.key_expressions.deep_view(),
        }
    }
}

#[derive(Debug, PartialEq)]
pub struct Sequence {
    pub schema_name: String,
    pub name: String,
    pub data_type: String,
    pub increment: i64,
    pub min_value: i64,
    pub max_value: i64,
    pub start: i64,
    pub cache: i64,
    pub cycle: bool,
    pub owned_by_table: Option<String>,
    pub owned_by_column: Option<String>,
}

pub ghost struct SequenceView {
    pub schema_name: Seq<char>,
    pub name: Seq<char>,
    pub data_type: Seq<char>,
    pub increment: i64,
    pub min_value: i64,
    pub max_value: i64,
    pub start: i64,
    pub cache: i64,
    pub cycle: bool,
    pub owned_by_table: Option<Seq<char>>,
    pub owned_by_column: Option<Seq<char>>,
}

impl vstd::view::View for Sequence {
    type V = SequenceView;

    open spec fn view(&self) -> SequenceView {
        SequenceView {
            schema_name: self.schema_name@,
            name: self.name@,
            data_type: self.data_type@,
            increment: self.increment,
            min_value: self.min_value,
            max_value: self.max_value,
            start: self.start,
            cache: self.cache,
            cycle: self.cycle,
            owned_by_table: self.owned_by_table.deep_view(),
            owned_by_column: self.owned_by_column.deep_view(),
        }
    }
}

#[derive(Debug, PartialEq)]
pub struct View {
    pub schema_name: String,
    pub name: String,
    pub query: String,
}

pub ghost struct ViewView {
    pub schema_name: Seq<char>,
    pub name: Seq<char>,
    pub query: Seq<char>,
}

impl vstd::view::View for View {
    type V = ViewView;

    open spec fn view(&self) -> ViewView {
        ViewView { schema_name: self.schema_name@, name: self.name@, query: self.query@ }
    }
}

#[derive(Debug, PartialEq)]
pub enum Constraint {
    PrimaryKey(PrimaryKey),
    Unique(Unique),
    ForeignKey(ForeignKey),
    Check(Check),
}

pub ghost enum ConstraintView {
    PrimaryKey(KeyView),
    Unique(KeyView),
    ForeignKey(ForeignKeyView),
    Check(CheckView),
}

impl vstd::view::View for Constraint {
    type V = ConstraintView;

    open spec fn view(&self) -> ConstraintView {
        match self {
            Constraint::PrimaryKey(c) => ConstraintView::PrimaryKey(c@),
            Constraint::Unique(c) => ConstraintView::Unique(c@),
            Constraint::ForeignKey(c) => ConstraintView::ForeignKey(c@),
            Constraint::Check(c) => ConstraintView::Check(c@),
        }
    }
}

impl ConstraintView {
    pub open spec fn name(self) -> Seq<char> {
        match self {
            ConstraintView::PrimaryKey(c) => c.name,
            ConstraintView::Unique(c) => c.name,
            ConstraintView::ForeignKey(c) => c.name,
            ConstraintView::Check(c) => c.name,
        }
    }
}

impl Constraint {
    pub fn name(&self) -> (r: &String)
        ensures
            r@ == self@.name(),
    {
        match self {
            Constraint::PrimaryKey(c) => &c.name,
            Constraint::Unique(c) => &c.name,
            Constraint::ForeignKey(c) => &c.name,
            Constraint::Check(c) => &c.name,
        }
    }
}

#[derive(Debug, PartialEq)]
pub enum Relation {
    Table(Table),
    View(View),
    Index(Index),
    Sequence(Sequence),
}

pub ghost enum RelationView {
    Table(TableView),
    View(ViewView),
    Index(IndexView),
    Sequence(SequenceView),
}

impl vstd::view::View for Relation {
    type V = RelationView;

    open spec fn view(&self) -> RelationView {
        match self {
            Relation::Table(r) => RelationView::Table(r@),
            Relation::View(r) => RelationView::View(r@),
            Relation::Index(r) => RelationView::Index(r@),
            Relation::Sequence(r) => RelationView::Sequence(r@),
        }
    }
}

impl RelationView {
    pub open spec fn name(self) -> Seq<char> {
        match self {
            RelationView::Table(r) => r.name,
            RelationView::View(r) => r.name,
            RelationView::Index(r) => r.name,
            RelationView::Sequence(r) => r.name,
        }
    }
}

impl Relation {
    pub fn name(&self) -> (r: &String)
        ensures
            r@ == self@.name(),
    {
        match self {
            Relation::Table(r) => r.name(),
            Relation::View(r) => &r.name,
            Relation::Index(r) => &r.name,
            Relation::Sequence(r) => &r.name,
        }
    }
}

/// A name that two objects of one collection would share.
#[derive(Debug, PartialEq)]
pub enum SnapshotError {
    DuplicateColumn { table: String, column: String },
    DuplicateConstraint { table: String, constraint: String },
    DuplicateRelation { schema: String, relation: String },
    DuplicateFunction { schema: String, function: String },
    DuplicateSchema { schema: String },
    SchemaNotFound { schema: String },
    RelationNotFound { schema: String, relation: String },
    NotATable { schema: String, relation: String },
}

pub ghost enum SnapshotErrorView {
    DuplicateColumn { table: Seq<char>, column: Seq<char> },
    DuplicateConstraint { table: Seq<char>, constraint: Seq<char> },
    DuplicateRelation { schema: Seq<char>, relation: Seq<char> },
    DuplicateFunction { schema: Seq<char>, function: Seq<char> },
    DuplicateSchema { schema: Seq<char> },
    SchemaNotFound { schema: Seq<char> },
    RelationNotFound { schema: Seq<char>, relation: Seq<char> },
    NotATable { schema: Seq<char>, relation: Seq<char> },
}

impl vstd::view::View for SnapshotError {
    type V = SnapshotErrorView;

    open spec fn view(&self) -> SnapshotErrorView {
        match self {
            SnapshotError::DuplicateColumn { table, column } => SnapshotErrorView::DuplicateColumn {
                table: table@,
                column: column@,
            },
            SnapshotError::DuplicateConstraint { table, constraint } => SnapshotErrorView::DuplicateConstraint {
                table: table@,
                constraint: constraint@,
            },
            SnapshotError::DuplicateRelation { schema, relation } => SnapshotErrorView::DuplicateRelation {
                schema: schema@,
                relation: relation@,
            },
            SnapshotError::DuplicateFunction { schema, function } => SnapshotErrorView::DuplicateFunction {
                schema: schema@,
                function: function@,
            },
            SnapshotError::DuplicateSchema { schema } => SnapshotErrorView::DuplicateSchema { schema: schema@ },
            SnapshotError::SchemaNotFound { schema } => SnapshotErrorView::SchemaNotFound { schema: schema@ },
            SnapshotError::RelationNotFound { schema, relation } => SnapshotErrorView::RelationNotFound {
                schema: schema@,
                relation: relation@,
            },
            SnapshotError::NotATable { schema, relation } => SnapshotErrorView::NotATable {
                schema: schema@,
                relation: relation@,
            },
        }
    }
}

/// No two items of the list have the same name.
pub open spec fn distinct_names(names: Seq<Seq<char>>) -> bool {
    forall|i: int, j: int| 0 <= i < j < names.len() ==> names[i] != names[j]
}

/// Tells whether no two names of the list are the same.
pub fn names_distinct(names: &Vec<String>) -> (r: bool)
    ensures
        r == distinct_names(names.deep_view()),
{
    let ghost ns = names.deep_view();
    for i in 0..names.len()
        invariant
            ns == names.deep_view(),
            ns.len() == names@.len(),
            forall|a: int, b: int| 0 <= a < b < ns.len() && a < i ==> ns[a] != ns[b],
    {
        for j in i + 1..names.len()
            invariant
                ns == names.deep_view(),
                ns.len() == names@.len(),
                i < j <= ns.len() || j == i + 1,
                i < ns.len(),
                forall|a: int, b: int| 0 <= a < b < ns.len() && a < i ==> ns[a] != ns[b],
                forall|b: int| i < b < j ==> ns[i as int] != ns[b],
        {
            if str_eq(names[i].as_str(), names[j].as_str()) {
                assert(ns[i as int] == ns[j as int]);
                return false;
            }
        }
    }
    true
}

pub proof fn lemma_distinct_push(names: Seq<Seq<char>>, name: Seq<char>)
    requires
        distinct_names(names),
        !has_name(names, name),
    ensures
        distinct_names(names.push(name)),
{
    let nn = names.push(name);
    assert forall|i: int, j: int| 0 <= i < j < nn.len() implies nn[i] != nn[j] by {
        assert(nn[i] == names[i]);
        if j < names.len() {
            assert(nn[j] == names[j]);
        }
    }
}

/// A table: its columns and its constraints, each in the order they were added, each
/// named at most once.
#[derive(Debug, PartialEq)]
pub struct Table {
    schema_name: String,
    name: String,
    columns: Vec<Column>,
    constraints: Vec<Constraint>,
}

pub ghost struct TableView {
    pub schema_name: Seq<char>,
    pub name: Seq<char>,
    pub columns: Seq<ColumnView>,
    pub constraints: Seq<ConstraintView>,
}

impl vstd::view::View for Table {
    type V = TableView;

    closed spec fn view(&self) -> TableView {
        TableView {
            schema_name: self.schema_name@,
            name: self.name@,
            columns: self.columns@.map_values(|c: Column| c@),
            constraints: self.constraints@.map_values(|c: Constraint| c@),
        }
    }
}

impl TableView {
    pub open spec fn column_names(self) -> Seq<Seq<char>> {
        self.columns.map_values(|c: ColumnView| c.name)
    }

    pub open spec fn constraint_names(self) -> Seq<Seq<char>> {
        self.constraints.map_values(|c: ConstraintView| c.name())
    }

    pub open spec fn wf(self) -> bool {
        distinct_names(self.column_names()) && distinct_names(self.constraint_names())
    }
}

/// Whether an item of the list has the name.
pub open spec fn has_name(names: Seq<Seq<char>>, name: Seq<char>) -> bool {
    exists|i: int| 0 <= i < names.len() && names[i] == name
}

impl Table {
    #[verifier::type_invariant]
    spec fn inv(self) -> bool {
        self@.wf()
    }

    pub fn new(schema_name: &str, name: &str) -> (r: Table)
        ensures
            r@ == (TableView { schema_name: schema_name@, name: name@, columns: seq![], constraints: seq![] }),
    {
        let t = Table { schema_name: schema_name.to_owned(), name: name.to_owned(), columns: Vec::new(), constraints: Vec::new() };
        assert(t@.columns =~= seq![]);
        assert(t@.constraints =~= seq![]);
        t
    }

    pub fn name(&self) -> (r: &String)
        ensures
            r@ == self@.name,
    {
        &self.name
    }

    pub fn schema_name(&self) -> (r: &String)
        ensures
            r@ == self@.schema_name,
    {
        &self.schema_name
    }

    pub fn iter_columns(&self) -> (r: &Vec<Column>)
        ensures
            r@.map_values(|c: Column| c@) == self@.columns,
    {
        &self.columns
    }

    pub fn iter_constraints(&self) -> (r: &Vec<Constraint>)
        ensures
            r@.map_values(|c: Constraint| c@) == self@.constraints,
    {
        &self.constraints
    }

    /// Adds a column after the others; a column of the same name makes it fail.
    pub fn add_column(&mut self, column: Column) -> (r: Result<(), SnapshotError>)
        ensures
            has_name(old(self)@.column_names(), column.name@) ==> {
                &&& r is Err
                &&& r->Err_0@ == (SnapshotErrorView::DuplicateColumn { table: old(self)@.name, column: column@.name })
                &&& final(self)@ == old(self)@
            },
            !has_name(old(self)@.column_names(), column.name@) ==> {
                &&& r is Ok
                &&& final(self)@ == (TableView { columns: old(self)@.columns.push(column@), ..old(self)@ })
            },
    {
        proof {
            use_type_invariant(&*self);
        }
        let ghost names = self@.column_names();
        for i in 0..self.columns.len()
            invariant
                names == self@.column_names(),
                names.len() == self.columns@.len(),
                forall|j: int| 0 <= j < i ==> names[j] != column.name@,
        {
            if str_eq(self.columns[i].name.as_str(), column.name.as_str()) {
                assert(names[i as int] == column.name@);
                return Err(SnapshotError::DuplicateColumn { table: self.name.clone(), column: column.name });
            }
        }
        let ghost before = self@;
        let mut columns = Vec::new();
        std::mem::swap(&mut columns, &mut self.columns);
        columns.push(column);
        proof {
            assert(columns@.map_values(|c: Column| c@) =~= before.columns.push(column@));
            assert(before.columns.push(column@).map_values(|c: ColumnView| c.name) =~= names.push(column@.name));
            lemma_distinct_push(names, column@.name);
        }
        self.columns = columns;
        assert(self@.columns =~= before.columns.push(column@));
        assert(self@.column_names() =~= before.column_names().push(column@.name));
        Ok(())
    }

    /// Adds a constraint after the others; a constraint of the same name makes it fail.
    pub fn add_constraint(&mut self, constraint: Constraint) -> (r: Result<(), SnapshotError>)
        ensures
            has_name(old(self)@.constraint_names(), constraint@.name()) ==> {
                &&& r is Err
                &&& r->Err_0@ == (SnapshotErrorView::DuplicateConstraint { table: old(self)@.name, constraint: constraint@.name() })
                &&& final(self)@ == old(self)@
            },
            !has_name(old(self)@.constraint_names(), constraint@.name()) ==> {
                &&& r is Ok
                &&& final(self)@ == (TableView { constraints: old(self)@.constraints.push(constraint@), ..old(self)@ })
            },
    {
        proof {
            use_type_invariant(&*self);
        }
        let ghost names = self@.constraint_names();
        for i in 0..self.constraints.len()
            invariant
                names == self@.constraint_names(),
                names.len() == self.constraints@.len(),
                forall|j: int| 0 <= j < i ==> names[j] != constraint@.name(),
        {
            if str_eq(self.constraints[i].name().as_str(), constraint.name().as_str()) {
                assert(names[i as int] == constraint@.name());
                let n = constraint.name().clone();
                return Err(SnapshotError::DuplicateConstraint { table: self.name.clone(), constraint: n });
            }
        }
        let ghost before = self@;
        let mut constraints = Vec::new();
        std::mem::swap(&mut constraints, &mut self.constraints);
        constraints.push(constraint);
        proof {
            assert(constraints@.map_values(|c: Constraint| c@) =~= before.constraints.push(constraint@));
            assert(before.constraints.push(constraint@).map_values(|c: ConstraintView| c.name()) =~= names.push(constraint@.name()));
            lemma_distinct_push(names, constraint@.name());
        }
        self.constraints = constraints;
        assert(self@.constraints =~= before.constraints.push(constraint@));
        assert(self@.constraint_names() =~= before.constraint_names().push(constraint@.name()));
        Ok(())
    }
}

/// A schema: its relations and its functions, each in the order they were added, each
/// named at most once.
#[derive(Debug, PartialEq)]
pub struct Schema {
    name: String,
    relations: Vec<Relation>,
    functions: Vec<Function>,
}

pub ghost struct SchemaView {
    pub name: Seq<char>,
    pub relations: Seq<RelationView>,
    pub functions: Seq<FunctionView>,
}

impl vstd::view::View for Schema {
    type V = SchemaView;

    closed spec fn view(&self) -> SchemaView {
        SchemaView {
            name: self.name@,
            relations: self.relations@.map_values(|r: Relation| r@),
            functions: self.functions@.map_values(|f: Function| f@),
        }
    }
}

impl SchemaView {
    pub open spec fn relation_names(self) -> Seq<Seq<char>> {
        self.relations.map_values(|r: RelationView| r.name())
    }

    pub open spec fn function_names(self) -> Seq<Seq<char>> {
        self.functions.map_values(|f: FunctionView| f.name)
    }

    pub open spec fn wf(self) -> bool {
        distinct_names(self.relation_names()) && distinct_names(self.function_names())
    }
}

impl Schema {
    #[verifier::type_invariant]
    spec fn inv(self) -> bool {
        self@.wf()
    }

    pub fn new(name: &str) -> (r: Schema)
        ensures
            r@ == (SchemaView { name: name@, relations: seq![], functions: seq![] }),
    {
        let s = Schema { name: name.to_owned(), relations: Vec::new(), functions: Vec::new() };
        assert(s@.relations =~= seq![]);
        assert(s@.functions =~= seq![]);
        s
    }

    pub fn name(&self) -> (r: &String)
        ensures
            r@ == self@.name,
    {
        &self.name
    }

    pub fn iter_relations(&self) -> (r: &Vec<Relation>)
        ensures
            r@.map_values(|x: Relation| x@) == self@.relations,
    {
        &self.relations
    }

    pub fn iter_functions(&self) -> (r: &Vec<Function>)
        ensures
            r@.map_values(|x: Function| x@) == self@.functions,
    {
        &self.functions
    }

    /// Adds a relation after the others; a relation of the same name makes it fail.
    pub fn add_relation(&mut self, relation: Relation) -> (r: Result<(), SnapshotError>)
        ensures
            has_name(old(self)@.relation_names(), relation@.name()) ==> {
                &&& r is Err
                &&& r->Err_0@ == (SnapshotErrorView::DuplicateRelation { schema: old(self)@.name, relation: relation@.name() })
                &&& final(self)@ == old(self)@
            },
            !has_name(old(self)@.relation_names(), relation@.name()) ==> {
                &&& r is Ok
                &&& final(self)@ == (SchemaView { relations: old(self)@.relations.push(relation@), ..old(self)@ })
            },
    {
        proof {
            use_type_invariant(&*self);
        }
        let ghost names = self@.relation_names();
        for i in 0..self.relations.len()
            invariant
                names == self@.relation_names(),
                names.len() == self.relations@.len(),
                forall|j: int| 0 <= j < i ==> names[j] != relation@.name(),
        {
            if str_eq(self.relations[i].name().as_str(), relation.name().as_str()) {
                assert(names[i as int] == relation@.name());
                let n = relation.name().clone();
                return Err(SnapshotError::DuplicateRelation { schema: self.name.clone(), relation: n });
            }
        }
        let ghost before = self@;
        let mut relations = Vec::new();
        std::mem::swap(&mut relations, &mut self.relations);
        relations.push(relation);
        proof {
            assert(relations@.map_values(|x: Relation| x@) =~= before.relations.push(relation@));
            assert(before.relations.push(relation@).map_values(|x: RelationView| x.name()) =~= names.push(relation@.name()));
            lemma_distinct_push(names, relation@.name());
        }
        self.relations = relations;
        Ok(())
    }

    /// Adds a function after the others; a function of the same name makes it fail.
    pub fn add_function(&mut self, function: Function) -> (r: Result<(), SnapshotError>)
        ensures
            has_name(old(self)@.function_names(), function@.name) ==> {
                &&& r is Err
                &&& r->Err_0@ == (SnapshotErrorView::DuplicateFunction { schema: old(self)@.name, function: function@.name })
                &&& final(self)@ == old(self)@
            },
            !has_name(old(self)@.function_names(), function@.name) ==> {
                &&& r is Ok
                &&& final(self)@ == (SchemaView { functions: old(self)@.functions.push(function@), ..old(self)@ })
            },
    {
        proof {
            use_type_invariant(&*self);
        }
        let ghost names = self@.function_names();
        for i in 0..self.functions.len()
            invariant
                names == self@.function_names(),
                names.len() == self.functions@.len(),
                forall|j: int| 0 <= j < i ==> names[j] != function@.name,
        {
            if str_eq(self.functions[i].name.as_str(), function.name.as_str()) {
                assert(names[i as int] == function@.name);
                return Err(SnapshotError::DuplicateFunction { schema: self.name.clone(), function: function.name });
            }
        }
        let ghost before = self@;
        let mut functions = Vec::new();
        std::mem::swap(&mut functions, &mut self.functions);
        functions.push(function);
        proof {
            assert(functions@.map_values(|x: Function| x@) =~= before.functions.push(function@));
            assert(before.functions.push(function@).map_values(|x: FunctionView| x.name) =~= names.push(function@.name));
            lemma_distinct_push(names, function@.name);
        }
        self.functions = functions;
        Ok(())
    }
}

/// The first position of a name in a list, if it is there.
pub open spec fn name_index(names: Seq<Seq<char>>, name: Seq<char>) -> int {
    choose|i: int| 0 <= i < names.len() && names[i] == name
}

pub proof fn lemma_name_index(names: Seq<Seq<char>>, name: Seq<char>)
    requires
        has_name(names, name),
    ensures
        0 <= name_index(names, name) < names.len(),
        names[name_index(names, name)] == name,
{
}

pub proof fn lemma_name_index_unique(names: Seq<Seq<char>>, name: Seq<char>, i: int)
    requires
        distinct_names(names),
        0 <= i < names.len(),
        names[i] == name,
    ensures
        name_index(names, name) == i,
{
    let j = name_index(names, name);
    assert(names[j] == name);
    if j < i {
        assert(names[j] != names[i]);
    } else if i < j {
        assert(names[i] != names[j]);
    }
}

impl TableView {
    /// The table after adding a column, or the error that refuses it.
    pub open spec fn add_column(self, column: ColumnView) -> Result<TableView, SnapshotErrorView> {
        if has_name(self.column_names(), column.name) {
            Err(SnapshotErrorView::DuplicateColumn { table: self.name, column: column.name })
        } else {
            Ok(TableView { columns: self.columns.push(column), ..self })
        }
    }

    /// The table after adding a constraint, or the error that refuses it.
    pub open spec fn add_constraint(self, constraint: ConstraintView) -> Result<TableView, SnapshotErrorView> {
        if has_name(self.constraint_names(), constraint.name()) {
            Err(SnapshotErrorView::DuplicateConstraint { table: self.name, constraint: constraint.name() })
        } else {
            Ok(TableView { constraints: self.constraints.push(constraint), ..self })
        }
    }
}

/// What a step of a merge leaves: the value reached, and the error that stopped it, if any.
pub open spec fn step<T>(before: (T, Option<SnapshotErrorView>), r: Result<T, SnapshotErrorView>) -> (T, Option<SnapshotErrorView>) {
    match before.1 {
        Some(e) => before,
        None => match r {
            Ok(t) => (t, None),
            Err(e) => (before.0, Some(e)),
        },
    }
}

impl SchemaView {
    /// The schema after adding a relation, or the error that refuses it.
    pub open spec fn add_relation(self, relation: RelationView) -> Result<SchemaView, SnapshotErrorView> {
        if has_name(self.relation_names(), relation.name()) {
            Err(SnapshotErrorView::DuplicateRelation { schema: self.name, relation: relation.name() })
        } else {
            Ok(SchemaView { relations: self.relations.push(relation), ..self })
        }
    }

    /// The schema after adding a function, or the error that refuses it.
    pub open spec fn add_function(self, function: FunctionView) -> Result<SchemaView, SnapshotErrorView> {
        if has_name(self.function_names(), function.name) {
            Err(SnapshotErrorView::DuplicateFunction { schema: self.name, function: function.name })
        } else {
            Ok(SchemaView { functions: self.functions.push(function), ..self })
        }
    }

    /// Adds the relations one after the other until one is refused.
    pub open spec fn add_relations(self, rs: Seq<RelationView>) -> (SchemaView, Option<SnapshotErrorView>)
        decreases rs.len(),
    {
        if rs.len() == 0 {
            (self, None)
        } else {
            let before = self.add_relations(rs.drop_last());
            step(before, before.0.add_relation(rs.last()))
        }
    }

    /// Adds the functions one after the other until one is refused.
    pub open spec fn add_functions(self, fs: Seq<FunctionView>) -> (SchemaView, Option<SnapshotErrorView>)
        decreases fs.len(),
    {
        if fs.len() == 0 {
            (self, None)
        } else {
            let before = self.add_functions(fs.drop_last());
            step(before, before.0.add_function(fs.last()))
        }
    }

    /// Merging another schema in: its relations, then its functions, until one is refused.
    pub open spec fn merge(self, other: SchemaView) -> (SchemaView, Option<SnapshotErrorView>) {
        let (s1, e1) = self.add_relations(other.relations);
        match e1 {
            Some(e) => (s1, Some(e)),
            None => s1.add_functions(other.functions),
        }
    }

    /// The position of the relation with the given name, if it is there.
    pub open spec fn relation_index(self, name: Seq<char>) -> int {
        name_index(self.relation_names(), name)
    }

    /// The schema after changing the table of the given name, or the error that refuses it.
    pub open spec fn update_table(self, table: Seq<char>, f: spec_fn(TableView) -> Result<TableView, SnapshotErrorView>) -> Result<SchemaView, SnapshotErrorView> {
        if !has_name(self.relation_names(), table) {
            Err(SnapshotErrorView::RelationNotFound { schema: self.name, relation: table })
        } else {
            match self.relations[self.relation_index(table)] {
                RelationView::Table(t) => match f(t) {
                    Ok(t2) => Ok(SchemaView {
                        relations: self.relations.update(self.relation_index(table), RelationView::Table(t2)),
                        ..self
                    }),
                    Err(e) => Err(e),
                },
                _ => Err(SnapshotErrorView::NotATable { schema: self.name, relation: table }),
            }
        }
    }
}

pub open spec fn column_adder(column: ColumnView) -> spec_fn(TableView) -> Result<TableView, SnapshotErrorView> {
    |t: TableView| t.add_column(column)
}

pub open spec fn constraint_adder(constraint: ConstraintView) -> spec_fn(TableView) -> Result<TableView, SnapshotErrorView> {
    |t: TableView| t.add_constraint(constraint)
}

pub open spec fn err_view(r: Result<(), SnapshotError>) -> Option<SnapshotErrorView> {
    match r {
        Ok(_) => None,
        Err(e) => Some(e@),
    }
}

impl Schema {
    /// Adds the relations and then the functions of another schema; the first name already
    /// taken stops the merge with its error, and what was added before it stays.
    pub fn merge_schema(&mut self, other: Schema) -> (r: Result<(), SnapshotError>)
        ensures
            (final(self)@, err_view(r)) == old(self)@.merge(other@),
    {
        let ghost o = other@;
        let Schema { name: _, relations, functions } = other;
        let ghost rs = relations@.map_values(|x: Relation| x@);
        let ghost fs = functions@.map_values(|x: Function| x@);
        assert(rs == o.relations);
        assert(fs == o.functions);
        let ghost start = self@;
        let ghost items = relations@;
        proof {
            assert(rs.take(0) =~= Seq::<RelationView>::empty());
        }
        for relation in it: relations.into_iter()
            invariant
                it.seq() == items,
                items.map_values(|x: Relation| x@) == rs,
                start == old(self)@,
                o == other@,
                o.relations == rs,
                start.add_relations(rs.take(it.index() as int)) == (self@, None::<SnapshotErrorView>),
        {
            let ghost k = it.index() as int;
            proof {
                assert(relation@ == rs[k]);
                assert(rs.take(k + 1).drop_last() =~= rs.take(k));
                assert(rs.take(k + 1).last() == rs[k]);
            }
            let added = self.add_relation(relation);
            if let Err(e) = added {
                proof {
                    assert(start.add_relations(rs.take(k + 1)) == (self@, Some(e@)));
                    lemma_add_relations_stops(start, rs, k + 1);
                }
                return Err(e);
            }
        }
        proof {
            assert(rs.take(rs.len() as int) =~= rs);
            assert(fs.take(0) =~= Seq::<FunctionView>::empty());
        }
        let ghost middle = self@;
        let ghost fitems = functions@;
        for function in it: functions.into_iter()
            invariant
                it.seq() == fitems,
                fitems.map_values(|x: Function| x@) == fs,
                start == old(self)@,
                o == other@,
                o.relations == rs,
                o.functions == fs,
                start.add_relations(rs) == (middle, None::<SnapshotErrorView>),
                middle.add_functions(fs.take(it.index() as int)) == (self@, None::<SnapshotErrorView>),
        {
            let ghost k = it.index() as int;
            proof {
                assert(function@ == fs[k]);
                assert(fs.take(k + 1).drop_last() =~= fs.take(k));
                assert(fs.take(k + 1).last() == fs[k]);
            }
            let added = self.add_function(function);
            if let Err(e) = added {
                proof {
                    assert(middle.add_functions(fs.take(k + 1)) == (self@, Some(e@)));
                    lemma_add_functions_stops(middle, fs, k + 1);
                }
                return Err(e);
            }
        }
        proof {
            assert(fs.take(fs.len() as int) =~= fs);
        }
        Ok(())
    }

    /// Adds a column to the table of the given name.
    pub fn add_column_to(&mut self, table: &str, column: Column) -> (r: Result<(), SnapshotError>)
        ensures
            match old(self)@.update_table(table@, column_adder(column@)) {
                Ok(s) => r is Ok && final(self)@ == s,
                Err(e) => r is Err && r->Err_0@ == e && final(self)@ == old(self)@,
            },
    {
        let ghost cv = column@;
        let i = self.find_table(table)?;
        proof {
            use_type_invariant(&*self);
        }
        let mut relations = Vec::new();
        std::mem::swap(&mut relations, &mut self.relations);
        let ghost before = relations@;
        let relation = relations.remove(i);
        match relation {
            Relation::Table(mut t) => {
                let ghost tv = t@;
                assert(before[i as int]@ == RelationView::Table(tv));
                let added = t.add_column(column);
                let ghost t2 = t@;
                relations.insert(i, Relation::Table(t));
                proof {
                    self.lemma_reinsert(before, relations@, i as int);
                }
                self.relations = relations;
                proof {
                    assert(self@.relations == old(self)@.relations.update(i as int, RelationView::Table(t2)));
                    assert(column_adder(cv)(tv) == tv.add_column(cv));
                    if added is Err {
                        assert(self@.relations =~= old(self)@.relations);
                    }
                }
                added
            },
            _ => {
                relations.insert(i, relation);
                proof {
                    assert(relations@ =~= before);
                }
                self.relations = relations;
                Err(SnapshotError::NotATable { schema: self.name.clone(), relation: table.to_owned() })
            },
        }
    }

    /// Adds a constraint to the table of the given name.
    pub fn add_constraint_to(&mut self, table: &str, constraint: Constraint) -> (r: Result<(), SnapshotError>)
        ensures
            match old(self)@.update_table(table@, constraint_adder(constraint@)) {
                Ok(s) => r is Ok && final(self)@ == s,
                Err(e) => r is Err && r->Err_0@ == e && final(self)@ == old(self)@,
            },
    {
        let ghost cv = constraint@;
        let i = self.find_table(table)?;
        proof {
            use_type_invariant(&*self);
        }
        let mut relations = Vec::new();
        std::mem::swap(&mut relations, &mut self.relations);
        let ghost before = relations@;
        let relation = relations.remove(i);
        match relation {
            Relation::Table(mut t) => {
                let ghost tv = t@;
                assert(before[i as int]@ == RelationView::Table(tv));
                let added = t.add_constraint(constraint);
                let ghost t2 = t@;
                relations.insert(i, Relation::Table(t));
                proof {
                    self.lemma_reinsert(before, relations@, i as int);
                }
                self.relations = relations;
                proof {
                    assert(self@.relations == old(self)@.relations.update(i as int, RelationView::Table(t2)));
                    assert(constraint_adder(cv)(tv) == tv.add_constraint(cv));
                    if added is Err {
                        assert(self@.relations =~= old(self)@.relations);
                    }
                }
                added
            },
            _ => {
                relations.insert(i, relation);
                proof {
                    assert(relations@ =~= before);
                }
                self.relations = relations;
                Err(SnapshotError::NotATable { schema: self.name.clone(), relation: table.to_owned() })
            },
        }
    }

    /// The position of the relation of the given name.
    fn find_table(&self, table: &str) -> (r: Result<usize, SnapshotError>)
        ensures
            match r {
                Ok(i) => has_name(self@.relation_names(), table@) && i == self@.relation_index(table@)
                    && i < self.relations@.len(),
                Err(e) => !has_name(self@.relation_names(), table@)
                    && e@ == (SnapshotErrorView::RelationNotFound { schema: self@.name, relation: table@ }),
            },
    {
        proof {
            use_type_invariant(self);
        }
        let ghost names = self@.relation_names();
        for i in 0..self.relations.len()
            invariant
                names == self@.relation_names(),
                names.len() == self.relations@.len(),
                distinct_names(names),
                forall|j: int| 0 <= j < i ==> names[j] != table@,
        {
            if str_eq(self.relations[i].name().as_str(), table) {
                proof {
                    assert(names[i as int] == table@);
                    lemma_name_index_unique(names, table@, i as int);
                }
                return Ok(i);
            }
        }
        Err(SnapshotError::RelationNotFound { schema: self.name.clone(), relation: table.to_owned() })
    }

    /// Putting back at its place a table whose name did not change keeps the relations'
    /// names, and the view is the old one with that table replaced.
    proof fn lemma_reinsert(&self, before: Seq<Relation>, after: Seq<Relation>, i: int)
        requires
            0 <= i < before.len(),
            after.len() == before.len(),
            forall|j: int| 0 <= j < before.len() && j != i ==> #[trigger] after[j] == before[j],
            after[i]@.name() == before[i]@.name(),
        ensures
            after.map_values(|x: Relation| x@) == before.map_values(|x: Relation| x@).update(i, after[i]@),
            after.map_values(|x: Relation| x@).map_values(|x: RelationView| x.name())
                == before.map_values(|x: Relation| x@).map_values(|x: RelationView| x.name()),
    {
        assert(after.map_values(|x: Relation| x@) =~= before.map_values(|x: Relation| x@).update(i, after[i]@));
        assert(after.map_values(|x: Relation| x@).map_values(|x: RelationView| x.name())
            =~= before.map_values(|x: Relation| x@).map_values(|x: RelationView| x.name()));
    }
}

/// Once a relation is refused, adding more relations changes nothing.
pub proof fn lemma_add_relations_stops(s: SchemaView, rs: Seq<RelationView>, k: int)
    requires
        0 <= k <= rs.len(),
        s.add_relations(rs.take(k)).1 is Some,
    ensures
        s.add_relations(rs) == s.add_relations(rs.take(k)),
    decreases rs.len() - k,
{
    if k < rs.len() {
        assert(rs.take(k + 1).drop_last() =~= rs.take(k));
        lemma_add_relations_stops(s, rs, k + 1);
    } else {
        assert(rs.take(k) =~= rs);
    }
}

/// Once a function is refused, adding more functions changes nothing.
pub proof fn lemma_add_functions_stops(s: SchemaView, fs: Seq<FunctionView>, k: int)
    requires
        0 <= k <= fs.len(),
        s.add_functions(fs.take(k)).1 is Some,
    ensures
        s.add_functions(fs) == s.add_functions(fs.take(k)),
    decreases fs.len() - k,
{
    if k < fs.len() {
        assert(fs.take(k + 1).drop_last() =~= fs.take(k));
        lemma_add_functions_stops(s, fs, k + 1);
    } else {
        assert(fs.take(k) =~= fs);
    }
}

} // verus!
