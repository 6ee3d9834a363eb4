//! What the catalog of a database describes, row by row, and how the rows become a
//! snapshot: schemas first, then the objects each belongs to.
use vstd::prelude::*;
use crate::snapshot::{
    self as snap, Relation, Constraint, RelationView, ConstraintView, ColumnView, KeyView, CheckView, ForeignKeyView,
    FunctionView, IndexView, SequenceView, TableView, SnapshotError, SnapshotErrorView, err_view, has_name, name_index,
    SchemaView,
};
use crate::snapshot::changes::empty_schema;
use crate::snapshot::database::{Database, DatabaseView, relation_adder, function_adder, table_column_adder,
    table_constraint_adder};
#[allow(unused_imports)]
use vstd::view::View as ViewTrait;

verus! {

/// A check constraint as the catalog describes it.
#[derive(Debug, PartialEq)]
pub struct Check {
    pub schema: String,
    pub table: String,
    pub name: String,
    pub check_clause: String,
    pub is_deferrable: bool,
    pub initially_deferred: bool,
}

/// A column as the catalog describes it; an empty default stands for none.
#[derive(Debug, PartialEq)]
pub struct Column {
    pub schema: String,
    pub table: String,
    pub att_num: i16,
    pub name: String,
    pub default: String,
    pub not_null: bool,
    pub data_type: String,
}

/// A foreign key as the catalog describes it.
#[derive(Debug, PartialEq)]
pub struct ForeignKey {
    pub constraint_name: String,
    pub constraint_schema: String,
    pub constraint_table_name: String,
    pub columns: Vec<String>,
    pub target_table_name: String,
    pub target_table_schema: String,
    pub target_table_columns: Vec<String>,
    pub deferrable: bool,
    pub initially_deferred: bool,
    pub match_option: String,
    pub update_rule: String,
    pub delete_rule: String,
}

/// A function as the catalog describes it.
#[derive(Debug, PartialEq)]
pub struct Function {
    pub schema: String,
    pub name: String,
    pub body: String,
    pub language: String,
    pub returns: String,
    pub volatility: String,
}

/// An index as the catalog describes it: its key columns, or the expression it is on.
#[derive(Debug, PartialEq)]
pub struct Index {
    pub schema_name: String,
    pub index_name: String,
    pub table_name: String,
    pub unique: bool,
    pub method: String,
    pub key_length: i16,
    pub key_columns: Option<Vec<String>>,
    pub key_options: Vec<i16>,
    pub expressions: Option<String>,
}

/// A primary key as the catalog describes it.
#[derive(Debug, PartialEq)]
pub struct PrimaryKey {
    pub schema: String,
    pub name: String,
    pub table_schema: String,
    pub table_name: String,
    pub table_columns: Vec<String>,
    pub deferrable: bool,
    pub initially_deferred: bool,
}

/// A schema as the catalog describes it.
#[derive(Debug, PartialEq)]
pub struct Schema {
    pub name: String,
}

/// A sequence as the catalog describes it.
#[derive(Debug, PartialEq)]
pub struct Sequence {
    pub schema: String,
    pub name: String,
    pub data_type: String,
    pub increment: i64,
    pub min_value: i64,
    pub max_value: i64,
    pub start: i64,
    pub cache: i64,
    pub cycle: bool,
    pub owned_by_table_name: Option<String>,
    pub owned_by_column_name: Option<String>,
}

/// A table as the catalog describes it.
#[derive(Debug, PartialEq)]
pub struct Table {
    pub schema: String,
    pub name: String,
}

/// A unique constraint as the catalog describes it.
#[derive(Debug, PartialEq)]
pub struct Unique {
    pub schema: String,
    pub name: String,
    pub table_schema: String,
    pub table_name: String,
    pub table_columns: Vec<String>,
    pub deferrable: bool,
    pub initially_deferred: bool,
}

/// A view as the catalog describes it.
#[derive(Debug, PartialEq)]
pub struct View {
    pub schema: String,
    pub name: String,
    pub view_definition: String,
    pub check_option: String,
    pub is_updatable: bool,
    pub is_insertable_into: bool,
    pub is_trigger_updatable: bool,
    pub is_trigger_deletable: bool,
    pub is_trigger_insertable_into: bool,
}

/// Running changes on a database one after the other, until one is refused: the
/// database reached, and the error, if any.
pub open spec fn run_ops(d: DatabaseView, ops: Seq<spec_fn(DatabaseView) -> Result<DatabaseView, SnapshotErrorView>>) -> (DatabaseView, Option<SnapshotErrorView>)
    decreases ops.len(),
{
    if ops.len() == 0 {
        (d, None)
    } else {
        let before = run_ops(d, ops.drop_last());
        match before.1 {
            Some(_) => before,
            None => match (ops.last())(before.0) {
                Ok(d2) => (d2, None),
                Err(e) => (before.0, Some(e)),
            },
        }
    }
}

/// Once a change is refused, running more changes changes nothing.
pub proof fn lemma_run_ops_stops(d: DatabaseView, ops: Seq<spec_fn(DatabaseView) -> Result<DatabaseView, SnapshotErrorView>>, k: int)
    requires
        0 <= k <= ops.len(),
        run_ops(d, ops.take(k)).1 is Some,
    ensures
        run_ops(d, ops) == run_ops(d, ops.take(k)),
    decreases ops.len() - k,
{
    if k < ops.len() {
        assert(ops.take(k + 1).drop_last() =~= ops.take(k));
        lemma_run_ops_stops(d, ops, k + 1);
    } else {
        assert(ops.take(k) =~= ops);
    }
}

/// The keys of an index: its expression, or its key columns.
pub open spec fn index_keys(r: Index) -> Seq<Seq<char>> {
    match r.expressions {
        Some(e) => seq![e@],
        None => r.key_columns->Some_0.deep_view(),
    }
}

/// The change a row makes: adds an empty schema for each row.
pub open spec fn schemas_row_op(r: Schema) -> spec_fn(DatabaseView) -> Result<DatabaseView, SnapshotErrorView> {
    |d: DatabaseView| d.add_schema(empty_schema(r.name@))
}

/// Adds an empty schema for each row. The first row refused stops it with its error, and the rows before it stay.
pub fn load_schemas(database: &mut Database, rows: Vec<Schema>) -> (r: Result<(), SnapshotError>)

    ensures
        (final(database)@, err_view(r)) == run_ops(old(database)@, rows@.map_values(|x: Schema| schemas_row_op(x))),
{
    let ghost ops = rows@.map_values(|x: Schema| schemas_row_op(x));
    let ghost items = rows@;
    proof {
        assert(ops.take(0) =~= Seq::<spec_fn(DatabaseView) -> Result<DatabaseView, SnapshotErrorView>>::empty());
    }
    for row in it: rows.into_iter()
        invariant
            it.seq() == items,
            ops == items.map_values(|x: Schema| schemas_row_op(x)),
            ops.len() == items.len(),
            run_ops(old(database)@, ops.take(it.index() as int)) == (database@, None::<SnapshotErrorView>),
    {
        let ghost k = it.index() as int;
        let ghost r = row;
        proof {
            assert(row == items[k]);
            assert(ops.take(k + 1).drop_last() =~= ops.take(k));
            assert(ops.take(k + 1).last() == schemas_row_op(r));
        }
        let added = database.add_schema(snap::Schema::new(row.name.as_str()));
        if let Err(e) = added {
            proof {
                lemma_run_ops_stops(old(database)@, ops, k + 1);
            }
            return Err(e);
        }
    }
    proof {
        assert(ops.take(ops.len() as int) =~= ops);
    }
    Ok(())
}

/// The change a row makes: adds each sequence to its schema.
pub open spec fn sequences_row_op(r: Sequence) -> spec_fn(DatabaseView) -> Result<DatabaseView, SnapshotErrorView> {
    |d: DatabaseView| d.update_schema(r.schema@, relation_adder(RelationView::Sequence(SequenceView { schema_name: r.schema@, name: r.name@, data_type: r.data_type@, increment: r.increment, min_value: r.min_value, max_value: r.max_value, start: r.start, cache: r.cache, cycle: r.cycle, owned_by_table: r.owned_by_table_name.deep_view(), owned_by_column: r.owned_by_column_name.deep_view() })))
}

/// Adds each sequence to its schema. The first row refused stops it with its error, and the rows before it stay.
pub fn load_sequences(database: &mut Database, rows: Vec<Sequence>) -> (r: Result<(), SnapshotError>)

    ensures
        (final(database)@, err_view(r)) == run_ops(old(database)@, rows@.map_values(|x: Sequence| sequences_row_op(x))),
{
    let ghost ops = rows@.map_values(|x: Sequence| sequences_row_op(x));
    let ghost items = rows@;
    proof {
        assert(ops.take(0) =~= Seq::<spec_fn(DatabaseView) -> Result<DatabaseView, SnapshotErrorView>>::empty());
    }
    for row in it: rows.into_iter()
        invariant
            it.seq() == items,
            ops == items.map_values(|x: Sequence| sequences_row_op(x)),
            ops.len() == items.len(),
            run_ops(old(database)@, ops.take(it.index() as int)) == (database@, None::<SnapshotErrorView>),
    {
        let ghost k = it.index() as int;
        let ghost r = row;
        proof {
            assert(row == items[k]);
            assert(ops.take(k + 1).drop_last() =~= ops.take(k));
            assert(ops.take(k + 1).last() == sequences_row_op(r));
        }
        let added = {
            let schema = row.schema.clone();
            let sequence = snap::Sequence {
                name: row.name,
                schema_name: row.schema,
                data_type: row.data_type,
                start: row.start,
                min_value: row.min_value,
                max_value: row.max_value,
                increment: row.increment,
                cycle: row.cycle,
                cache: row.cache,
                owned_by_column: row.owned_by_column_name,
                owned_by_table: row.owned_by_table_name,
            };
            database.add_relation(schema.as_str(), Relation::Sequence(sequence))
        };
        if let Err(e) = added {
            proof {
                lemma_run_ops_stops(old(database)@, ops, k + 1);
            }
            return Err(e);
        }
    }
    proof {
        assert(ops.take(ops.len() as int) =~= ops);
    }
    Ok(())
}

/// The change a row makes: adds an empty table for each row to its schema.
pub open spec fn tables_row_op(r: Table) -> spec_fn(DatabaseView) -> Result<DatabaseView, SnapshotErrorView> {
    |d: DatabaseView| d.update_schema(r.schema@, relation_adder(RelationView::Table(TableView { schema_name: r.schema@, name: r.name@, columns: Seq::empty(), constraints: Seq::empty() })))
}

/// Adds an empty table for each row to its schema. The first row refused stops it with its error, and the rows before it stay.
pub fn load_tables(database: &mut Database, rows: Vec<Table>) -> (r: Result<(), SnapshotError>)

    ensures
        (final(database)@, err_view(r)) == run_ops(old(database)@, rows@.map_values(|x: Table| tables_row_op(x))),
{
    let ghost ops = rows@.map_values(|x: Table| tables_row_op(x));
    let ghost items = rows@;
    proof {
        assert(ops.take(0) =~= Seq::<spec_fn(DatabaseView) -> Result<DatabaseView, SnapshotErrorView>>::empty());
    }
    for row in it: rows.into_iter()
        invariant
            it.seq() == items,
            ops == items.map_values(|x: Table| tables_row_op(x)),
            ops.len() == items.len(),
            run_ops(old(database)@, ops.take(it.index() as int)) == (database@, None::<SnapshotErrorView>),
    {
        let ghost k = it.index() as int;
        let ghost r = row;
        proof {
            assert(row == items[k]);
            assert(ops.take(k + 1).drop_last() =~= ops.take(k));
            assert(ops.take(k + 1).last() == tables_row_op(r));
        }
        let added = {
            let table = snap::Table::new(row.schema.as_str(), row.name.as_str());
            proof {
                assert(table@.columns =~= Seq::<ColumnView>::empty());
                assert(table@.constraints =~= Seq::<ConstraintView>::empty());
            }
            database.add_relation(row.schema.as_str(), Relation::Table(table))
        };
        if let Err(e) = added {
            proof {
                lemma_run_ops_stops(old(database)@, ops, k + 1);
            }
            return Err(e);
        }
    }
    proof {
        assert(ops.take(ops.len() as int) =~= ops);
    }
    Ok(())
}

/// The change a row makes: adds each column to its table; an empty default stands for none.
pub open spec fn columns_row_op(r: Column) -> spec_fn(DatabaseView) -> Result<DatabaseView, SnapshotErrorView> {
    |d: DatabaseView| d.update_schema(r.schema@, table_column_adder(r.table@, ColumnView { schema_name: r.schema@, table_name: r.table@, name: r.name@, data_type: r.data_type@, not_null: r.not_null, default: if r.default@.len() == 0 { None } else { Some(r.default@) } }))
}

/// Adds each column to its table; an empty default stands for none. The first row refused stops it with its error, and the rows before it stay.
pub fn load_columns(database: &mut Database, rows: Vec<Column>) -> (r: Result<(), SnapshotError>)

    ensures
        (final(database)@, err_view(r)) == run_ops(old(database)@, rows@.map_values(|x: Column| columns_row_op(x))),
{
    let ghost ops = rows@.map_values(|x: Column| columns_row_op(x));
    let ghost items = rows@;
    proof {
        assert(ops.take(0) =~= Seq::<spec_fn(DatabaseView) -> Result<DatabaseView, SnapshotErrorView>>::empty());
    }
    for row in it: rows.into_iter()
        invariant
            it.seq() == items,
            ops == items.map_values(|x: Column| columns_row_op(x)),
            ops.len() == items.len(),
            run_ops(old(database)@, ops.take(it.index() as int)) == (database@, None::<SnapshotErrorView>),
    {
        let ghost k = it.index() as int;
        let ghost r = row;
        proof {
            assert(row == items[k]);
            assert(ops.take(k + 1).drop_last() =~= ops.take(k));
            assert(ops.take(k + 1).last() == columns_row_op(r));
        }
        let added = {
            let schema = row.schema.clone();
            let table = row.table.clone();
            let default = if row.default.as_str().is_empty() { None } else { Some(row.default) };
            let column = snap::Column {
                name: row.name,
                schema_name: row.schema,
                table_name: row.table,
                data_type: row.data_type,
                default,
                not_null: row.not_null,
            };
            database.add_column(schema.as_str(), table.as_str(), column)
        };
        if let Err(e) = added {
            proof {
                lemma_run_ops_stops(old(database)@, ops, k + 1);
            }
            return Err(e);
        }
    }
    proof {
        assert(ops.take(ops.len() as int) =~= ops);
    }
    Ok(())
}

/// The change a row makes: adds each primary key to its table.
pub open spec fn primary_keys_row_op(r: PrimaryKey) -> spec_fn(DatabaseView) -> Result<DatabaseView, SnapshotErrorView> {
    |d: DatabaseView| d.update_schema(r.schema@, table_constraint_adder(r.table_name@, ConstraintView::PrimaryKey(KeyView { schema_name: r.schema@, table_name: r.table_name@, name: r.name@, columns: r.table_columns.deep_view(), deferrable: r.deferrable, initially_deferred: r.initially_deferred })))
}

/// Adds each primary key to its table. The first row refused stops it with its error, and the rows before it stay.
pub fn load_primary_keys(database: &mut Database, rows: Vec<PrimaryKey>) -> (r: Result<(), SnapshotError>)

    ensures
        (final(database)@, err_view(r)) == run_ops(old(database)@, rows@.map_values(|x: PrimaryKey| primary_keys_row_op(x))),
{
    let ghost ops = rows@.map_values(|x: PrimaryKey| primary_keys_row_op(x));
    let ghost items = rows@;
    proof {
        assert(ops.take(0) =~= Seq::<spec_fn(DatabaseView) -> Result<DatabaseView, SnapshotErrorView>>::empty());
    }
    for row in it: rows.into_iter()
        invariant
            it.seq() == items,
            ops == items.map_values(|x: PrimaryKey| primary_keys_row_op(x)),
            ops.len() == items.len(),
            run_ops(old(database)@, ops.take(it.index() as int)) == (database@, None::<SnapshotErrorView>),
    {
        let ghost k = it.index() as int;
        let ghost r = row;
        proof {
            assert(row == items[k]);
            assert(ops.take(k + 1).drop_last() =~= ops.take(k));
            assert(ops.take(k + 1).last() == primary_keys_row_op(r));
        }
        let added = {
            let schema = row.schema.clone();
            let table = row.table_name.clone();
            let primary_key = snap::PrimaryKey {
                name: row.name,
                schema_name: row.schema,
                table_name: row.table_name,
                columns: row.table_columns,
                deferrable: row.deferrable,
                initially_deferred: row.initially_deferred,
            };
            database.add_constraint(schema.as_str(), table.as_str(), Constraint::PrimaryKey(primary_key))
        };
        if let Err(e) = added {
            proof {
                lemma_run_ops_stops(old(database)@, ops, k + 1);
            }
            return Err(e);
        }
    }
    proof {
        assert(ops.take(ops.len() as int) =~= ops);
    }
    Ok(())
}

/// The change a row makes: adds each unique constraint to its table.
pub open spec fn unique_row_op(r: Unique) -> spec_fn(DatabaseView) -> Result<DatabaseView, SnapshotErrorView> {
    |d: DatabaseView| d.update_schema(r.schema@, table_constraint_adder(r.table_name@, ConstraintView::Unique(KeyView { schema_name: r.schema@, table_name: r.table_name@, name: r.name@, columns: r.table_columns.deep_view(), deferrable: r.deferrable, initially_deferred: r.initially_deferred })))
}

/// Adds each unique constraint to its table. The first row refused stops it with its error, and the rows before it stay.
pub fn load_unique(database: &mut Database, rows: Vec<Unique>) -> (r: Result<(), SnapshotError>)

    ensures
        (final(database)@, err_view(r)) == run_ops(old(database)@, rows@.map_values(|x: Unique| unique_row_op(x))),
{
    let ghost ops = rows@.map_values(|x: Unique| unique_row_op(x));
    let ghost items = rows@;
    proof {
        assert(ops.take(0) =~= Seq::<spec_fn(DatabaseView) -> Result<DatabaseView, SnapshotErrorView>>::empty());
    }
    for row in it: rows.into_iter()
        invariant
            it.seq() == items,
            ops == items.map_values(|x: Unique| unique_row_op(x)),
            ops.len() == items.len(),
            run_ops(old(database)@, ops.take(it.index() as int)) == (database@, None::<SnapshotErrorView>),
    {
        let ghost k = it.index() as int;
        let ghost r = row;
        proof {
            assert(row == items[k]);
            assert(ops.take(k + 1).drop_last() =~= ops.take(k));
            assert(ops.take(k + 1).last() == unique_row_op(r));
        }
        let added = {
            let schema = row.schema.clone();
            let table = row.table_name.clone();
            let unique = snap::Unique {
                name: row.name,
                schema_name: row.schema,
                table_name: row.table_name,
                columns: row.table_columns,
                deferrable: row.deferrable,
                initially_deferred: row.initially_deferred,
            };
            database.add_constraint(schema.as_str(), table.as_str(), Constraint::Unique(unique))
        };
        if let Err(e) = added {
            proof {
                lemma_run_ops_stops(old(database)@, ops, k + 1);
            }
            return Err(e);
        }
    }
    proof {
        assert(ops.take(ops.len() as int) =~= ops);
    }
    Ok(())
}

/// The change a row makes: adds each foreign key to its table.
pub open spec fn foreign_keys_row_op(r: ForeignKey) -> spec_fn(DatabaseView) -> Result<DatabaseView, SnapshotErrorView> {
    |d: DatabaseView| d.update_schema(r.constraint_schema@, table_constraint_adder(r.constraint_table_name@, ConstraintView::ForeignKey(ForeignKeyView { schema_name: r.constraint_schema@, table_name: r.constraint_table_name@, name: r.constraint_name@, columns: r.columns.deep_view(), target_schema: r.target_table_schema@, target_table: r.target_table_name@, target_columns: r.target_table_columns.deep_view(), deferrable: r.deferrable, initially_deferred: r.initially_deferred, match_option: r.match_option@, update_rule: r.update_rule@, delete_rule: r.delete_rule@ })))
}

/// Adds each foreign key to its table. The first row refused stops it with its error, and the rows before it stay.
pub fn load_foreign_keys(database: &mut Database, rows: Vec<ForeignKey>) -> (r: Result<(), SnapshotError>)

    ensures
        (final(database)@, err_view(r)) == run_ops(old(database)@, rows@.map_values(|x: ForeignKey| foreign_keys_row_op(x))),
{
    let ghost ops = rows@.map_values(|x: ForeignKey| foreign_keys_row_op(x));
    let ghost items = rows@;
    proof {
        assert(ops.take(0) =~= Seq::<spec_fn(DatabaseView) -> Result<DatabaseView, SnapshotErrorView>>::empty());
    }
    for row in it: rows.into_iter()
        invariant
            it.seq() == items,
            ops == items.map_values(|x: ForeignKey| foreign_keys_row_op(x)),
            ops.len() == items.len(),
            run_ops(old(database)@, ops.take(it.index() as int)) == (database@, None::<SnapshotErrorView>),
    {
        let ghost k = it.index() as int;
        let ghost r = row;
        proof {
            assert(row == items[k]);
            assert(ops.take(k + 1).drop_last() =~= ops.take(k));
            assert(ops.take(k + 1).last() == foreign_keys_row_op(r));
        }
        let added = {
            let schema = row.constraint_schema.clone();
            let table = row.constraint_table_name.clone();
            let foreign_key = snap::ForeignKey {
                name: row.constraint_name,
                schema_name: row.constraint_schema,
                table_name: row.constraint_table_name,
                columns: row.columns,
                target_schema: row.target_table_schema,
                target_table: row.target_table_name,
                target_columns: row.target_table_columns,
                deferrable: row.deferrable,
                initially_deferred: row.initially_deferred,
                match_option: row.match_option,
                update_rule: row.update_rule,
                delete_rule: row.delete_rule,
            };
            database.add_constraint(schema.as_str(), table.as_str(), Constraint::ForeignKey(foreign_key))
        };
        if let Err(e) = added {
            proof {
                lemma_run_ops_stops(old(database)@, ops, k + 1);
            }
            return Err(e);
        }
    }
    proof {
        assert(ops.take(ops.len() as int) =~= ops);
    }
    Ok(())
}

/// The change a row makes: adds each check constraint to its table.
pub open spec fn checks_row_op(r: Check) -> spec_fn(DatabaseView) -> Result<DatabaseView, SnapshotErrorView> {
    |d: DatabaseView| d.update_schema(r.schema@, table_constraint_adder(r.table@, ConstraintView::Check(CheckView { schema_name: r.schema@, table_name: r.table@, name: r.name@, expression: r.check_clause@, deferrable: r.is_deferrable, initially_deferred: r.initially_deferred })))
}

/// Adds each check constraint to its table. The first row refused stops it with its error, and the rows before it stay.
pub fn load_checks(database: &mut Database, rows: Vec<Check>) -> (r: Result<(), SnapshotError>)

    ensures
        (final(database)@, err_view(r)) == run_ops(old(database)@, rows@.map_values(|x: Check| checks_row_op(x))),
{
    let ghost ops = rows@.map_values(|x: Check| checks_row_op(x));
    let ghost items = rows@;
    proof {
        assert(ops.take(0) =~= Seq::<spec_fn(DatabaseView) -> Result<DatabaseView, SnapshotErrorView>>::empty());
    }
    for row in it: rows.into_iter()
        invariant
            it.seq() == items,
            ops == items.map_values(|x: Check| checks_row_op(x)),
            ops.len() == items.len(),
            run_ops(old(database)@, ops.take(it.index() as int)) == (database@, None::<SnapshotErrorView>),
    {
        let ghost k = it.index() as int;
        let ghost r = row;
        proof {
            assert(row == items[k]);
            assert(ops.take(k + 1).drop_last() =~= ops.take(k));
            assert(ops.take(k + 1).last() == checks_row_op(r));
        }
        let added = {
            let schema = row.schema.clone();
            let table = row.table.clone();
            let check = snap::Check {
                name: row.name,
                schema_name: row.schema,
                table_name: row.table,
                expression: row.check_clause,
                deferrable: row.is_deferrable,
                initially_deferred: row.initially_deferred,
            };
            database.add_constraint(schema.as_str(), table.as_str(), Constraint::Check(check))
        };
        if let Err(e) = added {
            proof {
                lemma_run_ops_stops(old(database)@, ops, k + 1);
            }
            return Err(e);
        }
    }
    proof {
        assert(ops.take(ops.len() as int) =~= ops);
    }
    Ok(())
}

/// The change a row makes: adds each function to its schema.
pub open spec fn functions_row_op(r: Function) -> spec_fn(DatabaseView) -> Result<DatabaseView, SnapshotErrorView> {
    |d: DatabaseView| d.update_schema(r.schema@, function_adder(FunctionView { schema_name: r.schema@, name: r.name@, body: r.body@, language: r.language@, returns: r.returns@, volatility: r.volatility@ }))
}

/// Adds each function to its schema. The first row refused stops it with its error, and the rows before it stay.
pub fn load_functions(database: &mut Database, rows: Vec<Function>) -> (r: Result<(), SnapshotError>)

    ensures
        (final(database)@, err_view(r)) == run_ops(old(database)@, rows@.map_values(|x: Function| functions_row_op(x))),
{
    let ghost ops = rows@.map_values(|x: Function| functions_row_op(x));
    let ghost items = rows@;
    proof {
        assert(ops.take(0) =~= Seq::<spec_fn(DatabaseView) -> Result<DatabaseView, SnapshotErrorView>>::empty());
    }
    for row in it: rows.into_iter()
        invariant
            it.seq() == items,
            ops == items.map_values(|x: Function| functions_row_op(x)),
            ops.len() == items.len(),
            run_ops(old(database)@, ops.take(it.index() as int)) == (database@, None::<SnapshotErrorView>),
    {
        let ghost k = it.index() as int;
        let ghost r = row;
        proof {
            assert(row == items[k]);
            assert(ops.take(k + 1).drop_last() =~= ops.take(k));
            assert(ops.take(k + 1).last() == functions_row_op(r));
        }
        let added = {
            let schema = row.schema.clone();
            let function = snap::Function {
                name: row.name,
                schema_name: row.schema,
                language: row.language,
                returns: row.returns,
                volatility: row.volatility,
                body: row.body,
            };
            database.add_function(schema.as_str(), function)
        };
        if let Err(e) = added {
            proof {
                lemma_run_ops_stops(old(database)@, ops, k + 1);
            }
            return Err(e);
        }
    }
    proof {
        assert(ops.take(ops.len() as int) =~= ops);
    }
    Ok(())
}

/// The change a row makes: adds each index to its schema: an index on an expression has that expression as its only key.
pub open spec fn indexes_row_op(r: Index) -> spec_fn(DatabaseView) -> Result<DatabaseView, SnapshotErrorView> {
    |d: DatabaseView| d.update_schema(r.schema_name@, relation_adder(RelationView::Index(IndexView { schema_name: r.schema_name@, table_name: r.table_name@, name: r.index_name@, unique: r.unique, method: r.method@, key_expressions: index_keys(r) })))
}

/// Adds each index to its schema: an index on an expression has that expression as its only key. The first row refused stops it with its error, and the rows before it stay.
pub fn load_indexes(database: &mut Database, rows: Vec<Index>) -> (r: Result<(), SnapshotError>)

    requires
        forall|i: int| 0 <= i < rows@.len() ==> (#[trigger] rows@[i]).expressions is Some || rows@[i].key_columns is Some,

    ensures
        (final(database)@, err_view(r)) == run_ops(old(database)@, rows@.map_values(|x: Index| indexes_row_op(x))),
{
    let ghost ops = rows@.map_values(|x: Index| indexes_row_op(x));
    let ghost items = rows@;
    proof {
        assert(ops.take(0) =~= Seq::<spec_fn(DatabaseView) -> Result<DatabaseView, SnapshotErrorView>>::empty());
    }
    for row in it: rows.into_iter()
        invariant
            it.seq() == items,
            ops == items.map_values(|x: Index| indexes_row_op(x)),
            ops.len() == items.len(),
            forall|i: int| 0 <= i < items.len() ==> (#[trigger] items[i]).expressions is Some || items[i].key_columns is Some,
            run_ops(old(database)@, ops.take(it.index() as int)) == (database@, None::<SnapshotErrorView>),
    {
        let ghost k = it.index() as int;
        let ghost r = row;
        proof {
            assert(row == items[k]);
            assert(ops.take(k + 1).drop_last() =~= ops.take(k));
            assert(ops.take(k + 1).last() == indexes_row_op(r));
        }
        let added = {
            let key_expressions = match row.expressions {
                Some(expressions) => {
                    let mut keys: Vec<String> = Vec::new();
                    keys.push(expressions);
                    proof {
                        assert(keys.deep_view() =~= seq![row.expressions->Some_0@]);
                    }
                    keys
                },
                None => row.key_columns.unwrap(),
            };
            let schema = row.schema_name.clone();
            let index = snap::Index {
                name: row.index_name,
                schema_name: row.schema_name,
                table_name: row.table_name,
                key_expressions,
                unique: row.unique,
                method: row.method,
            };
            database.add_relation(schema.as_str(), Relation::Index(index))
        };
        if let Err(e) = added {
            proof {
                lemma_run_ops_stops(old(database)@, ops, k + 1);
            }
            return Err(e);
        }
    }
    proof {
        assert(ops.take(ops.len() as int) =~= ops);
    }
    Ok(())
}

/// The last constraint of the table `table` of the schema `schema`, if there is such a
/// table and it has a constraint.
pub open spec fn last_table_constraint(d: DatabaseView, schema: Seq<char>, table: Seq<char>) -> Option<ConstraintView> {
    if !d.has_schema(schema) {
        None
    } else {
        let s = d.schemas[d.schema_index(schema)];
        if !has_name(s.relation_names(), table) {
            None
        } else {
            match s.relations[name_index(s.relation_names(), table)] {
                RelationView::Table(t) => if t.constraints.len() > 0 { Some(t.constraints.last()) } else { None },
                _ => None,
            }
        }
    }
}

/// Adding a constraint to a table leaves it as that table's last constraint.
proof fn lemma_constraint_added_last(d: DatabaseView, schema: Seq<char>, table: Seq<char>, c: ConstraintView, d2: DatabaseView)
    requires
        d.update_schema(schema, table_constraint_adder(table, c)) == Ok::<DatabaseView, SnapshotErrorView>(d2),
    ensures
        last_table_constraint(d2, schema, table) == Some(c),
{
    let si = d.schema_index(schema);
    crate::snapshot::lemma_name_index(d.schema_names(), schema);
    let s = d.schemas[si];
    crate::snapshot::lemma_name_index(s.relation_names(), table);
    let ti = s.relation_index(table);
    let t = s.relations[ti]->Table_0;
    let t2 = t.add_constraint(c)->Ok_0;
    let s2 = SchemaView { relations: s.relations.update(ti, RelationView::Table(t2)), ..s };
    assert(d2.schemas == d.schemas.update(si, s2));
    assert(d2.schema_names() =~= d.schema_names());
    assert(d2.schemas[si] == s2);
    assert(s2.relation_names() =~= s.relation_names());
    assert(d2.has_schema(schema)) by {
        assert(d2.schema_names()[si] == schema);
    }
    assert(has_name(s2.relation_names(), table)) by {
        assert(s2.relation_names()[ti] == table);
    }
}

/// Loading a foreign-key row adds to the table it names, as its last constraint, a
/// foreign key with the row's name, columns, target, deferral, match option, update rule
/// and delete rule.
pub proof fn lemma_foreign_key_row_adds(r: ForeignKey, d: DatabaseView, d2: DatabaseView)
    requires
        (foreign_keys_row_op(r))(d) == Ok::<DatabaseView, SnapshotErrorView>(d2),
    ensures
        last_table_constraint(d2, r.constraint_schema@, r.constraint_table_name@) matches Some(ConstraintView::ForeignKey(fk))
            && fk.schema_name == r.constraint_schema@
            && fk.table_name == r.constraint_table_name@
            && fk.name == r.constraint_name@
            && fk.columns == r.columns.deep_view()
            && fk.target_schema == r.target_table_schema@
            && fk.target_table == r.target_table_name@
            && fk.target_columns == r.target_table_columns.deep_view()
            && fk.deferrable == r.deferrable
            && fk.initially_deferred == r.initially_deferred
            && fk.match_option == r.match_option@
            && fk.update_rule == r.update_rule@
            && fk.delete_rule == r.delete_rule@,
{
    let c = ConstraintView::ForeignKey(ForeignKeyView { schema_name: r.constraint_schema@, table_name: r.constraint_table_name@, name: r.constraint_name@, columns: r.columns.deep_view(), target_schema: r.target_table_schema@, target_table: r.target_table_name@, target_columns: r.target_table_columns.deep_view(), deferrable: r.deferrable, initially_deferred: r.initially_deferred, match_option: r.match_option@, update_rule: r.update_rule@, delete_rule: r.delete_rule@ });
    assert(d.update_schema(r.constraint_schema@, table_constraint_adder(r.constraint_table_name@, c)) == Ok::<DatabaseView, SnapshotErrorView>(d2));
    lemma_constraint_added_last(d, r.constraint_schema@, r.constraint_table_name@, c, d2);
}

/// Loading a primary-key row adds to the table it names, as its last constraint, a
/// primary key with the row's name, columns and deferral.
pub proof fn lemma_primary_key_row_adds(r: PrimaryKey, d: DatabaseView, d2: DatabaseView)
    requires
        (primary_keys_row_op(r))(d) == Ok::<DatabaseView, SnapshotErrorView>(d2),
    ensures
        last_table_constraint(d2, r.schema@, r.table_name@) matches Some(ConstraintView::PrimaryKey(k))
            && k.schema_name == r.schema@
            && k.table_name == r.table_name@
            && k.name == r.name@
            && k.columns == r.table_columns.deep_view()
            && k.deferrable == r.deferrable
            && k.initially_deferred == r.initially_deferred,
{
    let c = ConstraintView::PrimaryKey(KeyView { schema_name: r.schema@, table_name: r.table_name@, name: r.name@, columns: r.table_columns.deep_view(), deferrable: r.deferrable, initially_deferred: r.initially_deferred });
    assert(d.update_schema(r.schema@, table_constraint_adder(r.table_name@, c)) == Ok::<DatabaseView, SnapshotErrorView>(d2));
    lemma_constraint_added_last(d, r.schema@, r.table_name@, c, d2);
}

/// Loading a unique-constraint row adds to the table it names, as its last constraint, a
/// unique constraint with the row's name, columns and deferral.
pub proof fn lemma_unique_row_adds(r: Unique, d: DatabaseView, d2: DatabaseView)
    requires
        (unique_row_op(r))(d) == Ok::<DatabaseView, SnapshotErrorView>(d2),
    ensures
        last_table_constraint(d2, r.schema@, r.table_name@) matches Some(ConstraintView::Unique(k))
            && k.schema_name == r.schema@
            && k.table_name == r.table_name@
            && k.name == r.name@
            && k.columns == r.table_columns.deep_view()
            && k.deferrable == r.deferrable
            && k.initially_deferred == r.initially_deferred,
{
    let c = ConstraintView::Unique(KeyView { schema_name: r.schema@, table_name: r.table_name@, name: r.name@, columns: r.table_columns.deep_view(), deferrable: r.deferrable, initially_deferred: r.initially_deferred });
    assert(d.update_schema(r.schema@, table_constraint_adder(r.table_name@, c)) == Ok::<DatabaseView, SnapshotErrorView>(d2));
    lemma_constraint_added_last(d, r.schema@, r.table_name@, c, d2);
}

/// Loading a check row adds to the table it names, as its last constraint, a check with
/// the row's name, clause and deferral.
pub proof fn lemma_check_row_adds(r: Check, d: DatabaseView, d2: DatabaseView)
    requires
        (checks_row_op(r))(d) == Ok::<DatabaseView, SnapshotErrorView>(d2),
    ensures
        last_table_constraint(d2, r.schema@, r.table@) matches Some(ConstraintView::Check(k))
            && k.schema_name == r.schema@
            && k.table_name == r.table@
            && k.name == r.name@
            && k.expression == r.check_clause@
            && k.deferrable == r.is_deferrable
            && k.initially_deferred == r.initially_deferred,
{
    let c = ConstraintView::Check(CheckView { schema_name: r.schema@, table_name: r.table@, name: r.name@, expression: r.check_clause@, deferrable: r.is_deferrable, initially_deferred: r.initially_deferred });
    assert(d.update_schema(r.schema@, table_constraint_adder(r.table@, c)) == Ok::<DatabaseView, SnapshotErrorView>(d2));
    lemma_constraint_added_last(d, r.schema@, r.table@, c, d2);
}

} // verus!
