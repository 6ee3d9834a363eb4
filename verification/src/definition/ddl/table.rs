//! Tables: `table <name>` whose children are its columns and its constraints.
use vstd::prelude::*;
use crate::definition::base::node::{Node, NodeView, new_node, nodes_view, lemma_nodes_view, lemma_nodes_view_push};
use crate::snapshot::{Column, ColumnView, Constraint, ConstraintView, Table, TableView, has_name, distinct_names,
    names_distinct};
use crate::text::str_eq;
#[allow(unused_imports)]
use vstd::view::View as ViewTrait;
use super::coerce::{coerce_name, coerce_nodes, name_outcome, error_of, collect_errors, lemma_take_step, lemma_take_all};
use super::column::{parse_column, render_column, parse_column_definition, render_column_definition,
    column_expression_writable, lemma_column_roundtrip};
use super::constraint::{parse_constraint, render_constraint, constraint_parsable, constraint_node_parsable,
    parse_constraint_definition,
    render_constraint_definition, constraint_writable, constraint_table, lemma_constraint_roundtrip};
use super::context::Context;
use super::error::{
    Error, ErrorView, errors_view, result_view, unexpected_node, child_nodes_required, has_errors,
    lemma_errors_view_push,
};

verus! {

/// The error a child of a table gives, if any: a column or a constraint that cannot be
/// read, or a node of another type.
pub open spec fn table_child_error(schema: Seq<char>, table: Seq<char>, cn: NodeView) -> Option<ErrorView> {
    if cn.typ == "column"@ {
        error_of(parse_column(schema, table, cn))
    } else if cn.typ == "constraint"@ {
        error_of(parse_constraint(schema, table, cn))
    } else {
        Some(unexpected_node(cn))
    }
}

pub open spec fn table_child_errors(schema: Seq<char>, table: Seq<char>) -> spec_fn(NodeView) -> Option<ErrorView> {
    |cn: NodeView| table_child_error(schema, table, cn)
}

/// The columns the children of a table read as, in order.
pub open spec fn table_columns(schema: Seq<char>, table: Seq<char>, cs: Seq<NodeView>) -> Seq<ColumnView>
    decreases cs.len(),
{
    if cs.len() == 0 {
        Seq::empty()
    } else {
        let before = table_columns(schema, table, cs.drop_last());
        if cs.last().typ == "column"@ && parse_column(schema, table, cs.last()) is Ok {
            before.push(parse_column(schema, table, cs.last())->Ok_0)
        } else {
            before
        }
    }
}

/// The constraints the children of a table read as, in order.
pub open spec fn table_constraints(schema: Seq<char>, table: Seq<char>, cs: Seq<NodeView>) -> Seq<ConstraintView>
    decreases cs.len(),
{
    if cs.len() == 0 {
        Seq::empty()
    } else {
        let before = table_constraints(schema, table, cs.drop_last());
        if cs.last().typ == "constraint"@ && parse_constraint(schema, table, cs.last()) is Ok {
            before.push(parse_constraint(schema, table, cs.last())->Ok_0)
        } else {
            before
        }
    }
}

/// What a `table` node reads as, as a table of the given schema: the errors of all its
/// children, or its columns and constraints in the order they are written.
pub open spec fn parse_table(schema: Seq<char>, n: NodeView) -> Result<TableView, ErrorView> {
    match name_outcome(n) {
        Err(e) => Err(e),
        Ok(name) => match n.nodes() {
            None => Err(child_nodes_required(n)),
            Some(cs) => {
                let es = collect_errors(cs, table_child_errors(schema, name));
                if es.len() > 0 {
                    Err(has_errors(n, es))
                } else {
                    Ok(TableView {
                        schema_name: schema,
                        name,
                        columns: table_columns(schema, name, cs),
                        constraints: table_constraints(schema, name, cs),
                    })
                }
            },
        },
    }
}

/// A `table` node that can be read: each `constraint` child tells which kind of constraint
/// it is, and a table that reads without error names no column and no constraint twice.
pub open spec fn table_readable(schema: Seq<char>, n: NodeView) -> bool {
    &&& n.typ == "table"@
    &&& n.nodes() is Some ==> forall|i: int|
        0 <= i < n.nodes()->Some_0.len() && (#[trigger] n.nodes()->Some_0[i]).typ == "constraint"@
            ==> constraint_parsable(n.nodes()->Some_0[i])
    &&& parse_table(schema, n) is Ok ==> parse_table(schema, n)->Ok_0.wf()
}

/// The node a table is written as, seen from the given schema: its columns, then its
/// constraints.
pub open spec fn render_table(schema: Seq<char>, def: TableView) -> NodeView {
    new_node("table"@).with_name(def.name).with_nodes(
        def.columns.map_values(|c: ColumnView| render_column(c)) + def.constraints.map_values(
            |c: ConstraintView| render_constraint(schema, c),
        ),
    )
}

proof fn lemma_table_keywords()
    ensures
        "column"@ != "constraint"@,
{
    reveal_strlit("column");
    reveal_strlit("constraint");
    assert("column"@.len() == 6);
    assert("constraint"@.len() == 10);
}

/// In a list whose names are all different, a name is not among those before it.
proof fn lemma_distinct_take(names: Seq<Seq<char>>, k: int)
    requires
        distinct_names(names),
        0 <= k < names.len(),
    ensures
        !has_name(names.take(k), names[k]),
{
    if has_name(names.take(k), names[k]) {
        let i = choose|i: int| 0 <= i < names.take(k).len() && names.take(k)[i] == names[k];
        assert(names[i] == names[k]);
    }
}

/// The children of a table whose `constraint` nodes tell which kind of constraint they are.
pub open spec fn constraints_parsable(cs: Seq<NodeView>) -> bool {
    forall|i: int| 0 <= i < cs.len() && (#[trigger] cs[i]).typ == "constraint"@ ==> constraint_parsable(cs[i])
}

/// Reads the children of a table: the errors they give, and the columns and constraints
/// they read as, each in order.
fn read_table_children(schema_name: &str, name: &str, child_nodes: &Vec<Node>) -> (r: (Vec<Error>, Vec<Column>, Vec<Constraint>))
    requires
        constraints_parsable(nodes_view(child_nodes@)),
    ensures
        errors_view(r.0@) == collect_errors(nodes_view(child_nodes@), table_child_errors(schema_name@, name@)),
        r.1@.map_values(|c: Column| c@) == table_columns(schema_name@, name@, nodes_view(child_nodes@)),
        r.2@.map_values(|c: Constraint| c@) == table_constraints(schema_name@, name@, nodes_view(child_nodes@)),
{
    let ghost cs = nodes_view(child_nodes@);
    let ghost sp = schema_name@;
    proof {
        lemma_nodes_view(child_nodes@);
    }
    let mut errors: Vec<Error> = Vec::new();
    let mut columns: Vec<Column> = Vec::new();
    let mut constraints: Vec<Constraint> = Vec::new();

    for i in 0..child_nodes.len()
        invariant
            sp == schema_name@,
            cs == nodes_view(child_nodes@),
            constraints_parsable(cs),
            cs.len() == child_nodes@.len(),
            forall|j: int| 0 <= j < cs.len() ==> #[trigger] cs[j] == child_nodes@[j]@,
            errors_view(errors@) == collect_errors(cs.take(i as int), table_child_errors(sp, name@)),
            columns@.map_values(|c: Column| c@) == table_columns(sp, name@, cs.take(i as int)),
            constraints@.map_values(|c: Constraint| c@) == table_constraints(sp, name@, cs.take(i as int)),
    {
        let cn = &child_nodes[i];
        proof {
            lemma_take_step(cs, i as int);
            lemma_table_keywords();
        }
        let ghost before = errors@;
        let ghost cols_before = columns@;
        let ghost cons_before = constraints@;
        if str_eq(cn.typ, "column") {
            match parse_column_definition(schema_name, name, cn) {
                Ok(def) => {
                    columns.push(def);
                    assert(columns@.map_values(|c: Column| c@) =~= cols_before.map_values(|c: Column| c@).push(def@));
                },
                Err(e) => {
                    errors.push(e);
                },
            }
        } else if str_eq(cn.typ, "constraint") {
            assert(cs[i as int].typ == "constraint"@);
            assert(constraint_parsable(cn@));
            match parse_constraint_definition(schema_name, name, cn) {
                Ok(def) => {
                    constraints.push(def);
                    assert(constraints@.map_values(|c: Constraint| c@) =~= cons_before.map_values(|c: Constraint| c@).push(def@));
                },
                Err(e) => {
                    errors.push(e);
                },
            }
        } else {
            errors.push(Error::new_unexpected_node(cn));
        }
        proof {
            if errors@.len() > before.len() {
                lemma_errors_view_push(before, errors@.last());
                assert(errors@ == before.push(errors@.last()));
            }
        }
    }
    proof {
        lemma_take_all(cs);
    }
    (errors, columns, constraints)
}

/// Tells whether a table node can be read: it is a `table` node whose `constraint`
/// children tell which kind of constraint they are, and that, when it reads without
/// error, names no column and no constraint twice.
pub fn table_node_readable(schema_name: &str, n: &Node) -> (r: bool)
    ensures
        r == table_readable(schema_name@, n@),
{
    if !str_eq(n.typ, "table") {
        return false;
    }
    let child_nodes = match n.get_nodes() {
        Some(ns) => ns,
        None => {
            return true;
        },
    };
    let ghost cs = n@.nodes()->Some_0;
    proof {
        lemma_nodes_view(child_nodes@);
    }
    for i in 0..child_nodes.len()
        invariant
            n@.nodes() is Some,
            cs == n@.nodes()->Some_0,
            cs == nodes_view(child_nodes@),
            cs.len() == child_nodes@.len(),
            forall|j: int| 0 <= j < cs.len() ==> #[trigger] cs[j] == child_nodes@[j]@,
            forall|j: int| 0 <= j < i && (#[trigger] cs[j]).typ == "constraint"@ ==> constraint_parsable(cs[j]),
    {
        if str_eq(child_nodes[i].typ, "constraint") && !constraint_node_parsable(&child_nodes[i]) {
            assert(n@.nodes()->Some_0[i as int].typ == "constraint"@ && !constraint_parsable(n@.nodes()->Some_0[i as int]));
            return false;
        }
    }
    let name = match &n.name {
        Some(name) => name,
        None => {
            return true;
        },
    };
    let (errors, columns, constraints) = read_table_children(schema_name, name.as_str(), child_nodes);
    if errors.len() > 0 {
        return true;
    }
    let mut column_names: Vec<String> = Vec::new();
    for i in 0..columns.len()
        invariant
            column_names.deep_view() == columns@.take(i as int).map_values(|c: Column| c@.name),
    {
        let ghost prev = column_names.deep_view();
        let column_name = columns[i].name.clone();
        column_names.push(column_name);
        assert(column_names.deep_view() =~= prev.push(columns@[i as int]@.name));
        assert(columns@.take(i + 1).map_values(|c: Column| c@.name) =~= columns@.take(i as int).map_values(
            |c: Column| c@.name,
        ).push(columns@[i as int]@.name));
    }
    let mut constraint_names: Vec<String> = Vec::new();
    for i in 0..constraints.len()
        invariant
            constraint_names.deep_view() == constraints@.take(i as int).map_values(|c: Constraint| c@.name()),
    {
        let ghost prev = constraint_names.deep_view();
        let constraint_name = constraints[i].name().clone();
        constraint_names.push(constraint_name);
        assert(constraint_names.deep_view() =~= prev.push(constraints@[i as int]@.name()));
        assert(constraints@.take(i + 1).map_values(|c: Constraint| c@.name()) =~= constraints@.take(i as int).map_values(
            |c: Constraint| c@.name(),
        ).push(constraints@[i as int]@.name()));
    }
    proof {
        assert(columns@.take(columns@.len() as int) =~= columns@);
        assert(constraints@.take(constraints@.len() as int) =~= constraints@);
        let t = parse_table(schema_name@, n@)->Ok_0;
        assert(t.column_names() =~= columns@.map_values(|c: Column| c@.name));
        assert(t.constraint_names() =~= constraints@.map_values(|c: Constraint| c@.name()));
    }
    names_distinct(&column_names) && names_distinct(&constraint_names)
}

pub fn parse_table_definition(schema_name: &str, n: &Node) -> (r: Result<Table, Error>)
    requires
        table_readable(schema_name@, n@),
    ensures
        result_view(r) == parse_table(schema_name@, n@),
{
    let name = coerce_name(n)?;
    let child_nodes = coerce_nodes(n)?;
    let ghost cs = n@.nodes()->Some_0;
    let ghost sp = schema_name@;
    proof {
        assert(cs == nodes_view(child_nodes@));
        assert forall|i: int| 0 <= i < cs.len() && (#[trigger] cs[i]).typ == "constraint"@ implies constraint_parsable(cs[i]) by {
            assert(n@.nodes()->Some_0[i] == cs[i]);
        }
    }
    let (errors, columns, constraints) = read_table_children(schema_name, name.as_str(), child_nodes);
    if errors.len() > 0 {
        return Err(Error::new_has_errors(n, errors));
    }
    let ghost cols = table_columns(sp, name@, cs);
    let ghost cons = table_constraints(sp, name@, cs);
    let ghost column_items = columns@;
    let ghost constraint_items = constraints@;
    let mut table = Table::new(schema_name, name.as_str());
    proof {
        assert(cols.take(0) =~= seq![]);
        assert(cons.take(0) =~= seq![]);
    }
    for column in it: columns.into_iter()
        invariant
            it.seq() == column_items,
            column_items.map_values(|c: Column| c@) == cols,
            distinct_names(cols.map_values(|c: ColumnView| c.name)),
            table@ == (TableView { schema_name: sp, name: name@, columns: cols.take(it.index() as int), constraints: seq![] }),
    {
        proof {
            let k = it.index() as int;
            let names = cols.map_values(|c: ColumnView| c.name);
            lemma_distinct_take(names, k);
            assert(cols.take(k).map_values(|c: ColumnView| c.name) =~= names.take(k));
            assert(column@ == cols[k]);
            assert(cols.take(k).push(cols[k]) =~= cols.take(k + 1));
        }
        let added = table.add_column(column);
    }
    proof {
        assert(cols.take(cols.len() as int) =~= cols);
    }
    for constraint in it: constraints.into_iter()
        invariant
            it.seq() == constraint_items,
            constraint_items.map_values(|c: Constraint| c@) == cons,
            distinct_names(cons.map_values(|c: ConstraintView| c.name())),
            table@ == (TableView { schema_name: sp, name: name@, columns: cols, constraints: cons.take(it.index() as int) }),
    {
        proof {
            let k = it.index() as int;
            let names = cons.map_values(|c: ConstraintView| c.name());
            lemma_distinct_take(names, k);
            assert(cons.take(k).map_values(|c: ConstraintView| c.name()) =~= names.take(k));
            assert(constraint@ == cons[k]);
            assert(cons.take(k).push(cons[k]) =~= cons.take(k + 1));
        }
        let added = table.add_constraint(constraint);
    }
    proof {
        assert(cons.take(cons.len() as int) =~= cons);
    }
    Ok(table)
}

pub fn render_table_definition(ctx: &Context, def: &Table) -> (r: Node)
    ensures
        r@ == render_table(ctx.schema_name@, def@),
{
    let ghost sp = ctx.schema_name@;
    let ghost dv = def@;
    let columns = def.iter_columns();
    let constraints = def.iter_constraints();
    let mut subnodes: Vec<Node> = Vec::new();
    for i in 0..columns.len()
        invariant
            columns@.map_values(|c: Column| c@) == dv.columns,
            nodes_view(subnodes@) == dv.columns.take(i as int).map_values(|c: ColumnView| render_column(c)),
    {
        let node = render_column_definition(ctx, &columns[i]);
        proof {
            lemma_nodes_view_push(subnodes@, node);
            assert(columns@[i as int]@ == dv.columns[i as int]);
            assert(dv.columns.take(i + 1).map_values(|c: ColumnView| render_column(c)) =~= dv.columns.take(
                i as int,
            ).map_values(|c: ColumnView| render_column(c)).push(render_column(dv.columns[i as int])));
        }
        subnodes.push(node);
    }
    let ghost column_nodes = dv.columns.map_values(|c: ColumnView| render_column(c));
    proof {
        assert(dv.columns.take(dv.columns.len() as int) =~= dv.columns);
    }
    for i in 0..constraints.len()
        invariant
            sp == ctx.schema_name@,
            constraints@.map_values(|c: Constraint| c@) == dv.constraints,
            nodes_view(subnodes@) == column_nodes + dv.constraints.take(i as int).map_values(
                |c: ConstraintView| render_constraint(sp, c),
            ),
    {
        let node = render_constraint_definition(ctx, &constraints[i]);
        proof {
            lemma_nodes_view_push(subnodes@, node);
            assert(constraints@[i as int]@ == dv.constraints[i as int]);
            assert(column_nodes + dv.constraints.take(i + 1).map_values(|c: ConstraintView| render_constraint(sp, c))
                =~= (column_nodes + dv.constraints.take(i as int).map_values(
                |c: ConstraintView| render_constraint(sp, c),
            )).push(render_constraint(sp, dv.constraints[i as int])));
        }
        subnodes.push(node);
    }
    proof {
        assert(dv.constraints.take(dv.constraints.len() as int) =~= dv.constraints);
    }
    Node::new("table").with_name(def.name().clone()).with_nodes(subnodes)
}

/// What a table needs to be written and read back: no column and no constraint named
/// twice, columns of this table whose expressions can be written, and constraints of this
/// table that can be written.
pub open spec fn table_writable(def: TableView) -> bool {
    &&& def.wf()
    &&& forall|i: int| 0 <= i < def.columns.len() ==> column_fits(def.schema_name, def.name, #[trigger] def.columns[i])
    &&& forall|i: int| 0 <= i < def.constraints.len() ==> constraint_fits(def.schema_name, def.name, #[trigger] def.constraints[i])
}

pub open spec fn column_fits(schema: Seq<char>, table: Seq<char>, c: ColumnView) -> bool {
    &&& c.schema_name == schema
    &&& c.table_name == table
    &&& column_expression_writable(c.data_type, c.default)
}

pub open spec fn constraint_fits(schema: Seq<char>, table: Seq<char>, c: ConstraintView) -> bool {
    &&& constraint_table(c) == (schema, table)
    &&& constraint_writable(c)
}

proof fn lemma_column_nodes(schema: Seq<char>, table: Seq<char>, cols: Seq<ColumnView>)
    requires
        forall|i: int| 0 <= i < cols.len() ==> column_fits(schema, table, #[trigger] cols[i]),
    ensures
        ({
            let ns = cols.map_values(|c: ColumnView| render_column(c));
            &&& collect_errors(ns, table_child_errors(schema, table)).len() == 0
            &&& table_columns(schema, table, ns) == cols
            &&& table_constraints(schema, table, ns) == Seq::<ConstraintView>::empty()
            &&& forall|i: int| 0 <= i < ns.len() ==> (#[trigger] ns[i]).typ == "column"@
        }),
    decreases cols.len(),
{
    let ns = cols.map_values(|c: ColumnView| render_column(c));
    if cols.len() > 0 {
        let rest = cols.drop_last();
        assert(ns.drop_last() =~= rest.map_values(|c: ColumnView| render_column(c)));
        assert(forall|i: int| 0 <= i < rest.len() ==> #[trigger] rest[i] == cols[i]);
        lemma_column_nodes(schema, table, rest);
        lemma_table_keywords();
        let last = cols.last();
        assert(column_fits(schema, table, cols[cols.len() - 1]));
        lemma_column_roundtrip(last);
        assert(ns.last() == render_column(last));
        assert(rest.push(last) =~= cols);
    } else {
        assert(ns =~= Seq::<NodeView>::empty());
    }
}

proof fn lemma_constraint_nodes(schema: Seq<char>, table: Seq<char>, cols: Seq<ColumnView>, prefix: Seq<NodeView>, cons: Seq<ConstraintView>)
    requires
        collect_errors(prefix, table_child_errors(schema, table)).len() == 0,
        table_columns(schema, table, prefix) == cols,
        table_constraints(schema, table, prefix) == Seq::<ConstraintView>::empty(),
        forall|i: int| 0 <= i < prefix.len() ==> (#[trigger] prefix[i]).typ == "column"@,
        forall|i: int| 0 <= i < cons.len() ==> constraint_fits(schema, table, #[trigger] cons[i]),
    ensures
        ({
            let ns = prefix + cons.map_values(|c: ConstraintView| render_constraint(schema, c));
            &&& collect_errors(ns, table_child_errors(schema, table)).len() == 0
            &&& table_columns(schema, table, ns) == cols
            &&& table_constraints(schema, table, ns) == cons
            &&& forall|i: int| 0 <= i < ns.len() && (#[trigger] ns[i]).typ == "constraint"@ ==> constraint_parsable(ns[i])
        }),
    decreases cons.len(),
{
    let ns = prefix + cons.map_values(|c: ConstraintView| render_constraint(schema, c));
    lemma_table_keywords();
    if cons.len() > 0 {
        let rest = cons.drop_last();
        let ms = prefix + rest.map_values(|c: ConstraintView| render_constraint(schema, c));
        assert(ns.drop_last() =~= ms);
        assert(forall|i: int| 0 <= i < rest.len() ==> #[trigger] rest[i] == cons[i]);
        lemma_constraint_nodes(schema, table, cols, prefix, rest);
        let last = cons.last();
        assert(constraint_fits(schema, table, cons[cons.len() - 1]));
        lemma_constraint_roundtrip(last);
        assert(ns.last() == render_constraint(schema, last));
        assert(rest.push(last) =~= cons);
        assert(render_constraint(schema, last).typ == "constraint"@);
        assert forall|i: int| 0 <= i < ns.len() && (#[trigger] ns[i]).typ == "constraint"@ implies constraint_parsable(ns[i]) by {
            if i < ns.len() - 1 {
                assert(ns[i] == ms[i]);
            }
        }
    } else {
        assert(ns =~= prefix);
    }
}

/// Reading back the node a table is written as, from its own schema, gives the same
/// table, provided that the table can be written.
pub proof fn lemma_table_roundtrip(def: TableView)
    requires
        table_writable(def),
    ensures
        table_readable(def.schema_name, render_table(def.schema_name, def)),
        parse_table(def.schema_name, render_table(def.schema_name, def)) == Ok::<TableView, ErrorView>(def),
{
    let s = def.schema_name;
    let t = def.name;
    lemma_column_nodes(s, t, def.columns);
    let prefix = def.columns.map_values(|c: ColumnView| render_column(c));
    lemma_constraint_nodes(s, t, def.columns, prefix, def.constraints);
    let n = render_table(s, def);
    assert(n.nodes()->Some_0 == prefix + def.constraints.map_values(|c: ConstraintView| render_constraint(s, c)));
    assert(parse_table(s, n) == Ok::<TableView, ErrorView>(def));
}

} // verus!
