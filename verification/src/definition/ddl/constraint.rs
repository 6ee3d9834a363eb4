//! Table constraints: a `constraint` node is a primary key, a unique constraint, a foreign
//! key or a check constraint according to the type of its first child.
use vstd::prelude::*;
use crate::definition::base::node::{Node, NodeView, lemma_nodes_view};
use crate::snapshot::{Constraint, ConstraintView};
use crate::text::str_eq;
#[allow(unused_imports)]
use vstd::view::View as ViewTrait;
use super::check::{parse_check, render_check, parse_check_constraint_definition, render_check_constraint_definition,
    lemma_check_roundtrip};
use super::coerce::coerce_nodes;
use super::context::Context;
use super::error::{Error, ErrorView, result_view, child_nodes_required};
use super::foreignkey::{parse_foreign_key, render_foreign_key, parse_foreign_key_constraint_definition,
    render_foreign_key_constraint_definition, lemma_foreign_key_roundtrip, no_dot};
use super::primarykey::{parse_primary_key, render_primary_key, parse_primary_key_definition,
    render_primary_key_definition, lemma_primary_key_roundtrip};
use super::unique::{parse_unique, render_unique, parse_unique_definition, render_unique_definition,
    lemma_unique_roundtrip, lemma_key_keywords};

verus! {

/// A `constraint` node that can be read: a node with child nodes has the type
/// `constraint` and a first child that tells which kind of constraint it is.
pub open spec fn constraint_parsable(n: NodeView) -> bool {
    n.nodes() is Some ==> {
        let cs = n.nodes()->Some_0;
        &&& n.typ == "constraint"@
        &&& cs.len() > 0
        &&& (cs[0].typ == "primary key"@ || cs[0].typ == "unique"@ || cs[0].typ == "foreign key"@
            || cs[0].typ == "check"@)
    }
}

/// What a `constraint` node of the given table reads as.
pub open spec fn parse_constraint(schema_name: Seq<char>, table_name: Seq<char>, n: NodeView) -> Result<ConstraintView, ErrorView> {
    match n.nodes() {
        None => Err(child_nodes_required(n)),
        Some(cs) => {
            let t = cs[0].typ;
            if t == "primary key"@ {
                match parse_primary_key(schema_name, table_name, n) {
                    Ok(c) => Ok(ConstraintView::PrimaryKey(c)),
                    Err(e) => Err(e),
                }
            } else if t == "unique"@ {
                match parse_unique(schema_name, table_name, n) {
                    Ok(c) => Ok(ConstraintView::Unique(c)),
                    Err(e) => Err(e),
                }
            } else if t == "foreign key"@ {
                match parse_foreign_key(schema_name, table_name, n) {
                    Ok(c) => Ok(ConstraintView::ForeignKey(c)),
                    Err(e) => Err(e),
                }
            } else {
                match parse_check(schema_name, table_name, n) {
                    Ok(c) => Ok(ConstraintView::Check(c)),
                    Err(e) => Err(e),
                }
            }
        },
    }
}

/// The node a constraint is written as, seen from the given schema.
pub open spec fn render_constraint(schema: Seq<char>, c: ConstraintView) -> NodeView {
    match c {
        ConstraintView::PrimaryKey(def) => render_primary_key(def),
        ConstraintView::Unique(def) => render_unique(def),
        ConstraintView::ForeignKey(def) => render_foreign_key(schema, def),
        ConstraintView::Check(def) => render_check(def),
    }
}

/// Tells whether a `constraint` node can be read.
pub fn constraint_node_parsable(n: &Node) -> (r: bool)
    ensures
        r == constraint_parsable(n@),
{
    match n.get_nodes() {
        None => true,
        Some(cs) => {
            proof {
                lemma_nodes_view(cs@);
            }
            if !str_eq(n.typ, "constraint") || cs.len() == 0 {
                return false;
            }
            let t = cs[0].typ;
            str_eq(t, "primary key") || str_eq(t, "unique") || str_eq(t, "foreign key") || str_eq(t, "check")
        },
    }
}

pub fn parse_constraint_definition(schema_name: &str, table_name: &str, n: &Node) -> (r: Result<Constraint, Error>)
    requires
        constraint_parsable(n@),
    ensures
        result_view(r) == parse_constraint(schema_name@, table_name@, n@),
{
    let child_nodes = coerce_nodes(n)?;
    proof {
        lemma_nodes_view(child_nodes@);
    }
    let first = &child_nodes[0];
    if str_eq(first.typ, "primary key") {
        let def = parse_primary_key_definition(schema_name, table_name, n)?;
        Ok(Constraint::PrimaryKey(def))
    } else if str_eq(first.typ, "unique") {
        let def = parse_unique_definition(schema_name, table_name, n)?;
        Ok(Constraint::Unique(def))
    } else if str_eq(first.typ, "foreign key") {
        let def = parse_foreign_key_constraint_definition(schema_name, table_name, n)?;
        Ok(Constraint::ForeignKey(def))
    } else {
        let def = parse_check_constraint_definition(schema_name, table_name, n)?;
        Ok(Constraint::Check(def))
    }
}

pub fn render_constraint_definition(ctx: &Context, c: &Constraint) -> (r: Node)
    ensures
        r@ == render_constraint(ctx.schema_name@, c@),
{
    match c {
        Constraint::PrimaryKey(def) => render_primary_key_definition(ctx, def),
        Constraint::Unique(def) => render_unique_definition(ctx, def),
        Constraint::ForeignKey(def) => render_foreign_key_constraint_definition(ctx, def),
        Constraint::Check(def) => render_check_constraint_definition(ctx, def),
    }
}

/// What a constraint needs to be written and read back from the schema of its table: keys
/// list columns, and a foreign key has target columns and names its target without dots.
pub open spec fn constraint_writable(c: ConstraintView) -> bool {
    match c {
        ConstraintView::PrimaryKey(def) => def.columns.len() > 0,
        ConstraintView::Unique(def) => def.columns.len() > 0,
        ConstraintView::ForeignKey(def) => {
            &&& def.target_columns.len() > 0
            &&& no_dot(def.target_table)
            &&& def.target_schema != def.schema_name ==> no_dot(def.target_schema)
        },
        ConstraintView::Check(def) => true,
    }
}

pub open spec fn constraint_table(c: ConstraintView) -> (Seq<char>, Seq<char>) {
    match c {
        ConstraintView::PrimaryKey(def) => (def.schema_name, def.table_name),
        ConstraintView::Unique(def) => (def.schema_name, def.table_name),
        ConstraintView::ForeignKey(def) => (def.schema_name, def.table_name),
        ConstraintView::Check(def) => (def.schema_name, def.table_name),
    }
}

/// Reading back the node a constraint is written as, from the schema of its table, gives
/// the same constraint.
pub proof fn lemma_constraint_roundtrip(c: ConstraintView)
    requires
        constraint_writable(c),
    ensures
        constraint_parsable(render_constraint(constraint_table(c).0, c)),
        parse_constraint(constraint_table(c).0, constraint_table(c).1, render_constraint(constraint_table(c).0, c))
            == Ok::<ConstraintView, ErrorView>(c),
{
    lemma_key_keywords();
    reveal_strlit("primary key");
    reveal_strlit("unique");
    reveal_strlit("foreign key");
    reveal_strlit("check");
    assert("primary key"@.len() == 11);
    assert("unique"@.len() == 6);
    assert("foreign key"@.len() == 11);
    assert("check"@.len() == 5);
    assert("primary key"@[0] != "foreign key"@[0]);
    match c {
        ConstraintView::PrimaryKey(def) => {
            lemma_primary_key_roundtrip(def);
        },
        ConstraintView::Unique(def) => {
            lemma_unique_roundtrip(def);
        },
        ConstraintView::ForeignKey(def) => {
            lemma_foreign_key_roundtrip(def);
        },
        ConstraintView::Check(def) => {
            lemma_check_roundtrip(def);
        },
    }
}

} // verus!
