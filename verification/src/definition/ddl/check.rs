//! Check constraints: `constraint <name>` with a `check` expression.
use vstd::prelude::*;
use crate::definition::base::node::{Node, NodeView, ValueView, new_node, lemma_nodes_view_push};
use crate::definition::defaults;
use crate::snapshot::{Check, CheckView};
use crate::text::str_eq;
use super::coerce::{lemma_push_last, 
    coerce_boolean_value, coerce_name, coerce_nodes, coerce_string_value, name_outcome, string_outcome,
    boolean_outcome, error_of, collect_errors, last_string, last_boolean, lemma_take_step, lemma_take_all,
};
use super::context::Context;
use super::error::{
    Error, ErrorView, errors_view, result_view, unexpected_node, child_nodes_required, attribute_required,
    has_errors, lemma_errors_view_push,
};

verus! {

/// The error a child of a check constraint gives, if any.
pub open spec fn check_child_error(cn: NodeView) -> Option<ErrorView> {
    if cn.typ == "check"@ {
        error_of(string_outcome(cn))
    } else if cn.typ == "deferrable"@ || cn.typ == "initially deferred"@ {
        error_of(boolean_outcome(cn))
    } else {
        Some(unexpected_node(cn))
    }
}

pub open spec fn check_child_errors() -> spec_fn(NodeView) -> Option<ErrorView> {
    |cn: NodeView| check_child_error(cn)
}

/// The errors of a check constraint with the given children.
pub open spec fn check_errors(n: NodeView, cs: Seq<NodeView>) -> Seq<ErrorView> {
    let es = collect_errors(cs, check_child_errors());
    if last_string(cs, "check"@) is None {
        es.push(attribute_required(n, "expression"@))
    } else {
        es
    }
}

/// What a `constraint` node reads as, as a check constraint of the given table.
pub open spec fn parse_check(schema_name: Seq<char>, table_name: Seq<char>, n: NodeView) -> Result<CheckView, ErrorView> {
    match name_outcome(n) {
        Err(e) => Err(e),
        Ok(name) => match n.nodes() {
            None => Err(child_nodes_required(n)),
            Some(cs) => if check_errors(n, cs).len() > 0 {
                Err(has_errors(n, check_errors(n, cs)))
            } else {
                Ok(CheckView {
                    schema_name,
                    table_name,
                    name,
                    expression: last_string(cs, "check"@)->Some_0,
                    deferrable: match last_boolean(cs, "deferrable"@) { Some(b) => b, None => false },
                    initially_deferred: match last_boolean(cs, "initially deferred"@) { Some(b) => b, None => false },
                })
            },
        },
    }
}

/// The node a check constraint is written as; attributes at their defaults are left out.
pub open spec fn render_check(def: CheckView) -> NodeView {
    let s1 = seq![new_node("check"@).with_value(ValueView::String(def.expression))];
    let s2 = if def.deferrable { s1.push(new_node("deferrable"@).with_value(ValueView::Boolean(true))) } else { s1 };
    let s3 = if def.initially_deferred {
        s2.push(new_node("initially deferred"@).with_value(ValueView::Boolean(true)))
    } else {
        s2
    };
    new_node("constraint"@).with_name(def.name).with_nodes(s3)
}

proof fn lemma_check_keywords()
    ensures
        "check"@ != "deferrable"@,
        "check"@ != "initially deferred"@,
        "deferrable"@ != "initially deferred"@,
{
    reveal_strlit("check");
    reveal_strlit("deferrable");
    reveal_strlit("initially deferred");
    assert("check"@.len() == 5);
    assert("deferrable"@.len() == 10);
    assert("initially deferred"@.len() == 18);
}

pub fn parse_check_constraint_definition(schema_name: &str, table_name: &str, n: &Node) -> (r: Result<Check, Error>)
    requires
        n@.typ == "constraint"@,
    ensures
        result_view(r) == parse_check(schema_name@, table_name@, n@),
{
    let name = coerce_name(n)?;
    let child_nodes = coerce_nodes(n)?;
    let ghost cs = n@.nodes()->Some_0;
    proof {
        crate::definition::base::node::lemma_nodes_view(child_nodes@);
    }
    let mut errors: Vec<Error> = Vec::new();
    let mut expression: Option<String> = None;
    let mut deferrable: Option<bool> = None;
    let mut initially_deferred: Option<bool> = None;

    for i in 0..child_nodes.len()
        invariant
            cs.len() == child_nodes@.len(),
            forall|j: int| 0 <= j < cs.len() ==> #[trigger] cs[j] == child_nodes@[j]@,
            errors_view(errors@) == collect_errors(cs.take(i as int), check_child_errors()),
            expression.deep_view() == last_string(cs.take(i as int), "check"@),
            deferrable == last_boolean(cs.take(i as int), "deferrable"@),
            initially_deferred == last_boolean(cs.take(i as int), "initially deferred"@),
    {
        let cn = &child_nodes[i];
        proof {
            lemma_take_step(cs, i as int);
            lemma_check_keywords();
        }
        let ghost before = errors@;
        if str_eq(cn.typ, "check") {
            match coerce_string_value(cn) {
                Ok(v) => {
                    expression = Some(v);
                },
                Err(e) => {
                    errors.push(e);
                },
            }
        } else if str_eq(cn.typ, "deferrable") {
            match coerce_boolean_value(cn) {
                Ok(v) => {
                    deferrable = Some(v);
                },
                Err(e) => {
                    errors.push(e);
                },
            }
        } else if str_eq(cn.typ, "initially deferred") {
            match coerce_boolean_value(cn) {
                Ok(v) => {
                    initially_deferred = Some(v);
                },
                Err(e) => {
                    errors.push(e);
                },
            }
        } else {
            errors.push(Error::new_unexpected_node(cn));
        }
        proof {
            if errors@.len() > before.len() {
                lemma_errors_view_push(before, errors@.last());
                assert(errors@ == before.push(errors@.last()));
            }
        }
    }
    proof {
        lemma_take_all(cs);
    }
    if expression.is_none() {
        let ghost before = errors@;
        errors.push(Error::new_attribute_required(n, "expression"));
        proof {
            lemma_errors_view_push(before, errors@.last());
        }
    }
    if deferrable.is_none() {
        deferrable = Some(defaults::get_constraint_deferrable());
    }
    if initially_deferred.is_none() {
        initially_deferred = Some(defaults::get_constraint_initially_deferred());
    }
    if errors.len() > 0 {
        return Err(Error::new_has_errors(n, errors));
    }
    Ok(Check {
        schema_name: schema_name.to_owned(),
        table_name: table_name.to_owned(),
        name: name,
        expression: expression.unwrap(),
        deferrable: deferrable.unwrap(),
        initially_deferred: initially_deferred.unwrap(),
    })
}

pub fn render_check_constraint_definition(ctx: &Context, def: &Check) -> (r: Node)
    ensures
        r@ == render_check(def@),
{
    let mut subnodes: Vec<Node> = Vec::new();
    let first = Node::new("check").with_string_value(def.expression.clone());
    proof {
        lemma_nodes_view_push(subnodes@, first);
    }
    subnodes.push(first);
    if def.deferrable != defaults::get_constraint_deferrable() {
        let subnode = Node::new("deferrable").with_boolean_value(def.deferrable);
        proof {
            lemma_nodes_view_push(subnodes@, subnode);
        }
        subnodes.push(subnode);
    }
    if def.initially_deferred != defaults::get_constraint_initially_deferred() {
        let subnode = Node::new("initially deferred").with_boolean_value(def.initially_deferred);
        proof {
            lemma_nodes_view_push(subnodes@, subnode);
        }
        subnodes.push(subnode);
    }
    Node::new("constraint").with_name(def.name.clone()).with_nodes(subnodes)
}

/// Reading back the node a check constraint is written as gives the same constraint.
pub proof fn lemma_check_roundtrip(def: CheckView)
    ensures
        parse_check(def.schema_name, def.table_name, render_check(def)) == Ok::<CheckView, ErrorView>(def),
{
    lemma_check_keywords();
    let c = new_node("check"@).with_value(ValueView::String(def.expression));
    let d = new_node("deferrable"@).with_value(ValueView::Boolean(true));
    let i = new_node("initially deferred"@).with_value(ValueView::Boolean(true));
    let s0 = Seq::<NodeView>::empty();
    let s1 = s0.push(c);
    let s2 = if def.deferrable { s1.push(d) } else { s1 };
    let s3 = if def.initially_deferred { s2.push(i) } else { s2 };
    lemma_push_last(s0, c);
    lemma_push_last(s1, d);
    lemma_push_last(s2, i);
    assert(render_check(def).nodes() == Some(s3));
    let f = check_child_errors();
    assert(collect_errors(s0, f).len() == 0);
    assert(collect_errors(s1, f).len() == 0);
    assert(collect_errors(s2, f).len() == 0);
    assert(collect_errors(s3, f).len() == 0);
    assert(last_string(s1, "check"@) == Some(def.expression));
    assert(last_string(s2, "check"@) == Some(def.expression));
    assert(last_string(s3, "check"@) == Some(def.expression));
    assert(last_boolean(s0, "deferrable"@) is None);
    assert(last_boolean(s0, "initially deferred"@) is None);
    assert(last_boolean(s1, "deferrable"@) is None);
    assert(last_boolean(s1, "initially deferred"@) is None);
    assert(last_boolean(s2, "initially deferred"@) is None);
    assert(last_boolean(s2, "deferrable"@) == (if def.deferrable { Some(true) } else { None::<bool> }));
    assert(last_boolean(s3, "deferrable"@) == (if def.deferrable { Some(true) } else { None::<bool> }));
    assert(last_boolean(s3, "initially deferred"@) == (if def.initially_deferred { Some(true) } else { None::<bool> }));
}

} // verus!
