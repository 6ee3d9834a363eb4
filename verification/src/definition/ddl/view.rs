//! Views: `view <name>` with the query it is defined `as`.
use vstd::prelude::*;
use crate::definition::base::node::{Node, NodeView, ValueView, new_node, lemma_nodes_view, lemma_nodes_view_push};
use crate::snapshot::{View, ViewView};
use crate::text::str_eq;
#[allow(unused_imports)]
use vstd::view::View as ViewTrait;
use super::coerce::{
    coerce_name, coerce_nodes, coerce_string_value, name_outcome, string_outcome, error_of, collect_errors,
    last_string, lemma_take_step, lemma_take_all, lemma_push_last,
};
use super::context::Context;
use super::error::{
    Error, ErrorView, errors_view, result_view, unexpected_node, child_nodes_required, attribute_required,
    has_errors, lemma_errors_view_push,
};

verus! {

/// The error a child of a view gives, if any.
pub open spec fn view_child_error(cn: NodeView) -> Option<ErrorView> {
    if cn.typ == "as"@ {
        error_of(string_outcome(cn))
    } else {
        Some(unexpected_node(cn))
    }
}

pub open spec fn view_child_errors() -> spec_fn(NodeView) -> Option<ErrorView> {
    |cn: NodeView| view_child_error(cn)
}

/// The errors of a view with the given children.
pub open spec fn view_errors(n: NodeView, cs: Seq<NodeView>) -> Seq<ErrorView> {
    let es = collect_errors(cs, view_child_errors());
    if last_string(cs, "as"@) is None {
        es.push(attribute_required(n, "as"@))
    } else {
        es
    }
}

/// What a `view` node reads as, as a view of the given schema.
pub open spec fn parse_view(schema_name: Seq<char>, n: NodeView) -> Result<ViewView, ErrorView> {
    match name_outcome(n) {
        Err(e) => Err(e),
        Ok(name) => match n.nodes() {
            None => Err(child_nodes_required(n)),
            Some(cs) => if view_errors(n, cs).len() > 0 {
                Err(has_errors(n, view_errors(n, cs)))
            } else {
                Ok(ViewView { schema_name, name, query: last_string(cs, "as"@)->Some_0 })
            },
        },
    }
}

/// The node a view is written as; an empty query is left out.
pub open spec fn render_view(def: ViewView) -> NodeView {
    let s0 = Seq::<NodeView>::empty();
    let s1 = if def.query.len() > 0 { s0.push(new_node("as"@).with_value(ValueView::String(def.query))) } else { s0 };
    new_node("view"@).with_name(def.name).with_nodes(s1)
}

pub fn parse_view_definition(ctx: &Context, n: &Node) -> (r: Result<View, Error>)
    requires
        n@.typ == "view"@,
    ensures
        result_view(r) == parse_view(ctx.schema_name@, n@),
{
    let name = coerce_name(n)?;
    let child_nodes = coerce_nodes(n)?;
    let ghost cs = n@.nodes()->Some_0;
    proof {
        lemma_nodes_view(child_nodes@);
    }
    let mut errors: Vec<Error> = Vec::new();
    let mut query: Option<String> = None;

    for i in 0..child_nodes.len()
        invariant
            cs.len() == child_nodes@.len(),
            forall|j: int| 0 <= j < cs.len() ==> #[trigger] cs[j] == child_nodes@[j]@,
            errors_view(errors@) == collect_errors(cs.take(i as int), view_child_errors()),
            query.deep_view() == last_string(cs.take(i as int), "as"@),
    {
        let cn = &child_nodes[i];
        proof {
            lemma_take_step(cs, i as int);
        }
        let ghost before = errors@;
        if str_eq(cn.typ, "as") {
            match coerce_string_value(cn) {
                Ok(v) => {
                    query = Some(v);
                },
                Err(e) => {
                    errors.push(e);
                },
            }
        } else {
            errors.push(Error::new_unexpected_node(cn));
        }
        proof {
            if errors@.len() > before.len() {
                lemma_errors_view_push(before, errors@.last());
                assert(errors@ == before.push(errors@.last()));
            }
        }
    }
    proof {
        lemma_take_all(cs);
    }
    if query.is_none() {
        let ghost before = errors@;
        errors.push(Error::new_attribute_required(n, "as"));
        proof {
            lemma_errors_view_push(before, errors@.last());
        }
    }
    if errors.len() > 0 {
        return Err(Error::new_has_errors(n, errors));
    }
    Ok(View { schema_name: ctx.schema_name.clone(), name, query: query.unwrap() })
}

pub fn render_view_definition(ctx: &Context, def: &View) -> (r: Node)
    requires
        def.schema_name@ == ctx.schema_name@,
    ensures
        r@ == render_view(def@),
{
    let mut node = Node::default();
    node.typ = "view";
    node.name = Some(def.name.clone());
    let mut subnodes: Vec<Node> = Vec::new();
    if !def.query.as_str().is_empty() {
        let subnode = Node::new("as").with_string_value(def.query.clone());
        proof {
            lemma_nodes_view_push(subnodes@, subnode);
        }
        subnodes.push(subnode);
    }
    node.with_nodes(subnodes)
}

/// Reading back the node a view with a query is written as gives the same view.
pub proof fn lemma_view_roundtrip(def: ViewView)
    requires
        def.query.len() > 0,
    ensures
        parse_view(def.schema_name, render_view(def)) == Ok::<ViewView, ErrorView>(def),
{
    reveal_strlit("as");
    let q = new_node("as"@).with_value(ValueView::String(def.query));
    let s0 = Seq::<NodeView>::empty();
    let s1 = s0.push(q);
    lemma_push_last(s0, q);
    assert(collect_errors(s0, view_child_errors()).len() == 0);
    assert(collect_errors(s1, view_child_errors()).len() == 0);
    assert(last_string(s1, "as"@) == Some(def.query));
}

} // verus!
