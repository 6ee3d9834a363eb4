//! Indexes: `index <name>` `on` a table with its key expressions, maybe `unique`, maybe
//! `using` a method.
use vstd::prelude::*;
use crate::definition::base::node::{Node, NodeView, ValueView, new_node, nodes_view, varargs_value, lemma_nodes_view,
    lemma_nodes_view_push, lemma_varargs_roundtrip};
use crate::definition::defaults;
use crate::snapshot::{Index, IndexView};
use crate::text::{str_eq, clone_strings};
#[allow(unused_imports)]
use vstd::view::View as ViewTrait;
use super::coerce::{
    coerce_boolean_value, coerce_name, coerce_nodes, coerce_string_value, coerce_name_and_string_varargs_value,
    name_outcome, last_string, last_boolean, last_name_varargs, name_varargs_outcome, lemma_take_step,
    lemma_take_all, lemma_push_last, lemma_last_boolean_absent, lemma_last_boolean_only, lemma_last_string_absent,
    lemma_last_string_only,
};
use super::context::Context;
use super::error::{Error, ErrorView, result_view, child_nodes_required};
use super::function::string_or;

verus! {

/// An index node with a name and child nodes but no valid `on` child: reading it fails
/// without an error to report.
pub open spec fn index_on_missing(n: NodeView) -> bool {
    &&& n.name is Some
    &&& n.nodes() is Some
    &&& last_name_varargs(n.nodes()->Some_0, "on"@) is None
}

/// What an `index` node reads as, as an index of the given schema. Children it does not
/// know are passed over.
pub open spec fn parse_index(schema_name: Seq<char>, n: NodeView) -> Result<IndexView, ErrorView> {
    match name_outcome(n) {
        Err(e) => Err(e),
        Ok(name) => match n.nodes() {
            None => Err(child_nodes_required(n)),
            Some(cs) => {
                let on = last_name_varargs(cs, "on"@)->Some_0;
                Ok(IndexView {
                    schema_name,
                    table_name: on.0,
                    name,
                    unique: match last_boolean(cs, "unique"@) { Some(b) => b, None => false },
                    method: string_or(last_string(cs, "using"@), "btree"@),
                    key_expressions: on.1,
                })
            },
        },
    }
}

/// The node an index is written as; attributes at their defaults are left out.
pub open spec fn render_index(def: IndexView) -> NodeView {
    let s0 = Seq::<NodeView>::empty();
    let s1 = if def.unique { s0.push(new_node("unique"@).with_value(ValueView::Boolean(true))) } else { s0 };
    let s2 = if def.method != "btree"@ { s1.push(new_node("using"@).with_value(ValueView::String(def.method))) } else { s1 };
    let s3 = s2.push(new_node("on"@).with_name(def.table_name).with_value(varargs_value(def.key_expressions)));
    new_node("index"@).with_name(def.name).with_nodes(s3)
}

proof fn lemma_index_keywords()
    ensures
        "unique"@ != "on"@,
        "unique"@ != "using"@,
        "on"@ != "using"@,
{
    reveal_strlit("unique");
    reveal_strlit("on");
    reveal_strlit("using");
    assert("unique"@.len() == 6);
    assert("on"@.len() == 2);
    assert("using"@.len() == 5);
}

/// Tells whether an index node lacks what it is on.
pub fn index_node_on_missing(n: &Node) -> (r: bool)
    ensures
        r == index_on_missing(n@),
{
    if n.name.is_none() {
        return false;
    }
    let child_nodes = match n.get_nodes() {
        Some(ns) => ns,
        None => {
            return false;
        },
    };
    let ghost cs = n@.nodes()->Some_0;
    proof {
        lemma_nodes_view(child_nodes@);
    }
    let mut found = false;
    for i in 0..child_nodes.len()
        invariant
            cs == nodes_view(child_nodes@),
            cs.len() == child_nodes@.len(),
            forall|j: int| 0 <= j < cs.len() ==> #[trigger] cs[j] == child_nodes@[j]@,
            found == (last_name_varargs(cs.take(i as int), "on"@) is Some),
    {
        let cn = &child_nodes[i];
        proof {
            lemma_take_step(cs, i as int);
        }
        if str_eq(cn.typ, "on") {
            if coerce_name_and_string_varargs_value(cn).is_ok() {
                found = true;
            }
        }
    }
    proof {
        lemma_take_all(cs);
    }
    !found
}

pub fn parse_index_definition(ctx: &Context, n: &Node) -> (r: Result<Index, Error>)
    requires
        n@.typ == "index"@,
        !index_on_missing(n@),
    ensures
        result_view(r) == parse_index(ctx.schema_name@, n@),
{
    let name = coerce_name(n)?;
    let child_nodes = coerce_nodes(n)?;
    let ghost cs = n@.nodes()->Some_0;
    proof {
        lemma_nodes_view(child_nodes@);
    }
    let mut table_name: Option<String> = None;
    let mut unique: Option<bool> = None;
    let mut method: Option<String> = None;
    let mut key_expressions: Option<Vec<String>> = None;

    for i in 0..child_nodes.len()
        invariant
            cs.len() == child_nodes@.len(),
            forall|j: int| 0 <= j < cs.len() ==> #[trigger] cs[j] == child_nodes@[j]@,
            unique == last_boolean(cs.take(i as int), "unique"@),
            method.deep_view() == last_string(cs.take(i as int), "using"@),
            table_name is Some <==> key_expressions is Some,
            last_name_varargs(cs.take(i as int), "on"@) == match (table_name, key_expressions) {
                (Some(t), Some(k)) => Some((t@, k.deep_view())),
                _ => None::<(Seq<char>, Seq<Seq<char>>)>,
            },
    {
        let cn = &child_nodes[i];
        proof {
            lemma_take_step(cs, i as int);
            lemma_index_keywords();
        }
        if str_eq(cn.typ, "unique") {
            if let Ok(v) = coerce_boolean_value(cn) {
                unique = Some(v);
            }
        } else if str_eq(cn.typ, "on") {
            if let Ok((t, v)) = coerce_name_and_string_varargs_value(cn) {
                table_name = Some(t);
                key_expressions = Some(v);
            }
        } else if str_eq(cn.typ, "using") {
            if let Ok(v) = coerce_string_value(cn) {
                method = Some(v);
            }
        }
    }
    proof {
        lemma_take_all(cs);
    }
    if unique.is_none() {
        unique = Some(defaults::get_index_unique());
    }
    if method.is_none() {
        method = Some(defaults::get_default_index_method());
    }
    Ok(Index {
        schema_name: ctx.schema_name.clone(),
        table_name: table_name.unwrap(),
        name,
        unique: unique.unwrap(),
        method: method.unwrap(),
        key_expressions: key_expressions.unwrap(),
    })
}

pub fn render_index_definition(ctx: &Context, def: &Index) -> (r: Node)
    ensures
        r@ == render_index(def@),
{
    let mut subnodes: Vec<Node> = Vec::new();
    if def.unique != defaults::get_index_unique() {
        let subnode = Node::new("unique").with_boolean_value(def.unique);
        proof {
            lemma_nodes_view_push(subnodes@, subnode);
        }
        subnodes.push(subnode);
    }
    if !(def.method == defaults::get_default_index_method()) {
        let subnode = Node::new("using").with_string_value(def.method.clone());
        proof {
            lemma_nodes_view_push(subnodes@, subnode);
        }
        subnodes.push(subnode);
    }
    let on = Node::new("on").with_name(def.table_name.clone()).with_string_varargs_value(clone_strings(&def.key_expressions));
    proof {
        lemma_nodes_view_push(subnodes@, on);
    }
    subnodes.push(on);
    Node::new("index").with_name(def.name.clone()).with_nodes(subnodes)
}

/// Reading back the node an index is written as gives the same index.
pub proof fn lemma_index_roundtrip(def: IndexView)
    ensures
        !index_on_missing(render_index(def)),
        parse_index(def.schema_name, render_index(def)) == Ok::<IndexView, ErrorView>(def),
{
    lemma_index_keywords();
    lemma_varargs_roundtrip(def.key_expressions);
    let u = new_node("unique"@).with_value(ValueView::Boolean(true));
    let m = new_node("using"@).with_value(ValueView::String(def.method));
    let o = new_node("on"@).with_name(def.table_name).with_value(varargs_value(def.key_expressions));
    let s0 = Seq::<NodeView>::empty();
    let s1 = if def.unique { s0.push(u) } else { s0 };
    let s2 = if def.method != "btree"@ { s1.push(m) } else { s1 };
    let s3 = s2.push(o);
    lemma_push_last(s0, u);
    lemma_push_last(s1, m);
    lemma_push_last(s2, o);
    assert(name_varargs_outcome(o) is Ok);
    assert(last_name_varargs(s3, "on"@) == Some((def.table_name, def.key_expressions)));
    assert(last_boolean(s0, "unique"@) is None);
    assert(last_boolean(s1, "unique"@) == (if def.unique { Some(true) } else { None::<bool> }));
    assert(last_boolean(s2, "unique"@) == (if def.unique { Some(true) } else { None::<bool> }));
    assert(last_boolean(s3, "unique"@) == (if def.unique { Some(true) } else { None::<bool> }));
    assert(last_string(s0, "using"@) is None);
    assert(last_string(s1, "using"@) is None);
    assert(string_or(last_string(s2, "using"@), "btree"@) == def.method);
    assert(string_or(last_string(s3, "using"@), "btree"@) == def.method);
}

/// Reading an index: the one child `unique` says whether it is unique, and the one child
/// `using` gives its method.
pub proof fn lemma_index_attribute_given(schema_name: Seq<char>, n: NodeView, ix: IndexView, k: int)
    requires
        parse_index(schema_name, n) == Ok::<IndexView, ErrorView>(ix),
        n.nodes() is Some,
        0 <= k < n.nodes()->Some_0.len(),
        forall|j: int| 0 <= j < n.nodes()->Some_0.len() && j != k
            ==> (#[trigger] n.nodes()->Some_0[j]).typ != n.nodes()->Some_0[k].typ,
    ensures
        n.nodes()->Some_0[k].typ == "unique"@ && n.nodes()->Some_0[k].boolean() is Some
            ==> ix.unique == n.nodes()->Some_0[k].boolean()->Some_0,
        n.nodes()->Some_0[k].typ == "using"@ && n.nodes()->Some_0[k].string() is Some
            ==> ix.method == n.nodes()->Some_0[k].string()->Some_0,
{
    let cs = n.nodes()->Some_0;
    lemma_last_boolean_only(cs, cs[k].typ, k);
    lemma_last_string_only(cs, cs[k].typ, k);
}

/// Reading an index: with no child `unique` it is not unique, and with no child `using`
/// its method is `btree`.
pub proof fn lemma_index_attribute_left_out(schema_name: Seq<char>, n: NodeView, ix: IndexView)
    requires
        parse_index(schema_name, n) == Ok::<IndexView, ErrorView>(ix),
        n.nodes() is Some,
    ensures
        (forall|j: int| 0 <= j < n.nodes()->Some_0.len() ==> (#[trigger] n.nodes()->Some_0[j]).typ != "unique"@)
            ==> !ix.unique,
        (forall|j: int| 0 <= j < n.nodes()->Some_0.len() ==> (#[trigger] n.nodes()->Some_0[j]).typ != "using"@)
            ==> ix.method == "btree"@,
{
    let cs = n.nodes()->Some_0;
    if forall|j: int| 0 <= j < cs.len() ==> (#[trigger] cs[j]).typ != "unique"@ {
        lemma_last_boolean_absent(cs, "unique"@);
    }
    if forall|j: int| 0 <= j < cs.len() ==> (#[trigger] cs[j]).typ != "using"@ {
        lemma_last_string_absent(cs, "using"@);
    }
}

/// Writing an index: each child `unique` holds whether it is unique and each child
/// `using` its method; there is a child `unique` exactly when it is unique, and a child
/// `using` exactly when its method is not `btree`.
pub proof fn lemma_render_index_attributes(def: IndexView)
    ensures
        render_index(def).nodes() is Some,
        forall|j: int| 0 <= j < render_index(def).nodes()->Some_0.len()
            && (#[trigger] render_index(def).nodes()->Some_0[j]).typ == "unique"@
            ==> render_index(def).nodes()->Some_0[j].boolean() == Some(def.unique),
        forall|j: int| 0 <= j < render_index(def).nodes()->Some_0.len()
            && (#[trigger] render_index(def).nodes()->Some_0[j]).typ == "using"@
            ==> render_index(def).nodes()->Some_0[j].string() == Some(def.method),
        def.unique == exists|j: int| 0 <= j < render_index(def).nodes()->Some_0.len()
            && (#[trigger] render_index(def).nodes()->Some_0[j]).typ == "unique"@,
        (def.method != "btree"@) == exists|j: int| 0 <= j < render_index(def).nodes()->Some_0.len()
            && (#[trigger] render_index(def).nodes()->Some_0[j]).typ == "using"@,
{
    lemma_index_keywords();
    let cs = render_index(def).nodes()->Some_0;
    let s0 = Seq::<NodeView>::empty();
    let s1 = if def.unique { s0.push(new_node("unique"@).with_value(ValueView::Boolean(true))) } else { s0 };
    let s2 = if def.method != "btree"@ { s1.push(new_node("using"@).with_value(ValueView::String(def.method))) } else { s1 };
    assert(cs == s2.push(new_node("on"@).with_name(def.table_name).with_value(varargs_value(def.key_expressions))));
    if def.unique {
        assert(cs[0].typ == "unique"@);
    }
    if def.method != "btree"@ {
        assert(cs[s1.len() as int].typ == "using"@);
    }
}

} // verus!
