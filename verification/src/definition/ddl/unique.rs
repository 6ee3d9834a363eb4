//! Unique constraints: `constraint <name>` with the `unique` columns.
use vstd::prelude::*;
use crate::definition::base::node::{Node, NodeView, ValueView, new_node, varargs_value, lemma_nodes_view,
    lemma_nodes_view_push, lemma_varargs_roundtrip};
use crate::definition::defaults;
use crate::snapshot::{Unique, KeyView};
use crate::text::{str_eq, clone_strings};
#[allow(unused_imports)]
use vstd::view::View as ViewTrait;
use super::coerce::{
    coerce_boolean_value, coerce_name, coerce_nodes, coerce_string_varargs_value, name_outcome, varargs_outcome,
    boolean_outcome, error_of, collect_errors, last_varargs, last_boolean, lemma_take_step, lemma_take_all,
    lemma_push_last, lemma_last_boolean_absent, lemma_last_boolean_only,
};
use super::context::Context;
use super::error::{
    Error, ErrorView, errors_view, result_view, unexpected_node, child_nodes_required, attribute_required,
    has_errors, lemma_errors_view_push,
};

verus! {

/// The error a child of a key constraint gives, if any; `key` is the type of the child that
/// lists the columns.
pub open spec fn key_child_error(key: Seq<char>, cn: NodeView) -> Option<ErrorView> {
    if cn.typ == key {
        error_of(varargs_outcome(cn))
    } else if cn.typ == "deferrable"@ || cn.typ == "initially deferred"@ {
        error_of(boolean_outcome(cn))
    } else {
        Some(unexpected_node(cn))
    }
}

pub open spec fn key_child_errors(key: Seq<char>) -> spec_fn(NodeView) -> Option<ErrorView> {
    |cn: NodeView| key_child_error(key, cn)
}

/// The columns a key constraint lists: those of the last valid list, else none.
pub open spec fn key_columns(key: Seq<char>, cs: Seq<NodeView>) -> Seq<Seq<char>> {
    match last_varargs(cs, key) {
        Some(v) => v,
        None => Seq::empty(),
    }
}

/// The errors of a key constraint with the given children.
pub open spec fn key_errors(key: Seq<char>, n: NodeView, cs: Seq<NodeView>) -> Seq<ErrorView> {
    let es = collect_errors(cs, key_child_errors(key));
    if key_columns(key, cs).len() == 0 {
        es.push(attribute_required(n, key))
    } else {
        es
    }
}

/// The name, columns and deferral attributes a `constraint` node reads as, as a key constraint.
pub open spec fn key_parts(key: Seq<char>, n: NodeView) -> Result<(Seq<char>, Seq<Seq<char>>, bool, bool), ErrorView> {
    match name_outcome(n) {
        Err(e) => Err(e),
        Ok(name) => match n.nodes() {
            None => Err(child_nodes_required(n)),
            Some(cs) => if key_errors(key, n, cs).len() > 0 {
                Err(has_errors(n, key_errors(key, n, cs)))
            } else {
                Ok((
                    name,
                    key_columns(key, cs),
                    match last_boolean(cs, "deferrable"@) { Some(b) => b, None => false },
                    match last_boolean(cs, "initially deferred"@) { Some(b) => b, None => false },
                ))
            },
        },
    }
}

/// What a `constraint` node reads as, as a key constraint of the given table.
pub open spec fn parse_key(key: Seq<char>, schema_name: Seq<char>, table_name: Seq<char>, n: NodeView) -> Result<KeyView, ErrorView> {
    match key_parts(key, n) {
        Err(e) => Err(e),
        Ok(p) => Ok(KeyView {
            schema_name,
            table_name,
            name: p.0,
            columns: p.1,
            deferrable: p.2,
            initially_deferred: p.3,
        }),
    }
}

/// The node a key constraint is written as; attributes at their defaults are left out.
pub open spec fn render_key_node(key: Seq<char>, name: Seq<char>, columns: Seq<Seq<char>>, deferrable: bool, initially_deferred: bool) -> NodeView {
    let s1 = seq![new_node(key).with_value(varargs_value(columns))];
    let s2 = if deferrable { s1.push(new_node("deferrable"@).with_value(ValueView::Boolean(true))) } else { s1 };
    let s3 = if initially_deferred {
        s2.push(new_node("initially deferred"@).with_value(ValueView::Boolean(true)))
    } else {
        s2
    };
    new_node("constraint"@).with_name(name).with_nodes(s3)
}

pub open spec fn render_key(key: Seq<char>, def: KeyView) -> NodeView {
    render_key_node(key, def.name, def.columns, def.deferrable, def.initially_deferred)
}

pub open spec fn parse_unique(schema_name: Seq<char>, table_name: Seq<char>, n: NodeView) -> Result<KeyView, ErrorView> {
    parse_key("unique"@, schema_name, table_name, n)
}

pub open spec fn render_unique(def: KeyView) -> NodeView {
    render_key("unique"@, def)
}

/// A key type other than the attribute types of a key constraint.
pub open spec fn is_key_type(key: Seq<char>) -> bool {
    key != "deferrable"@ && key != "initially deferred"@
}

pub proof fn lemma_key_keywords()
    ensures
        is_key_type("unique"@),
        is_key_type("primary key"@),
        "deferrable"@ != "initially deferred"@,
{
    reveal_strlit("unique");
    reveal_strlit("primary key");
    reveal_strlit("deferrable");
    reveal_strlit("initially deferred");
    assert("unique"@.len() == 6);
    assert("primary key"@.len() == 11);
    assert("deferrable"@.len() == 10);
    assert("initially deferred"@.len() == 18);
    assert("primary key"@[0] == 'p');
    assert("deferrable"@[0] == 'd');
}

/// The columns, deferral attributes and name of a key constraint read from its node.
pub struct KeyParts {
    pub name: String,
    pub columns: Vec<String>,
    pub deferrable: bool,
    pub initially_deferred: bool,
}

/// Reads a key constraint node whose columns are listed by children of type `key`.
pub fn parse_key_parts(key: &'static str, n: &Node) -> (r: Result<KeyParts, Error>)
    requires
        is_key_type(key@),
    ensures
        match r {
            Ok(p) => key_parts(key@, n@) == Ok::<(Seq<char>, Seq<Seq<char>>, bool, bool), ErrorView>(
                (p.name@, p.columns.deep_view(), p.deferrable, p.initially_deferred),
            ),
            Err(e) => key_parts(key@, n@) == Err::<(Seq<char>, Seq<Seq<char>>, bool, bool), ErrorView>(e@),
        },
{
    let name = coerce_name(n)?;
    let child_nodes = coerce_nodes(n)?;
    let ghost cs = n@.nodes()->Some_0;
    proof {
        lemma_nodes_view(child_nodes@);
    }
    let mut errors: Vec<Error> = Vec::new();
    let mut columns: Vec<String> = Vec::new();
    let mut deferrable: Option<bool> = None;
    let mut initially_deferred: Option<bool> = None;

    for i in 0..child_nodes.len()
        invariant
            is_key_type(key@),
            cs.len() == child_nodes@.len(),
            forall|j: int| 0 <= j < cs.len() ==> #[trigger] cs[j] == child_nodes@[j]@,
            errors_view(errors@) == collect_errors(cs.take(i as int), key_child_errors(key@)),
            columns.deep_view() == key_columns(key@, cs.take(i as int)),
            deferrable == last_boolean(cs.take(i as int), "deferrable"@),
            initially_deferred == last_boolean(cs.take(i as int), "initially deferred"@),
    {
        let cn = &child_nodes[i];
        proof {
            lemma_take_step(cs, i as int);
            lemma_key_keywords();
        }
        let ghost before = errors@;
        if str_eq(cn.typ, key) {
            match coerce_string_varargs_value(cn) {
                Ok(v) => {
                    columns = v;
                },
                Err(e) => {
                    errors.push(e);
                },
            }
        } else if str_eq(cn.typ, "deferrable") {
            match coerce_boolean_value(cn) {
                Ok(v) => {
                    deferrable = Some(v);
                },
                Err(e) => {
                    errors.push(e);
                },
            }
        } else if str_eq(cn.typ, "initially deferred") {
            match coerce_boolean_value(cn) {
                Ok(v) => {
                    initially_deferred = Some(v);
                },
                Err(e) => {
                    errors.push(e);
                },
            }
        } else {
            errors.push(Error::new_unexpected_node(cn));
        }
        proof {
            if errors@.len() > before.len() {
                lemma_errors_view_push(before, errors@.last());
                assert(errors@ == before.push(errors@.last()));
            }
        }
    }
    proof {
        lemma_take_all(cs);
    }
    if columns.len() == 0 {
        let ghost before = errors@;
        errors.push(Error::new_attribute_required(n, key));
        proof {
            lemma_errors_view_push(before, errors@.last());
        }
    }
    if deferrable.is_none() {
        deferrable = Some(defaults::get_constraint_deferrable());
    }
    if initially_deferred.is_none() {
        initially_deferred = Some(defaults::get_constraint_initially_deferred());
    }
    if errors.len() > 0 {
        return Err(Error::new_has_errors(n, errors));
    }
    Ok(KeyParts { name, columns, deferrable: deferrable.unwrap(), initially_deferred: initially_deferred.unwrap() })
}

/// Writes a key constraint whose columns are listed by a child of type `key`.
pub fn render_key_parts(key: &'static str, name: &String, columns: &Vec<String>, deferrable: bool, initially_deferred: bool) -> (r: Node)
    ensures
        r@ == render_key_node(key@, name@, columns.deep_view(), deferrable, initially_deferred),
{
    let mut subnodes: Vec<Node> = Vec::new();
    let first = Node::new(key).with_string_varargs_value(clone_strings(columns));
    proof {
        lemma_nodes_view_push(subnodes@, first);
    }
    subnodes.push(first);
    if deferrable != defaults::get_constraint_deferrable() {
        let subnode = Node::new("deferrable").with_boolean_value(deferrable);
        proof {
            lemma_nodes_view_push(subnodes@, subnode);
        }
        subnodes.push(subnode);
    }
    if initially_deferred != defaults::get_constraint_initially_deferred() {
        let subnode = Node::new("initially deferred").with_boolean_value(initially_deferred);
        proof {
            lemma_nodes_view_push(subnodes@, subnode);
        }
        subnodes.push(subnode);
    }
    Node::new("constraint").with_name(name.clone()).with_nodes(subnodes)
}

pub fn parse_unique_definition(schema_name: &str, table_name: &str, n: &Node) -> (r: Result<Unique, Error>)
    requires
        n@.typ == "constraint"@,
    ensures
        result_view(r) == parse_unique(schema_name@, table_name@, n@),
{
    proof {
        lemma_key_keywords();
    }
    let parts = parse_key_parts("unique", n)?;
    Ok(Unique {
        schema_name: schema_name.to_owned(),
        table_name: table_name.to_owned(),
        name: parts.name,
        columns: parts.columns,
        deferrable: parts.deferrable,
        initially_deferred: parts.initially_deferred,
    })
}

pub fn render_unique_definition(ctx: &Context, def: &Unique) -> (r: Node)
    ensures
        r@ == render_unique(def@),
{
    render_key_parts("unique", &def.name, &def.columns, def.deferrable, def.initially_deferred)
}

/// Reading back the node a key constraint with columns is written as gives the same constraint.
pub proof fn lemma_key_roundtrip(key: Seq<char>, def: KeyView)
    requires
        is_key_type(key),
        def.columns.len() > 0,
    ensures
        parse_key(key, def.schema_name, def.table_name, render_key(key, def)) == Ok::<KeyView, ErrorView>(def),
{
    lemma_key_keywords();
    lemma_varargs_roundtrip(def.columns);
    let c = new_node(key).with_value(varargs_value(def.columns));
    let d = new_node("deferrable"@).with_value(ValueView::Boolean(true));
    let i = new_node("initially deferred"@).with_value(ValueView::Boolean(true));
    let s0 = Seq::<NodeView>::empty();
    let s1 = s0.push(c);
    let s2 = if def.deferrable { s1.push(d) } else { s1 };
    let s3 = if def.initially_deferred { s2.push(i) } else { s2 };
    lemma_push_last(s0, c);
    lemma_push_last(s1, d);
    lemma_push_last(s2, i);
    let f = key_child_errors(key);
    assert(collect_errors(s0, f).len() == 0);
    assert(collect_errors(s1, f).len() == 0);
    assert(collect_errors(s2, f).len() == 0);
    assert(collect_errors(s3, f).len() == 0);
    assert(last_varargs(s0, key) is None);
    assert(last_varargs(s1, key) == Some(def.columns));
    assert(last_varargs(s2, key) == Some(def.columns));
    assert(last_varargs(s3, key) == Some(def.columns));
    assert(last_boolean(s0, "deferrable"@) is None);
    assert(last_boolean(s0, "initially deferred"@) is None);
    assert(last_boolean(s1, "deferrable"@) is None);
    assert(last_boolean(s1, "initially deferred"@) is None);
    assert(last_boolean(s2, "initially deferred"@) is None);
    assert(last_boolean(s2, "deferrable"@) == (if def.deferrable { Some(true) } else { None::<bool> }));
    assert(last_boolean(s3, "deferrable"@) == (if def.deferrable { Some(true) } else { None::<bool> }));
    assert(last_boolean(s3, "initially deferred"@) == (if def.initially_deferred { Some(true) } else { None::<bool> }));
}

/// Reading back the node a unique constraint with columns is written as gives the same constraint.
pub proof fn lemma_unique_roundtrip(def: KeyView)
    requires
        def.columns.len() > 0,
    ensures
        parse_unique(def.schema_name, def.table_name, render_unique(def)) == Ok::<KeyView, ErrorView>(def),
{
    lemma_key_keywords();
    lemma_key_roundtrip("unique"@, def);
}

/// Reading a key constraint: the one child `deferrable` says whether it is deferrable,
/// and the one child `initially deferred` whether it is initially deferred.
pub proof fn lemma_key_deferral_given(key: Seq<char>, schema_name: Seq<char>, table_name: Seq<char>, n: NodeView, kv: KeyView, k: int)
    requires
        parse_key(key, schema_name, table_name, n) == Ok::<KeyView, ErrorView>(kv),
        n.nodes() is Some,
        0 <= k < n.nodes()->Some_0.len(),
        forall|j: int| 0 <= j < n.nodes()->Some_0.len() && j != k
            ==> (#[trigger] n.nodes()->Some_0[j]).typ != n.nodes()->Some_0[k].typ,
    ensures
        n.nodes()->Some_0[k].typ == "deferrable"@ && n.nodes()->Some_0[k].boolean() is Some
            ==> kv.deferrable == n.nodes()->Some_0[k].boolean()->Some_0,
        n.nodes()->Some_0[k].typ == "initially deferred"@ && n.nodes()->Some_0[k].boolean() is Some
            ==> kv.initially_deferred == n.nodes()->Some_0[k].boolean()->Some_0,
{
    let cs = n.nodes()->Some_0;
    lemma_last_boolean_only(cs, cs[k].typ, k);
}

/// Reading a key constraint: an attribute that no child gives is false.
pub proof fn lemma_key_deferral_left_out(key: Seq<char>, schema_name: Seq<char>, table_name: Seq<char>, n: NodeView, kv: KeyView)
    requires
        parse_key(key, schema_name, table_name, n) == Ok::<KeyView, ErrorView>(kv),
        n.nodes() is Some,
    ensures
        (forall|j: int| 0 <= j < n.nodes()->Some_0.len() ==> (#[trigger] n.nodes()->Some_0[j]).typ != "deferrable"@)
            ==> !kv.deferrable,
        (forall|j: int| 0 <= j < n.nodes()->Some_0.len() ==> (#[trigger] n.nodes()->Some_0[j]).typ != "initially deferred"@)
            ==> !kv.initially_deferred,
{
    let cs = n.nodes()->Some_0;
    if forall|j: int| 0 <= j < cs.len() ==> (#[trigger] cs[j]).typ != "deferrable"@ {
        lemma_last_boolean_absent(cs, "deferrable"@);
    }
    if forall|j: int| 0 <= j < cs.len() ==> (#[trigger] cs[j]).typ != "initially deferred"@ {
        lemma_last_boolean_absent(cs, "initially deferred"@);
    }
}

/// Writing a key constraint: each child `deferrable` holds whether it is deferrable and
/// each child `initially deferred` whether it is initially deferred; there is such a
/// child exactly when the attribute is true.
pub proof fn lemma_render_key_deferral(key: Seq<char>, def: KeyView)
    requires
        is_key_type(key),
    ensures
        render_key(key, def).nodes() is Some,
        forall|j: int| 0 <= j < render_key(key, def).nodes()->Some_0.len()
            && (#[trigger] render_key(key, def).nodes()->Some_0[j]).typ == "deferrable"@
            ==> render_key(key, def).nodes()->Some_0[j].boolean() == Some(def.deferrable),
        forall|j: int| 0 <= j < render_key(key, def).nodes()->Some_0.len()
            && (#[trigger] render_key(key, def).nodes()->Some_0[j]).typ == "initially deferred"@
            ==> render_key(key, def).nodes()->Some_0[j].boolean() == Some(def.initially_deferred),
        def.deferrable == exists|j: int| 0 <= j < render_key(key, def).nodes()->Some_0.len()
            && (#[trigger] render_key(key, def).nodes()->Some_0[j]).typ == "deferrable"@,
        def.initially_deferred == exists|j: int| 0 <= j < render_key(key, def).nodes()->Some_0.len()
            && (#[trigger] render_key(key, def).nodes()->Some_0[j]).typ == "initially deferred"@,
{
    lemma_key_keywords();
    let cs = render_key(key, def).nodes()->Some_0;
    let s1 = seq![new_node(key).with_value(varargs_value(def.columns))];
    let s2 = if def.deferrable { s1.push(new_node("deferrable"@).with_value(ValueView::Boolean(true))) } else { s1 };
    assert(cs == if def.initially_deferred {
        s2.push(new_node("initially deferred"@).with_value(ValueView::Boolean(true)))
    } else {
        s2
    });
    if def.deferrable {
        assert(cs[1].typ == "deferrable"@);
    }
    if def.initially_deferred {
        assert(cs[s2.len() as int].typ == "initially deferred"@);
    }
}

/// Reading a unique constraint: the deferral attributes come from the children of the
/// same name (see `lemma_key_deferral_given` and `lemma_key_deferral_left_out`).
pub proof fn lemma_unique_deferral(schema_name: Seq<char>, table_name: Seq<char>, n: NodeView, kv: KeyView, k: int)
    requires
        parse_unique(schema_name, table_name, n) == Ok::<KeyView, ErrorView>(kv),
        n.nodes() is Some,
        0 <= k < n.nodes()->Some_0.len(),
        forall|j: int| 0 <= j < n.nodes()->Some_0.len() && j != k
            ==> (#[trigger] n.nodes()->Some_0[j]).typ != n.nodes()->Some_0[k].typ,
    ensures
        n.nodes()->Some_0[k].typ == "deferrable"@ && n.nodes()->Some_0[k].boolean() is Some
            ==> kv.deferrable == n.nodes()->Some_0[k].boolean()->Some_0,
        n.nodes()->Some_0[k].typ == "initially deferred"@ && n.nodes()->Some_0[k].boolean() is Some
            ==> kv.initially_deferred == n.nodes()->Some_0[k].boolean()->Some_0,
        (forall|j: int| 0 <= j < n.nodes()->Some_0.len() ==> (#[trigger] n.nodes()->Some_0[j]).typ != "deferrable"@)
            ==> !kv.deferrable,
        (forall|j: int| 0 <= j < n.nodes()->Some_0.len() ==> (#[trigger] n.nodes()->Some_0[j]).typ != "initially deferred"@)
            ==> !kv.initially_deferred,
{
    lemma_key_deferral_given("unique"@, schema_name, table_name, n, kv, k);
    lemma_key_deferral_left_out("unique"@, schema_name, table_name, n, kv);
}

/// Writing a unique constraint: the deferral attributes go under children of the same name.
pub proof fn lemma_render_unique_deferral(def: KeyView)
    ensures
        render_unique(def).nodes() is Some,
        forall|j: int| 0 <= j < render_unique(def).nodes()->Some_0.len()
            && (#[trigger] render_unique(def).nodes()->Some_0[j]).typ == "deferrable"@
            ==> render_unique(def).nodes()->Some_0[j].boolean() == Some(def.deferrable),
        forall|j: int| 0 <= j < render_unique(def).nodes()->Some_0.len()
            && (#[trigger] render_unique(def).nodes()->Some_0[j]).typ == "initially deferred"@
            ==> render_unique(def).nodes()->Some_0[j].boolean() == Some(def.initially_deferred),
        def.deferrable == exists|j: int| 0 <= j < render_unique(def).nodes()->Some_0.len()
            && (#[trigger] render_unique(def).nodes()->Some_0[j]).typ == "deferrable"@,
        def.initially_deferred == exists|j: int| 0 <= j < render_unique(def).nodes()->Some_0.len()
            && (#[trigger] render_unique(def).nodes()->Some_0[j]).typ == "initially deferred"@,
{
    lemma_key_keywords();
    lemma_render_key_deferral("unique"@, def);
}

} // verus!
