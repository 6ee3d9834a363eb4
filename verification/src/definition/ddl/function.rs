//! Functions: `function <name>` with its body `as`, its `language`, what it `returns`
//! and its `volatility`.
use vstd::prelude::*;
use crate::definition::base::node::{Node, NodeView, ValueView, new_node, lemma_nodes_view, lemma_nodes_view_push};
use crate::definition::defaults;
use crate::snapshot::{Function, FunctionView};
use crate::text::str_eq;
#[allow(unused_imports)]
use vstd::view::View as ViewTrait;
use super::coerce::{
    coerce_name, coerce_nodes, coerce_string_value, name_outcome, string_outcome, error_of, collect_errors,
    last_string, lemma_take_step, lemma_take_all, lemma_push_last,
};
use super::context::Context;
use super::error::{
    Error, ErrorView, errors_view, result_view, unexpected_node, child_nodes_required, attribute_required,
    has_errors, lemma_errors_view_push,
};

verus! {

/// The error a child of a function gives, if any.
pub open spec fn function_child_error(cn: NodeView) -> Option<ErrorView> {
    if cn.typ == "as"@ || cn.typ == "language"@ || cn.typ == "returns"@ || cn.typ == "volatility"@ {
        error_of(string_outcome(cn))
    } else {
        Some(unexpected_node(cn))
    }
}

pub open spec fn function_child_errors() -> spec_fn(NodeView) -> Option<ErrorView> {
    |cn: NodeView| function_child_error(cn)
}

/// The errors of a function with the given children.
pub open spec fn function_errors(n: NodeView, cs: Seq<NodeView>) -> Seq<ErrorView> {
    let es = collect_errors(cs, function_child_errors());
    if last_string(cs, "as"@) is None {
        es.push(attribute_required(n, "body"@))
    } else {
        es
    }
}

pub open spec fn string_or(o: Option<Seq<char>>, default: Seq<char>) -> Seq<char> {
    match o {
        Some(s) => s,
        None => default,
    }
}

/// What a `function` node reads as, as a function of the given schema.
pub open spec fn parse_function(schema_name: Seq<char>, n: NodeView) -> Result<FunctionView, ErrorView> {
    match name_outcome(n) {
        Err(e) => Err(e),
        Ok(name) => match n.nodes() {
            None => Err(child_nodes_required(n)),
            Some(cs) => if function_errors(n, cs).len() > 0 {
                Err(has_errors(n, function_errors(n, cs)))
            } else {
                Ok(FunctionView {
                    schema_name,
                    name,
                    body: last_string(cs, "as"@)->Some_0,
                    language: string_or(last_string(cs, "language"@), "SQL"@),
                    returns: string_or(last_string(cs, "returns"@), "void"@),
                    volatility: string_or(last_string(cs, "volatility"@), "VOLATILE"@),
                })
            },
        },
    }
}

/// The node a function is written as; attributes at their defaults are left out.
pub open spec fn render_function(def: FunctionView) -> NodeView {
    let s1 = seq![new_node("as"@).with_value(ValueView::String(def.body))];
    let s2 = if def.language != "SQL"@ {
        s1.push(new_node("language"@).with_value(ValueView::String(def.language)))
    } else {
        s1
    };
    let s3 = if def.returns != "void"@ {
        s2.push(new_node("returns"@).with_value(ValueView::String(def.returns)))
    } else {
        s2
    };
    let s4 = if def.volatility != "VOLATILE"@ {
        s3.push(new_node("volatility"@).with_value(ValueView::String(def.volatility)))
    } else {
        s3
    };
    new_node("function"@).with_name(def.name).with_nodes(s4)
}

proof fn lemma_function_keywords()
    ensures
        "as"@ != "language"@,
        "as"@ != "returns"@,
        "as"@ != "volatility"@,
        "language"@ != "returns"@,
        "language"@ != "volatility"@,
        "returns"@ != "volatility"@,
{
    reveal_strlit("as");
    reveal_strlit("language");
    reveal_strlit("returns");
    reveal_strlit("volatility");
    assert("as"@.len() == 2);
    assert("language"@.len() == 8);
    assert("returns"@.len() == 7);
    assert("volatility"@.len() == 10);
}

pub fn parse_function_definition(ctx: &Context, n: &Node) -> (r: Result<Function, Error>)
    requires
        n@.typ == "function"@,
    ensures
        result_view(r) == parse_function(ctx.schema_name@, n@),
{
    let name = coerce_name(n)?;
    let child_nodes = coerce_nodes(n)?;
    let ghost cs = n@.nodes()->Some_0;
    proof {
        lemma_nodes_view(child_nodes@);
    }
    let mut errors: Vec<Error> = Vec::new();
    let mut body: Option<String> = None;
    let mut language: Option<String> = None;
    let mut return_type: Option<String> = None;
    let mut volatility: Option<String> = None;

    for i in 0..child_nodes.len()
        invariant
            cs.len() == child_nodes@.len(),
            forall|j: int| 0 <= j < cs.len() ==> #[trigger] cs[j] == child_nodes@[j]@,
            errors_view(errors@) == collect_errors(cs.take(i as int), function_child_errors()),
            body.deep_view() == last_string(cs.take(i as int), "as"@),
            language.deep_view() == last_string(cs.take(i as int), "language"@),
            return_type.deep_view() == last_string(cs.take(i as int), "returns"@),
            volatility.deep_view() == last_string(cs.take(i as int), "volatility"@),
    {
        let cn = &child_nodes[i];
        proof {
            lemma_take_step(cs, i as int);
            lemma_function_keywords();
        }
        let ghost before = errors@;
        if str_eq(cn.typ, "as") {
            match coerce_string_value(cn) {
                Ok(v) => {
                    body = Some(v);
                },
                Err(e) => {
                    errors.push(e);
                },
            }
        } else if str_eq(cn.typ, "language") {
            match coerce_string_value(cn) {
                Ok(v) => {
                    language = Some(v);
                },
                Err(e) => {
                    errors.push(e);
                },
            }
        } else if str_eq(cn.typ, "returns") {
            match coerce_string_value(cn) {
                Ok(v) => {
                    return_type = Some(v);
                },
                Err(e) => {
                    errors.push(e);
                },
            }
        } else if str_eq(cn.typ, "volatility") {
            match coerce_string_value(cn) {
                Ok(v) => {
                    volatility = Some(v);
                },
                Err(e) => {
                    errors.push(e);
                },
            }
        } else {
            errors.push(Error::new_unexpected_node(cn));
        }
        proof {
            if errors@.len() > before.len() {
                lemma_errors_view_push(before, errors@.last());
                assert(errors@ == before.push(errors@.last()));
            }
        }
    }
    proof {
        lemma_take_all(cs);
    }
    if body.is_none() {
        let ghost before = errors@;
        errors.push(Error::new_attribute_required(n, "body"));
        proof {
            lemma_errors_view_push(before, errors@.last());
        }
    }
    if language.is_none() {
        language = Some(defaults::get_function_language());
    }
    if return_type.is_none() {
        return_type = Some(defaults::get_function_returns());
    }
    if volatility.is_none() {
        volatility = Some(defaults::get_function_volatility());
    }
    if errors.len() > 0 {
        return Err(Error::new_has_errors(n, errors));
    }
    Ok(Function {
        schema_name: ctx.schema_name.clone(),
        name,
        body: body.unwrap(),
        language: language.unwrap(),
        returns: return_type.unwrap(),
        volatility: volatility.unwrap(),
    })
}

pub fn render_function_definition(_ctx: &Context, def: &Function) -> (r: Node)
    ensures
        r@ == render_function(def@),
{
    let mut subnodes: Vec<Node> = Vec::new();
    let first = Node::new("as").with_string_value(def.body.clone());
    proof {
        lemma_nodes_view_push(subnodes@, first);
    }
    subnodes.push(first);
    if !(def.language == defaults::get_function_language()) {
        let subnode = Node::new("language").with_string_value(def.language.clone());
        proof {
            lemma_nodes_view_push(subnodes@, subnode);
        }
        subnodes.push(subnode);
    }
    if !(def.returns == defaults::get_function_returns()) {
        let subnode = Node::new("returns").with_string_value(def.returns.clone());
        proof {
            lemma_nodes_view_push(subnodes@, subnode);
        }
        subnodes.push(subnode);
    }
    if !(def.volatility == defaults::get_function_volatility()) {
        let subnode = Node::new("volatility").with_string_value(def.volatility.clone());
        proof {
            lemma_nodes_view_push(subnodes@, subnode);
        }
        subnodes.push(subnode);
    }
    Node::new("function").with_name(def.name.clone()).with_nodes(subnodes)
}

/// Reading back the node a function is written as gives the same function.
pub proof fn lemma_function_roundtrip(def: FunctionView)
    ensures
        parse_function(def.schema_name, render_function(def)) == Ok::<FunctionView, ErrorView>(def),
{
    lemma_function_keywords();
    let a = new_node("as"@).with_value(ValueView::String(def.body));
    let l = new_node("language"@).with_value(ValueView::String(def.language));
    let r = new_node("returns"@).with_value(ValueView::String(def.returns));
    let v = new_node("volatility"@).with_value(ValueView::String(def.volatility));
    let s0 = Seq::<NodeView>::empty();
    let s1 = s0.push(a);
    let s2 = if def.language != "SQL"@ { s1.push(l) } else { s1 };
    let s3 = if def.returns != "void"@ { s2.push(r) } else { s2 };
    let s4 = if def.volatility != "VOLATILE"@ { s3.push(v) } else { s3 };
    lemma_push_last(s0, a);
    lemma_push_last(s1, l);
    lemma_push_last(s2, r);
    lemma_push_last(s3, v);
    let f = function_child_errors();
    assert(collect_errors(s0, f).len() == 0);
    assert(collect_errors(s1, f).len() == 0);
    assert(collect_errors(s2, f).len() == 0);
    assert(collect_errors(s3, f).len() == 0);
    assert(collect_errors(s4, f).len() == 0);
    assert(last_string(s0, "as"@) is None);
    assert(last_string(s0, "language"@) is None);
    assert(last_string(s0, "returns"@) is None);
    assert(last_string(s0, "volatility"@) is None);
    assert(last_string(s1, "as"@) == Some(def.body));
    assert(last_string(s1, "language"@) is None);
    assert(last_string(s1, "returns"@) is None);
    assert(last_string(s1, "volatility"@) is None);
    assert(last_string(s2, "as"@) == Some(def.body));
    assert(string_or(last_string(s2, "language"@), "SQL"@) == def.language);
    assert(last_string(s2, "returns"@) is None);
    assert(last_string(s2, "volatility"@) is None);
    assert(last_string(s3, "as"@) == Some(def.body));
    assert(string_or(last_string(s3, "language"@), "SQL"@) == def.language);
    assert(string_or(last_string(s3, "returns"@), "void"@) == def.returns);
    assert(last_string(s3, "volatility"@) is None);
    assert(last_string(s4, "as"@) == Some(def.body));
    assert(string_or(last_string(s4, "language"@), "SQL"@) == def.language);
    assert(string_or(last_string(s4, "returns"@), "void"@) == def.returns);
    assert(string_or(last_string(s4, "volatility"@), "VOLATILE"@) == def.volatility);
}

} // verus!
