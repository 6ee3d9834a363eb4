//! Sequences: `sequence <name>` with its data type `as`, its `increment`, bounds, `start`,
//! `cache`, `cycle` and the column it is `owned by`.
use vstd::prelude::*;
use crate::definition::base::node::{Node, NodeView, ValueView, Number, new_node, nodes_view, lemma_nodes_view,
    lemma_nodes_view_push};
use crate::definition::defaults::{self, sequence_min_value, sequence_max_value, sequence_start,
    min_value_defined, max_value_defined, is_sequence_data_type};
use crate::snapshot::{Sequence, SequenceView};
use crate::text::str_eq;
#[allow(unused_imports)]
use vstd::view::View as ViewTrait;
use super::coerce::{
    coerce_boolean_value, coerce_name, coerce_nodes, coerce_string_value, coerce_integer_value,
    coerce_name_and_string_value, name_outcome, string_outcome, boolean_outcome, integer_outcome,
    name_string_outcome, error_of, collect_errors, last_string, last_boolean, last_integer, last_name_string,
    lemma_take_step, lemma_take_all, lemma_push_last, lemma_last_integer_absent, lemma_last_integer_only,
    lemma_last_boolean_absent, lemma_last_boolean_only, lemma_last_string_absent, lemma_last_string_only,
};
use super::context::Context;
use super::error::{
    Error, ErrorView, errors_view, result_view, unexpected_node, child_nodes_required, has_errors,
    lemma_errors_view_push,
};
use super::function::string_or;

verus! {

pub open spec fn integer_or(o: Option<i64>, default: i64) -> i64 {
    match o {
        Some(i) => i,
        None => default,
    }
}

/// The data type a sequence's children give it.
pub open spec fn sequence_data_type(cs: Seq<NodeView>) -> Seq<char> {
    string_or(last_string(cs, "as"@), "int8"@)
}

/// The increment a sequence's children give it.
pub open spec fn sequence_increment(cs: Seq<NodeView>) -> i64 {
    integer_or(last_integer(cs, "increment"@), 1)
}

/// The least value a sequence's children give it, else that of its increment and type.
pub open spec fn sequence_min(cs: Seq<NodeView>) -> i64 {
    integer_or(last_integer(cs, "minvalue"@), sequence_min_value(sequence_increment(cs), sequence_data_type(cs)))
}

/// The greatest value a sequence's children give it, else that of its increment and type.
pub open spec fn sequence_max(cs: Seq<NodeView>) -> i64 {
    integer_or(last_integer(cs, "maxvalue"@), sequence_max_value(sequence_increment(cs), sequence_data_type(cs)))
}

/// The bounds a sequence leaves out can be computed: where the least or the greatest
/// value is left out, the type and increment determine it.
pub open spec fn sequence_bounds_defined(n: NodeView) -> bool {
    n.name is Some && n.nodes() is Some ==> {
        let cs = n.nodes()->Some_0;
        &&& last_integer(cs, "minvalue"@) is None ==> min_value_defined(sequence_increment(cs), sequence_data_type(cs))
        &&& last_integer(cs, "maxvalue"@) is None ==> max_value_defined(sequence_increment(cs), sequence_data_type(cs))
    }
}

/// The error a child of a sequence gives, if any.
pub open spec fn sequence_child_error(cn: NodeView) -> Option<ErrorView> {
    if cn.typ == "as"@ {
        error_of(string_outcome(cn))
    } else if cn.typ == "increment"@ || cn.typ == "minvalue"@ || cn.typ == "maxvalue"@ || cn.typ == "start"@
        || cn.typ == "cache"@ {
        error_of(integer_outcome(cn))
    } else if cn.typ == "cycle"@ {
        error_of(boolean_outcome(cn))
    } else if cn.typ == "owned by"@ {
        error_of(name_string_outcome(cn))
    } else {
        Some(unexpected_node(cn))
    }
}

pub open spec fn sequence_child_errors() -> spec_fn(NodeView) -> Option<ErrorView> {
    |cn: NodeView| sequence_child_error(cn)
}

/// What a `sequence` node reads as, as a sequence of the given schema.
pub open spec fn parse_sequence(schema_name: Seq<char>, n: NodeView) -> Result<SequenceView, ErrorView> {
    match name_outcome(n) {
        Err(e) => Err(e),
        Ok(name) => match n.nodes() {
            None => Err(child_nodes_required(n)),
            Some(cs) => if collect_errors(cs, sequence_child_errors()).len() > 0 {
                Err(has_errors(n, collect_errors(cs, sequence_child_errors())))
            } else {
                let owned = last_name_string(cs, "owned by"@);
                Ok(SequenceView {
                    schema_name,
                    name,
                    data_type: sequence_data_type(cs),
                    increment: sequence_increment(cs),
                    min_value: sequence_min(cs),
                    max_value: sequence_max(cs),
                    start: integer_or(last_integer(cs, "start"@), sequence_start(sequence_increment(cs), sequence_min(cs), sequence_max(cs))),
                    cache: integer_or(last_integer(cs, "cache"@), 1),
                    cycle: match last_boolean(cs, "cycle"@) { Some(b) => b, None => false },
                    owned_by_table: match owned { Some(o) => Some(o.0), None => None },
                    owned_by_column: match owned { Some(o) => Some(o.1), None => None },
                })
            },
        },
    }
}

pub open spec fn integer_node(typ: Seq<char>, i: i64) -> NodeView {
    new_node(typ).with_value(ValueView::Number(Number::Integer(i)))
}

/// The node a sequence is written as; attributes at their defaults are left out.
pub open spec fn render_sequence(def: SequenceView) -> NodeView {
    let s0 = Seq::<NodeView>::empty();
    let s1 = if def.data_type != "int8"@ { s0.push(new_node("as"@).with_value(ValueView::String(def.data_type))) } else { s0 };
    let s2 = if def.increment != 1 { s1.push(integer_node("increment"@, def.increment)) } else { s1 };
    let s3 = if def.min_value != sequence_min_value(def.increment, def.data_type) {
        s2.push(integer_node("minvalue"@, def.min_value))
    } else {
        s2
    };
    let s4 = if def.max_value != sequence_max_value(def.increment, def.data_type) {
        s3.push(integer_node("maxvalue"@, def.max_value))
    } else {
        s3
    };
    let s5 = if def.start != sequence_start(def.increment, def.min_value, def.max_value) {
        s4.push(integer_node("start"@, def.start))
    } else {
        s4
    };
    let s6 = if def.cache != 1 { s5.push(integer_node("cache"@, def.cache)) } else { s5 };
    let s7 = if def.cycle { s6.push(new_node("cycle"@).with_value(ValueView::Boolean(true))) } else { s6 };
    let s8 = match (def.owned_by_table, def.owned_by_column) {
        (Some(t), Some(c)) => s7.push(new_node("owned by"@).with_name(t).with_value(ValueView::String(c))),
        _ => s7,
    };
    new_node("sequence"@).with_name(def.name).with_nodes(s8)
}

proof fn lemma_sequence_keywords()
    ensures
        "as"@ != "increment"@,
        "as"@ != "minvalue"@,
        "as"@ != "maxvalue"@,
        "as"@ != "start"@,
        "as"@ != "cache"@,
        "as"@ != "cycle"@,
        "as"@ != "owned by"@,
        "increment"@ != "minvalue"@,
        "increment"@ != "maxvalue"@,
        "increment"@ != "start"@,
        "increment"@ != "cache"@,
        "increment"@ != "cycle"@,
        "increment"@ != "owned by"@,
        "minvalue"@ != "maxvalue"@,
        "minvalue"@ != "start"@,
        "minvalue"@ != "cache"@,
        "minvalue"@ != "cycle"@,
        "minvalue"@ != "owned by"@,
        "maxvalue"@ != "start"@,
        "maxvalue"@ != "cache"@,
        "maxvalue"@ != "cycle"@,
        "maxvalue"@ != "owned by"@,
        "start"@ != "cache"@,
        "start"@ != "cycle"@,
        "start"@ != "owned by"@,
        "cache"@ != "cycle"@,
        "cache"@ != "owned by"@,
        "cycle"@ != "owned by"@,
        "int8"@ != "int2"@,
        "int8"@ != "int4"@,
{
    reveal_strlit("as");
    reveal_strlit("increment");
    reveal_strlit("minvalue");
    reveal_strlit("maxvalue");
    reveal_strlit("start");
    reveal_strlit("cache");
    reveal_strlit("cycle");
    reveal_strlit("owned by");
    reveal_strlit("int2");
    reveal_strlit("int4");
    reveal_strlit("int8");
    assert("as"@.len() == 2);
    assert("increment"@.len() == 9);
    assert("minvalue"@.len() == 8);
    assert("maxvalue"@.len() == 8);
    assert("start"@.len() == 5);
    assert("cache"@.len() == 5);
    assert("cycle"@.len() == 5);
    assert("owned by"@.len() == 8);
    assert("minvalue"@[1] != "maxvalue"@[1]);
    assert("minvalue"@[0] != "owned by"@[0]);
    assert("maxvalue"@[0] != "owned by"@[0]);
    assert("start"@[0] != "cache"@[0]);
    assert("start"@[0] != "cycle"@[0]);
    assert("cache"@[1] != "cycle"@[1]);
    assert("int8"@[3] != "int2"@[3]);
    assert("int8"@[3] != "int4"@[3]);
}

/// Tells whether the bounds a sequence node leaves out can be computed.
pub fn sequence_node_bounds_defined(n: &Node) -> (r: bool)
    ensures
        r == sequence_bounds_defined(n@),
{
    if n.name.is_none() {
        return true;
    }
    let child_nodes = match n.get_nodes() {
        Some(ns) => ns,
        None => {
            return true;
        },
    };
    let ghost cs = n@.nodes()->Some_0;
    proof {
        lemma_nodes_view(child_nodes@);
    }
    let mut data_type: Option<String> = None;
    let mut increment: Option<i64> = None;
    let mut min_value: Option<i64> = None;
    let mut max_value: Option<i64> = None;
    for i in 0..child_nodes.len()
        invariant
            cs == nodes_view(child_nodes@),
            cs.len() == child_nodes@.len(),
            forall|j: int| 0 <= j < cs.len() ==> #[trigger] cs[j] == child_nodes@[j]@,
            data_type.deep_view() == last_string(cs.take(i as int), "as"@),
            increment == last_integer(cs.take(i as int), "increment"@),
            min_value == last_integer(cs.take(i as int), "minvalue"@),
            max_value == last_integer(cs.take(i as int), "maxvalue"@),
    {
        let cn = &child_nodes[i];
        proof {
            lemma_take_step(cs, i as int);
            lemma_sequence_keywords();
        }
        if str_eq(cn.typ, "as") {
            if let Ok(v) = coerce_string_value(cn) {
                data_type = Some(v);
            }
        } else if str_eq(cn.typ, "increment") {
            if let Ok(v) = coerce_integer_value(cn) {
                increment = Some(v);
            }
        } else if str_eq(cn.typ, "minvalue") {
            if let Ok(v) = coerce_integer_value(cn) {
                min_value = Some(v);
            }
        } else if str_eq(cn.typ, "maxvalue") {
            if let Ok(v) = coerce_integer_value(cn) {
                max_value = Some(v);
            }
        }
    }
    proof {
        lemma_take_all(cs);
    }
    let inc = match increment {
        Some(v) => v,
        None => 1,
    };
    let integer_type = match &data_type {
        Some(t) => str_eq(t.as_str(), "int2") || str_eq(t.as_str(), "int4") || str_eq(t.as_str(), "int8"),
        None => true,
    };
    proof {
        reveal_strlit("int8");
        lemma_sequence_keywords();
    }
    (min_value.is_some() || inc >= 0 || integer_type) && (max_value.is_some() || inc < 0 || integer_type)
}

pub fn parse_sequence_definition(ctx: &Context, n: &Node) -> (r: Result<Sequence, Error>)
    requires
        n@.typ == "sequence"@,
        sequence_bounds_defined(n@),
    ensures
        result_view(r) == parse_sequence(ctx.schema_name@, n@),
{
    let name = coerce_name(n)?;
    let child_nodes = coerce_nodes(n)?;
    let ghost cs = n@.nodes()->Some_0;
    proof {
        lemma_nodes_view(child_nodes@);
    }
    let mut errors: Vec<Error> = Vec::new();
    let mut data_type: Option<String> = None;
    let mut increment: Option<i64> = None;
    let mut min_value: Option<i64> = None;
    let mut max_value: Option<i64> = None;
    let mut start: Option<i64> = None;
    let mut cache: Option<i64> = None;
    let mut cycle: Option<bool> = None;
    let mut owned_by_table: Option<String> = None;
    let mut owned_by_column: Option<String> = None;

    for i in 0..child_nodes.len()
        invariant
            cs.len() == child_nodes@.len(),
            forall|j: int| 0 <= j < cs.len() ==> #[trigger] cs[j] == child_nodes@[j]@,
            errors_view(errors@) == collect_errors(cs.take(i as int), sequence_child_errors()),
            data_type.deep_view() == last_string(cs.take(i as int), "as"@),
            increment == last_integer(cs.take(i as int), "increment"@),
            min_value == last_integer(cs.take(i as int), "minvalue"@),
            max_value == last_integer(cs.take(i as int), "maxvalue"@),
            start == last_integer(cs.take(i as int), "start"@),
            cache == last_integer(cs.take(i as int), "cache"@),
            cycle == last_boolean(cs.take(i as int), "cycle"@),
            owned_by_table is Some <==> owned_by_column is Some,
            last_name_string(cs.take(i as int), "owned by"@) == match (owned_by_table, owned_by_column) {
                (Some(t), Some(c)) => Some((t@, c@)),
                _ => None::<(Seq<char>, Seq<char>)>,
            },
    {
        let cn = &child_nodes[i];
        proof {
            lemma_take_step(cs, i as int);
            lemma_sequence_keywords();
        }
        let ghost before = errors@;
        if str_eq(cn.typ, "as") {
            match coerce_string_value(cn) {
                Ok(v) => {
                    data_type = Some(v);
                },
                Err(e) => {
                    errors.push(e);
                },
            }
        } else if str_eq(cn.typ, "increment") {
            match coerce_integer_value(cn) {
                Ok(v) => {
                    increment = Some(v);
                },
                Err(e) => {
                    errors.push(e);
                },
            }
        } else if str_eq(cn.typ, "minvalue") {
            match coerce_integer_value(cn) {
                Ok(v) => {
                    min_value = Some(v);
                },
                Err(e) => {
                    errors.push(e);
                },
            }
        } else if str_eq(cn.typ, "maxvalue") {
            match coerce_integer_value(cn) {
                Ok(v) => {
                    max_value = Some(v);
                },
                Err(e) => {
                    errors.push(e);
                },
            }
        } else if str_eq(cn.typ, "start") {
            match coerce_integer_value(cn) {
                Ok(v) => {
                    start = Some(v);
                },
                Err(e) => {
                    errors.push(e);
                },
            }
        } else if str_eq(cn.typ, "cache") {
            match coerce_integer_value(cn) {
                Ok(v) => {
                    cache = Some(v);
                },
                Err(e) => {
                    errors.push(e);
                },
            }
        } else if str_eq(cn.typ, "cycle") {
            match coerce_boolean_value(cn) {
                Ok(v) => {
                    cycle = Some(v);
                },
                Err(e) => {
                    errors.push(e);
                },
            }
        } else if str_eq(cn.typ, "owned by") {
            match coerce_name_and_string_value(cn) {
                Ok((t, c)) => {
                    owned_by_table = Some(t);
                    owned_by_column = Some(c);
                },
                Err(e) => {
                    errors.push(e);
                },
            }
        } else {
            errors.push(Error::new_unexpected_node(cn));
        }
        proof {
            if errors@.len() > before.len() {
                lemma_errors_view_push(before, errors@.last());
                assert(errors@ == before.push(errors@.last()));
            }
        }
    }
    proof {
        lemma_take_all(cs);
    }
    let data_type = match data_type {
        Some(d) => d,
        None => defaults::get_sequence_data_type(),
    };
    let increment = match increment {
        Some(v) => v,
        None => defaults::get_sequence_increment(),
    };
    let min_value = match min_value {
        Some(v) => v,
        None => defaults::get_sequence_min_value(increment, data_type.as_str()),
    };
    let max_value = match max_value {
        Some(v) => v,
        None => defaults::get_sequence_max_value(increment, data_type.as_str()),
    };
    let start = match start {
        Some(v) => v,
        None => defaults::get_sequence_start(increment, min_value, max_value),
    };
    let cache = match cache {
        Some(v) => v,
        None => defaults::get_sequence_cache(),
    };
    let cycle = match cycle {
        Some(v) => v,
        None => defaults::get_sequence_cycle(),
    };
    if errors.len() > 0 {
        return Err(Error::new_has_errors(n, errors));
    }
    Ok(Sequence {
        schema_name: ctx.schema_name.clone(),
        name,
        data_type,
        increment,
        min_value,
        max_value,
        start,
        cache,
        cycle,
        owned_by_table,
        owned_by_column,
    })
}

/// What writing a sequence needs: an integer data type, and an owning column wherever
/// there is an owning table.
pub open spec fn sequence_renderable(def: SequenceView) -> bool {
    &&& is_sequence_data_type(def.data_type)
    &&& def.owned_by_table is Some ==> def.owned_by_column is Some
}

pub fn render_sequence_definition(_ctx: &Context, def: &Sequence) -> (r: Node)
    requires
        sequence_renderable(def@),
    ensures
        r@ == render_sequence(def@),
{
    let mut subnodes: Vec<Node> = Vec::new();
    if !(def.data_type == defaults::get_sequence_data_type()) {
        let subnode = Node::new("as").with_string_value(def.data_type.clone());
        proof {
            lemma_nodes_view_push(subnodes@, subnode);
        }
        subnodes.push(subnode);
    }
    if def.increment != defaults::get_sequence_increment() {
        let subnode = Node::new("increment").with_number_integer_value(def.increment);
        proof {
            lemma_nodes_view_push(subnodes@, subnode);
        }
        subnodes.push(subnode);
    }
    if def.min_value != defaults::get_sequence_min_value(def.increment, def.data_type.as_str()) {
        let subnode = Node::new("minvalue").with_number_integer_value(def.min_value);
        proof {
            lemma_nodes_view_push(subnodes@, subnode);
        }
        subnodes.push(subnode);
    }
    if def.max_value != defaults::get_sequence_max_value(def.increment, def.data_type.as_str()) {
        let subnode = Node::new("maxvalue").with_number_integer_value(def.max_value);
        proof {
            lemma_nodes_view_push(subnodes@, subnode);
        }
        subnodes.push(subnode);
    }
    if def.start != defaults::get_sequence_start(def.increment, def.min_value, def.max_value) {
        let subnode = Node::new("start").with_number_integer_value(def.start);
        proof {
            lemma_nodes_view_push(subnodes@, subnode);
        }
        subnodes.push(subnode);
    }
    if def.cache != defaults::get_sequence_cache() {
        let subnode = Node::new("cache").with_number_integer_value(def.cache);
        proof {
            lemma_nodes_view_push(subnodes@, subnode);
        }
        subnodes.push(subnode);
    }
    if def.cycle != defaults::get_sequence_cycle() {
        let subnode = Node::new("cycle").with_boolean_value(def.cycle);
        proof {
            lemma_nodes_view_push(subnodes@, subnode);
        }
        subnodes.push(subnode);
    }
    if def.owned_by_table.is_some() && def.owned_by_table.is_some() {
        let subnode = Node::new("owned by").with_name(def.owned_by_table.as_ref().unwrap().clone()).with_string_value(
            def.owned_by_column.as_ref().unwrap().clone(),
        );
        proof {
            lemma_nodes_view_push(subnodes@, subnode);
        }
        subnodes.push(subnode);
    }
    Node::new("sequence").with_name(def.name.clone()).with_nodes(subnodes)
}

/// Reading back the node a sequence of an integer type is written as gives the same
/// sequence, provided that it names both an owning table and column or neither.
pub proof fn lemma_sequence_roundtrip(def: SequenceView)
    requires
        is_sequence_data_type(def.data_type),
        def.owned_by_table is Some <==> def.owned_by_column is Some,
    ensures
        sequence_bounds_defined(render_sequence(def)),
        parse_sequence(def.schema_name, render_sequence(def)) == Ok::<SequenceView, ErrorView>(def),
{
    lemma_sequence_keywords();
    let a = new_node("as"@).with_value(ValueView::String(def.data_type));
    let inc = integer_node("increment"@, def.increment);
    let mn = integer_node("minvalue"@, def.min_value);
    let mx = integer_node("maxvalue"@, def.max_value);
    let st = integer_node("start"@, def.start);
    let ca = integer_node("cache"@, def.cache);
    let cy = new_node("cycle"@).with_value(ValueView::Boolean(true));
    let ow = match (def.owned_by_table, def.owned_by_column) {
        (Some(t), Some(c)) => new_node("owned by"@).with_name(t).with_value(ValueView::String(c)),
        _ => cy,
    };
    let s0 = Seq::<NodeView>::empty();
    let s1 = if def.data_type != "int8"@ { s0.push(a) } else { s0 };
    let s2 = if def.increment != 1 { s1.push(inc) } else { s1 };
    let s3 = if def.min_value != sequence_min_value(def.increment, def.data_type) { s2.push(mn) } else { s2 };
    let s4 = if def.max_value != sequence_max_value(def.increment, def.data_type) { s3.push(mx) } else { s3 };
    let s5 = if def.start != sequence_start(def.increment, def.min_value, def.max_value) { s4.push(st) } else { s4 };
    let s6 = if def.cache != 1 { s5.push(ca) } else { s5 };
    let s7 = if def.cycle { s6.push(cy) } else { s6 };
    let s8 = if def.owned_by_table is Some { s7.push(ow) } else { s7 };
    lemma_push_last(s0, a);
    lemma_push_last(s1, inc);
    lemma_push_last(s2, mn);
    lemma_push_last(s3, mx);
    lemma_push_last(s4, st);
    lemma_push_last(s5, ca);
    lemma_push_last(s6, cy);
    lemma_push_last(s7, ow);
    assert(render_sequence(def).nodes() == Some(s8));
    let f = sequence_child_errors();
    assert(collect_errors(s0, f).len() == 0);
    assert(collect_errors(s1, f).len() == 0);
    assert(collect_errors(s2, f).len() == 0);
    assert(collect_errors(s3, f).len() == 0);
    assert(collect_errors(s4, f).len() == 0);
    assert(collect_errors(s5, f).len() == 0);
    assert(collect_errors(s6, f).len() == 0);
    assert(collect_errors(s7, f).len() == 0);
    assert(collect_errors(s8, f).len() == 0);
    // the data type
    assert(last_string(s0, "as"@) is None);
    assert(sequence_data_type(s1) == def.data_type);
    assert(sequence_data_type(s2) == def.data_type);
    assert(sequence_data_type(s3) == def.data_type);
    assert(sequence_data_type(s4) == def.data_type);
    assert(sequence_data_type(s5) == def.data_type);
    assert(sequence_data_type(s6) == def.data_type);
    assert(sequence_data_type(s7) == def.data_type);
    assert(sequence_data_type(s8) == def.data_type);
    // the increment
    assert(last_integer(s0, "increment"@) is None);
    assert(last_integer(s1, "increment"@) is None);
    assert(sequence_increment(s2) == def.increment);
    assert(sequence_increment(s3) == def.increment);
    assert(sequence_increment(s4) == def.increment);
    assert(sequence_increment(s5) == def.increment);
    assert(sequence_increment(s6) == def.increment);
    assert(sequence_increment(s7) == def.increment);
    assert(sequence_increment(s8) == def.increment);
    // the bounds
    assert(last_integer(s0, "minvalue"@) is None);
    assert(last_integer(s1, "minvalue"@) is None);
    assert(last_integer(s2, "minvalue"@) is None);
    assert(sequence_min(s3) == def.min_value);
    assert(sequence_min(s4) == def.min_value);
    assert(sequence_min(s5) == def.min_value);
    assert(sequence_min(s6) == def.min_value);
    assert(sequence_min(s7) == def.min_value);
    assert(sequence_min(s8) == def.min_value);
    assert(last_integer(s0, "maxvalue"@) is None);
    assert(last_integer(s1, "maxvalue"@) is None);
    assert(last_integer(s2, "maxvalue"@) is None);
    assert(last_integer(s3, "maxvalue"@) is None);
    assert(sequence_max(s4) == def.max_value);
    assert(sequence_max(s5) == def.max_value);
    assert(sequence_max(s6) == def.max_value);
    assert(sequence_max(s7) == def.max_value);
    assert(sequence_max(s8) == def.max_value);
    // the start
    let sd = sequence_start(def.increment, def.min_value, def.max_value);
    assert(last_integer(s0, "start"@) is None);
    assert(last_integer(s1, "start"@) is None);
    assert(last_integer(s2, "start"@) is None);
    assert(last_integer(s3, "start"@) is None);
    assert(last_integer(s4, "start"@) is None);
    assert(integer_or(last_integer(s5, "start"@), sd) == def.start);
    assert(integer_or(last_integer(s6, "start"@), sd) == def.start);
    assert(integer_or(last_integer(s7, "start"@), sd) == def.start);
    assert(integer_or(last_integer(s8, "start"@), sd) == def.start);
    // the cache
    assert(last_integer(s0, "cache"@) is None);
    assert(last_integer(s1, "cache"@) is None);
    assert(last_integer(s2, "cache"@) is None);
    assert(last_integer(s3, "cache"@) is None);
    assert(last_integer(s4, "cache"@) is None);
    assert(last_integer(s5, "cache"@) is None);
    assert(integer_or(last_integer(s6, "cache"@), 1) == def.cache);
    assert(integer_or(last_integer(s7, "cache"@), 1) == def.cache);
    assert(integer_or(last_integer(s8, "cache"@), 1) == def.cache);
    // cycling
    let cv = if def.cycle { Some(true) } else { None::<bool> };
    assert(last_boolean(s0, "cycle"@) is None);
    assert(last_boolean(s1, "cycle"@) is None);
    assert(last_boolean(s2, "cycle"@) is None);
    assert(last_boolean(s3, "cycle"@) is None);
    assert(last_boolean(s4, "cycle"@) is None);
    assert(last_boolean(s5, "cycle"@) is None);
    assert(last_boolean(s6, "cycle"@) is None);
    assert(last_boolean(s7, "cycle"@) == cv);
    assert(last_boolean(s8, "cycle"@) == cv);
    // the owner
    assert(last_name_string(s0, "owned by"@) is None);
    assert(last_name_string(s1, "owned by"@) is None);
    assert(last_name_string(s2, "owned by"@) is None);
    assert(last_name_string(s3, "owned by"@) is None);
    assert(last_name_string(s4, "owned by"@) is None);
    assert(last_name_string(s5, "owned by"@) is None);
    assert(last_name_string(s6, "owned by"@) is None);
    assert(last_name_string(s7, "owned by"@) is None);
    if def.owned_by_table is Some {
        assert(name_string_outcome(ow) is Ok);
        assert(last_name_string(s8, "owned by"@) == Some((def.owned_by_table->Some_0, def.owned_by_column->Some_0)));
    }
}

/// Reading a sequence: the one child of each attribute gives that attribute.
pub proof fn lemma_sequence_attribute_given(schema_name: Seq<char>, n: NodeView, sq: SequenceView, k: int)
    requires
        parse_sequence(schema_name, n) == Ok::<SequenceView, ErrorView>(sq),
        n.nodes() is Some,
        0 <= k < n.nodes()->Some_0.len(),
        forall|j: int| 0 <= j < n.nodes()->Some_0.len() && j != k
            ==> (#[trigger] n.nodes()->Some_0[j]).typ != n.nodes()->Some_0[k].typ,
    ensures
        n.nodes()->Some_0[k].typ == "as"@ && n.nodes()->Some_0[k].string() is Some
            ==> sq.data_type == n.nodes()->Some_0[k].string()->Some_0,
        n.nodes()->Some_0[k].typ == "increment"@ && n.nodes()->Some_0[k].integer() is Some
            ==> sq.increment == n.nodes()->Some_0[k].integer()->Some_0,
        n.nodes()->Some_0[k].typ == "minvalue"@ && n.nodes()->Some_0[k].integer() is Some
            ==> sq.min_value == n.nodes()->Some_0[k].integer()->Some_0,
        n.nodes()->Some_0[k].typ == "maxvalue"@ && n.nodes()->Some_0[k].integer() is Some
            ==> sq.max_value == n.nodes()->Some_0[k].integer()->Some_0,
        n.nodes()->Some_0[k].typ == "start"@ && n.nodes()->Some_0[k].integer() is Some
            ==> sq.start == n.nodes()->Some_0[k].integer()->Some_0,
        n.nodes()->Some_0[k].typ == "cache"@ && n.nodes()->Some_0[k].integer() is Some
            ==> sq.cache == n.nodes()->Some_0[k].integer()->Some_0,
        n.nodes()->Some_0[k].typ == "cycle"@ && n.nodes()->Some_0[k].boolean() is Some
            ==> sq.cycle == n.nodes()->Some_0[k].boolean()->Some_0,
{
    let cs = n.nodes()->Some_0;
    lemma_last_string_only(cs, cs[k].typ, k);
    lemma_last_integer_only(cs, cs[k].typ, k);
    lemma_last_boolean_only(cs, cs[k].typ, k);
}

/// Reading a sequence: what no child gives. The type is `int8`, the increment and the
/// cache 1, and it does not cycle. An ascending sequence's least value is 1 and its
/// greatest that of its type; a descending one's greatest value is -1 and its least that
/// of its type. It starts at its least value when it ascends and at its greatest when it
/// descends.
pub proof fn lemma_sequence_attribute_left_out(schema_name: Seq<char>, n: NodeView, sq: SequenceView)
    requires
        parse_sequence(schema_name, n) == Ok::<SequenceView, ErrorView>(sq),
        n.nodes() is Some,
    ensures
        (forall|j: int| 0 <= j < n.nodes()->Some_0.len() ==> (#[trigger] n.nodes()->Some_0[j]).typ != "as"@)
            ==> sq.data_type == "int8"@,
        (forall|j: int| 0 <= j < n.nodes()->Some_0.len() ==> (#[trigger] n.nodes()->Some_0[j]).typ != "increment"@)
            ==> sq.increment == 1,
        (forall|j: int| 0 <= j < n.nodes()->Some_0.len() ==> (#[trigger] n.nodes()->Some_0[j]).typ != "cache"@)
            ==> sq.cache == 1,
        (forall|j: int| 0 <= j < n.nodes()->Some_0.len() ==> (#[trigger] n.nodes()->Some_0[j]).typ != "cycle"@)
            ==> !sq.cycle,
        (forall|j: int| 0 <= j < n.nodes()->Some_0.len() ==> (#[trigger] n.nodes()->Some_0[j]).typ != "minvalue"@)
            ==> sq.min_value == if sq.increment >= 0 {
                1i64
            } else if sq.data_type == "int2"@ {
                -32768i64
            } else if sq.data_type == "int4"@ {
                -2147483648i64
            } else {
                -9223372036854775808i64
            },
        (forall|j: int| 0 <= j < n.nodes()->Some_0.len() ==> (#[trigger] n.nodes()->Some_0[j]).typ != "maxvalue"@)
            ==> sq.max_value == if sq.increment < 0 {
                -1i64
            } else if sq.data_type == "int2"@ {
                32767i64
            } else if sq.data_type == "int4"@ {
                2147483647i64
            } else {
                9223372036854775807i64
            },
        (forall|j: int| 0 <= j < n.nodes()->Some_0.len() ==> (#[trigger] n.nodes()->Some_0[j]).typ != "start"@)
            ==> sq.start == if sq.increment >= 0 { sq.min_value } else { sq.max_value },
{
    let cs = n.nodes()->Some_0;
    if forall|j: int| 0 <= j < cs.len() ==> (#[trigger] cs[j]).typ != "as"@ {
        lemma_last_string_absent(cs, "as"@);
    }
    if forall|j: int| 0 <= j < cs.len() ==> (#[trigger] cs[j]).typ != "increment"@ {
        lemma_last_integer_absent(cs, "increment"@);
    }
    if forall|j: int| 0 <= j < cs.len() ==> (#[trigger] cs[j]).typ != "cache"@ {
        lemma_last_integer_absent(cs, "cache"@);
    }
    if forall|j: int| 0 <= j < cs.len() ==> (#[trigger] cs[j]).typ != "cycle"@ {
        lemma_last_boolean_absent(cs, "cycle"@);
    }
    if forall|j: int| 0 <= j < cs.len() ==> (#[trigger] cs[j]).typ != "minvalue"@ {
        lemma_last_integer_absent(cs, "minvalue"@);
    }
    if forall|j: int| 0 <= j < cs.len() ==> (#[trigger] cs[j]).typ != "maxvalue"@ {
        lemma_last_integer_absent(cs, "maxvalue"@);
    }
    if forall|j: int| 0 <= j < cs.len() ==> (#[trigger] cs[j]).typ != "start"@ {
        lemma_last_integer_absent(cs, "start"@);
    }
}

/// Writing a sequence: each child `start` holds its start, and there is one exactly when
/// the sequence does not start where it would without one: at its least value when it
/// ascends, at its greatest when it descends.
pub proof fn lemma_render_sequence_start(def: SequenceView)
    ensures
        render_sequence(def).nodes() is Some,
        forall|j: int| 0 <= j < render_sequence(def).nodes()->Some_0.len()
            && (#[trigger] render_sequence(def).nodes()->Some_0[j]).typ == "start"@
            ==> render_sequence(def).nodes()->Some_0[j].integer() == Some(def.start),
        (def.start != if def.increment >= 0 { def.min_value } else { def.max_value }) == exists|j: int|
            0 <= j < render_sequence(def).nodes()->Some_0.len()
            && (#[trigger] render_sequence(def).nodes()->Some_0[j]).typ == "start"@,
{
    lemma_sequence_keywords();
    let cs = render_sequence(def).nodes()->Some_0;
    let s0 = Seq::<NodeView>::empty();
    let s1 = if def.data_type != "int8"@ { s0.push(new_node("as"@).with_value(ValueView::String(def.data_type))) } else { s0 };
    let s2 = if def.increment != 1 { s1.push(integer_node("increment"@, def.increment)) } else { s1 };
    let s3 = if def.min_value != sequence_min_value(def.increment, def.data_type) {
        s2.push(integer_node("minvalue"@, def.min_value))
    } else {
        s2
    };
    let s4 = if def.max_value != sequence_max_value(def.increment, def.data_type) {
        s3.push(integer_node("maxvalue"@, def.max_value))
    } else {
        s3
    };
    let s5 = if def.start != sequence_start(def.increment, def.min_value, def.max_value) {
        s4.push(integer_node("start"@, def.start))
    } else {
        s4
    };
    let s6 = if def.cache != 1 { s5.push(integer_node("cache"@, def.cache)) } else { s5 };
    let s7 = if def.cycle { s6.push(new_node("cycle"@).with_value(ValueView::Boolean(true))) } else { s6 };
    let s8 = match (def.owned_by_table, def.owned_by_column) {
        (Some(t), Some(c)) => s7.push(new_node("owned by"@).with_name(t).with_value(ValueView::String(c))),
        _ => s7,
    };
    assert(cs == s8);
    assert(forall|j: int| 0 <= j < s4.len() ==> (#[trigger] s4[j]).typ != "start"@);
    assert(forall|j: int| s5.len() <= j < s8.len() ==> (#[trigger] s8[j]).typ != "start"@);
    assert(forall|j: int| 0 <= j < s5.len() ==> (#[trigger] s8[j]) == s5[j]);
    if def.start != sequence_start(def.increment, def.min_value, def.max_value) {
        assert(s8[s4.len() as int].typ == "start"@);
    }
}

} // verus!
