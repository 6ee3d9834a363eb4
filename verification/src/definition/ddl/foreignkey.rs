//! Foreign keys: `constraint <name>` with the `foreign key` columns and the table and
//! columns it `references`.
use vstd::prelude::*;
use crate::definition::base::node::{Node, NodeView, ValueView, new_node, varargs_value, lemma_nodes_view,
    lemma_nodes_view_push, lemma_varargs_roundtrip};
use crate::definition::defaults;
use crate::snapshot::{ForeignKey, ForeignKeyView};
use crate::text::{str_eq, clone_strings, chars_of, string_of};
#[allow(unused_imports)]
use vstd::view::View as ViewTrait;
use super::coerce::{
    coerce_boolean_value, coerce_name, coerce_nodes, coerce_string_value, coerce_string_varargs_value,
    coerce_name_and_string_varargs_value, name_outcome, string_outcome, boolean_outcome, varargs_outcome,
    name_varargs_outcome, error_of, collect_errors, last_string, last_boolean, last_varargs, lemma_take_step,
    lemma_take_all, lemma_push_last, lemma_last_string_absent, lemma_last_string_only, lemma_last_boolean_absent,
    lemma_last_boolean_only,
};
use super::context::Context;
use super::error::{
    Error, ErrorView, errors_view, result_view, unexpected_node, child_nodes_required, attribute_required,
    has_errors, lemma_errors_view_push,
};
use super::function::string_or;

verus! {

/// `s` has no dot.
pub open spec fn no_dot(s: Seq<char>) -> bool {
    forall|i: int| 0 <= i < s.len() ==> s[i] != '.'
}

/// `s` has two dots or more.
pub open spec fn many_dots(s: Seq<char>) -> bool {
    exists|i: int, j: int| 0 <= i < j < s.len() && s[i] == '.' && s[j] == '.'
}

/// What a table reference reads as: `table` stands in the search path's schema,
/// `schema.table` names both; more dots make it invalid.
pub open spec fn table_reference(search_path: Seq<char>, input: Seq<char>) -> Result<(Seq<char>, Seq<char>), ErrorView> {
    if no_dot(input) {
        Ok((search_path, input))
    } else if many_dots(input) {
        Err(ErrorView::InvalidTableReference { table_reference: input })
    } else {
        let k = choose|k: int| 0 <= k < input.len() && input[k] == '.';
        Ok((input.take(k), input.skip(k + 1)))
    }
}

/// How a table is referred to from the given schema: by its name alone in that schema,
/// else as `schema.table`.
pub open spec fn table_reference_text(schema: Seq<char>, schema_name: Seq<char>, table_name: Seq<char>) -> Seq<char> {
    if schema_name == schema {
        table_name
    } else {
        schema_name + "."@ + table_name
    }
}

pub fn parse_table_reference(search_path: &str, input: &str) -> (r: Result<(String, String), Error>)
    ensures
        match r {
            Ok((a, b)) => table_reference(search_path@, input@) == Ok::<(Seq<char>, Seq<char>), ErrorView>((a@, b@)),
            Err(e) => table_reference(search_path@, input@) == Err::<(Seq<char>, Seq<char>), ErrorView>(e@),
        },
{
    let cs = chars_of(input);
    let mut k: usize = 0;
    while k < cs.len() && cs[k] != '.'
        invariant
            k <= cs@.len(),
            cs@ == input@,
            forall|i: int| 0 <= i < k ==> cs@[i] != '.',
        decreases cs@.len() - k,
    {
        k = k + 1;
    }
    if k == cs.len() {
        return Ok((search_path.to_owned(), input.to_owned()));
    }
    let mut j: usize = k + 1;
    while j < cs.len() && cs[j] != '.'
        invariant
            k < j <= cs@.len(),
            cs@ == input@,
            forall|i: int| k < i < j ==> cs@[i] != '.',
        decreases cs@.len() - j,
    {
        j = j + 1;
    }
    if j < cs.len() {
        assert(cs@[k as int] == '.' && cs@[j as int] == '.');
        return Err(Error::new_invalid_table_reference(input.to_owned()));
    }
    proof {
        assert(!no_dot(input@)) by {
            assert(input@[k as int] == '.');
        }
        assert(!many_dots(input@)) by {
            if many_dots(input@) {
                let (a, b) = choose|a: int, b: int| 0 <= a < b < input@.len() && input@[a] == '.' && input@[b] == '.';
                assert(a >= k);
                assert(b > k);
            }
        }
        let kk = choose|kk: int| 0 <= kk < input@.len() && input@[kk] == '.';
        assert(kk == k);
    }
    Ok((string_of(&cs, 0, k), string_of(&cs, k + 1, cs.len())))
}

pub fn render_table_reference(ctx: &Context, schema_name: &str, table_name: &str) -> (r: String)
    ensures
        r@ == table_reference_text(ctx.schema_name@, schema_name@, table_name@),
{
    if str_eq(schema_name, ctx.schema_name.as_str()) {
        table_name.to_owned()
    } else {
        let mut s = schema_name.to_owned();
        s.append(".");
        s.append(table_name);
        s
    }
}

/// What a `references` child reads as: the target schema, table and columns.
pub open spec fn references_outcome(search_path: Seq<char>, cn: NodeView) -> Result<(Seq<char>, Seq<char>, Seq<Seq<char>>), ErrorView> {
    match name_varargs_outcome(cn) {
        Err(e) => Err(e),
        Ok((name, v)) => match table_reference(search_path, name) {
            Err(e) => Err(e),
            Ok((s, t)) => Ok((s, t, v)),
        },
    }
}

/// The target of the last `references` child that reads without error.
pub open spec fn last_references(cs: Seq<NodeView>, search_path: Seq<char>) -> Option<(Seq<char>, Seq<char>, Seq<Seq<char>>)>
    decreases cs.len(),
{
    if cs.len() == 0 {
        None
    } else if cs.last().typ == "references"@ && references_outcome(search_path, cs.last()) is Ok {
        Some(references_outcome(search_path, cs.last())->Ok_0)
    } else {
        last_references(cs.drop_last(), search_path)
    }
}

/// The error a child of a foreign key gives, if any.
pub open spec fn foreign_key_child_error(search_path: Seq<char>, cn: NodeView) -> Option<ErrorView> {
    if cn.typ == "foreign key"@ {
        error_of(varargs_outcome(cn))
    } else if cn.typ == "references"@ {
        error_of(references_outcome(search_path, cn))
    } else if cn.typ == "deferrable"@ || cn.typ == "initially deferred"@ {
        error_of(boolean_outcome(cn))
    } else if cn.typ == "match"@ || cn.typ == "on update"@ || cn.typ == "on delete"@ {
        error_of(string_outcome(cn))
    } else {
        Some(unexpected_node(cn))
    }
}

pub open spec fn foreign_key_child_errors(search_path: Seq<char>) -> spec_fn(NodeView) -> Option<ErrorView> {
    |cn: NodeView| foreign_key_child_error(search_path, cn)
}

/// The target is given and has columns.
pub open spec fn has_target(r: Option<(Seq<char>, Seq<char>, Seq<Seq<char>>)>) -> bool {
    r is Some && r->Some_0.2.len() > 0
}

/// The errors of a foreign key with the given children.
pub open spec fn foreign_key_errors(search_path: Seq<char>, n: NodeView, cs: Seq<NodeView>) -> Seq<ErrorView> {
    let es = collect_errors(cs, foreign_key_child_errors(search_path));
    let es1 = if last_varargs(cs, "foreign key"@) is None { es.push(attribute_required(n, "columns"@)) } else { es };
    if !has_target(last_references(cs, search_path)) {
        es1.push(attribute_required(n, "references"@))
    } else {
        es1
    }
}

/// What a `constraint` node reads as, as a foreign key of the given table.
pub open spec fn parse_foreign_key(schema_name: Seq<char>, table_name: Seq<char>, n: NodeView) -> Result<ForeignKeyView, ErrorView> {
    match name_outcome(n) {
        Err(e) => Err(e),
        Ok(name) => match n.nodes() {
            None => Err(child_nodes_required(n)),
            Some(cs) => if foreign_key_errors(schema_name, n, cs).len() > 0 {
                Err(has_errors(n, foreign_key_errors(schema_name, n, cs)))
            } else {
                let target = last_references(cs, schema_name)->Some_0;
                Ok(ForeignKeyView {
                    schema_name,
                    table_name,
                    name,
                    columns: last_varargs(cs, "foreign key"@)->Some_0,
                    target_schema: target.0,
                    target_table: target.1,
                    target_columns: target.2,
                    deferrable: match last_boolean(cs, "deferrable"@) { Some(b) => b, None => false },
                    initially_deferred: match last_boolean(cs, "initially deferred"@) { Some(b) => b, None => false },
                    match_option: string_or(last_string(cs, "match"@), "SIMPLE"@),
                    update_rule: string_or(last_string(cs, "on update"@), "NO ACTION"@),
                    delete_rule: string_or(last_string(cs, "on delete"@), "NO ACTION"@),
                })
            },
        },
    }
}

/// The node a foreign key is written as, seen from the given schema; attributes at their
/// defaults are left out.
pub open spec fn render_foreign_key(schema: Seq<char>, def: ForeignKeyView) -> NodeView {
    let s1 = seq![new_node("foreign key"@).with_value(varargs_value(def.columns))];
    let s2 = s1.push(new_node("references"@).with_name(
        table_reference_text(schema, def.target_schema, def.target_table),
    ).with_value(varargs_value(def.target_columns)));
    let s3 = if def.deferrable { s2.push(new_node("deferrable"@).with_value(ValueView::Boolean(true))) } else { s2 };
    let s4 = if def.initially_deferred {
        s3.push(new_node("initially deferred"@).with_value(ValueView::Boolean(true)))
    } else {
        s3
    };
    let s5 = if def.match_option != "SIMPLE"@ {
        s4.push(new_node("match"@).with_value(ValueView::String(def.match_option)))
    } else {
        s4
    };
    let s6 = if def.update_rule != "NO ACTION"@ {
        s5.push(new_node("on update"@).with_value(ValueView::String(def.update_rule)))
    } else {
        s5
    };
    let s7 = if def.delete_rule != "NO ACTION"@ {
        s6.push(new_node("on delete"@).with_value(ValueView::String(def.delete_rule)))
    } else {
        s6
    };
    new_node("constraint"@).with_name(def.name).with_nodes(s7)
}

proof fn lemma_foreign_key_keywords()
    ensures
        "foreign key"@ != "references"@,
        "foreign key"@ != "deferrable"@,
        "foreign key"@ != "initially deferred"@,
        "foreign key"@ != "match"@,
        "foreign key"@ != "on update"@,
        "foreign key"@ != "on delete"@,
        "references"@ != "deferrable"@,
        "references"@ != "initially deferred"@,
        "references"@ != "match"@,
        "references"@ != "on update"@,
        "references"@ != "on delete"@,
        "deferrable"@ != "initially deferred"@,
        "deferrable"@ != "match"@,
        "deferrable"@ != "on update"@,
        "deferrable"@ != "on delete"@,
        "initially deferred"@ != "match"@,
        "initially deferred"@ != "on update"@,
        "initially deferred"@ != "on delete"@,
        "match"@ != "on update"@,
        "match"@ != "on delete"@,
        "on update"@ != "on delete"@,
{
    reveal_strlit("foreign key");
    reveal_strlit("references");
    reveal_strlit("deferrable");
    reveal_strlit("initially deferred");
    reveal_strlit("match");
    reveal_strlit("on update");
    reveal_strlit("on delete");
    assert("foreign key"@.len() == 11);
    assert("references"@.len() == 10);
    assert("deferrable"@.len() == 10);
    assert("initially deferred"@.len() == 18);
    assert("match"@.len() == 5);
    assert("on update"@.len() == 9);
    assert("on delete"@.len() == 9);
    assert("references"@[0] != "deferrable"@[0]);
    assert("on update"@[3] != "on delete"@[3]);
}

pub fn parse_foreign_key_constraint_definition(schema_name: &str, table_name: &str, n: &Node) -> (r: Result<ForeignKey, Error>)
    requires
        n@.typ == "constraint"@,
    ensures
        result_view(r) == parse_foreign_key(schema_name@, table_name@, n@),
{
    let name = coerce_name(n)?;
    let child_nodes = coerce_nodes(n)?;
    let ghost cs = n@.nodes()->Some_0;
    let ghost sp = schema_name@;
    proof {
        lemma_nodes_view(child_nodes@);
    }
    let mut columns: Option<Vec<String>> = None;
    let mut target_schema: Option<String> = None;
    let mut target_table: Option<String> = None;
    let mut target_columns: Vec<String> = Vec::new();
    let mut deferrable: Option<bool> = None;
    let mut initially_deferred: Option<bool> = None;
    let mut match_option: Option<String> = None;
    let mut update_rule: Option<String> = None;
    let mut delete_rule: Option<String> = None;
    let mut errors: Vec<Error> = Vec::new();

    for i in 0..child_nodes.len()
        invariant
            sp == schema_name@,
            cs.len() == child_nodes@.len(),
            forall|j: int| 0 <= j < cs.len() ==> #[trigger] cs[j] == child_nodes@[j]@,
            errors_view(errors@) == collect_errors(cs.take(i as int), foreign_key_child_errors(sp)),
            columns.deep_view() == last_varargs(cs.take(i as int), "foreign key"@),
            target_schema is Some <==> target_table is Some,
            last_references(cs.take(i as int), sp) == match (target_schema, target_table) {
                (Some(s), Some(t)) => Some((s@, t@, target_columns.deep_view())),
                _ => None::<(Seq<char>, Seq<char>, Seq<Seq<char>>)>,
            },
            target_schema is None ==> target_columns@.len() == 0,
            deferrable == last_boolean(cs.take(i as int), "deferrable"@),
            initially_deferred == last_boolean(cs.take(i as int), "initially deferred"@),
            match_option.deep_view() == last_string(cs.take(i as int), "match"@),
            update_rule.deep_view() == last_string(cs.take(i as int), "on update"@),
            delete_rule.deep_view() == last_string(cs.take(i as int), "on delete"@),
    {
        let cn = &child_nodes[i];
        proof {
            lemma_take_step(cs, i as int);
            lemma_foreign_key_keywords();
        }
        let ghost before = errors@;
        if str_eq(cn.typ, "foreign key") {
            match coerce_string_varargs_value(cn) {
                Ok(v) => {
                    columns = Some(v);
                },
                Err(e) => {
                    errors.push(e);
                },
            }
        } else if str_eq(cn.typ, "references") {
            match coerce_name_and_string_varargs_value(cn) {
                Ok((reference_name, v)) => match parse_table_reference(schema_name, reference_name.as_str()) {
                    Ok((s, t)) => {
                        target_schema = Some(s);
                        target_table = Some(t);
                        target_columns = v;
                    },
                    Err(e) => {
                        errors.push(e);
                    },
                },
                Err(e) => {
                    errors.push(e);
                },
            }
        } else if str_eq(cn.typ, "deferrable") {
            match coerce_boolean_value(cn) {
                Ok(v) => {
                    deferrable = Some(v);
                },
                Err(e) => {
                    errors.push(e);
                },
            }
        } else if str_eq(cn.typ, "initially deferred") {
            match coerce_boolean_value(cn) {
                Ok(v) => {
                    initially_deferred = Some(v);
                },
                Err(e) => {
                    errors.push(e);
                },
            }
        } else if str_eq(cn.typ, "match") {
            match coerce_string_value(cn) {
                Ok(v) => {
                    match_option = Some(v);
                },
                Err(e) => {
                    errors.push(e);
                },
            }
        } else if str_eq(cn.typ, "on update") {
            match coerce_string_value(cn) {
                Ok(v) => {
                    update_rule = Some(v);
                },
                Err(e) => {
                    errors.push(e);
                },
            }
        } else if str_eq(cn.typ, "on delete") {
            match coerce_string_value(cn) {
                Ok(v) => {
                    delete_rule = Some(v);
                },
                Err(e) => {
                    errors.push(e);
                },
            }
        } else {
            errors.push(Error::new_unexpected_node(cn));
        }
        proof {
            if errors@.len() > before.len() {
                lemma_errors_view_push(before, errors@.last());
                assert(errors@ == before.push(errors@.last()));
            }
        }
    }
    proof {
        lemma_take_all(cs);
    }
    if columns.is_none() {
        let ghost before = errors@;
        errors.push(Error::new_attribute_required(n, "columns"));
        proof {
            lemma_errors_view_push(before, errors@.last());
        }
    }
    if target_schema.is_none() || target_table.is_none() || target_columns.len() == 0 {
        let ghost before = errors@;
        errors.push(Error::new_attribute_required(n, "references"));
        proof {
            lemma_errors_view_push(before, errors@.last());
        }
    }
    if deferrable.is_none() {
        deferrable = Some(defaults::get_constraint_deferrable());
    }
    if initially_deferred.is_none() {
        initially_deferred = Some(defaults::get_constraint_initially_deferred());
    }
    if match_option.is_none() {
        match_option = Some(defaults::get_foreign_key_match_option());
    }
    if update_rule.is_none() {
        update_rule = Some(defaults::get_foreign_key_update_rule());
    }
    if delete_rule.is_none() {
        delete_rule = Some(defaults::get_foreign_key_delete_rule());
    }
    if errors.len() > 0 {
        return Err(Error::new_has_errors(n, errors));
    }
    Ok(ForeignKey {
        schema_name: schema_name.to_owned(),
        table_name: table_name.to_owned(),
        name,
        columns: columns.unwrap(),
        target_schema: target_schema.unwrap(),
        target_table: target_table.unwrap(),
        target_columns,
        deferrable: deferrable.unwrap(),
        initially_deferred: initially_deferred.unwrap(),
        match_option: match_option.unwrap(),
        update_rule: update_rule.unwrap(),
        delete_rule: delete_rule.unwrap(),
    })
}

pub fn render_foreign_key_constraint_definition(ctx: &Context, def: &ForeignKey) -> (r: Node)
    ensures
        r@ == render_foreign_key(ctx.schema_name@, def@),
{
    let mut subnodes: Vec<Node> = Vec::new();
    let first = Node::new("foreign key").with_string_varargs_value(clone_strings(&def.columns));
    proof {
        lemma_nodes_view_push(subnodes@, first);
    }
    subnodes.push(first);
    let second = Node::new("references").with_name(
        render_table_reference(ctx, def.target_schema.as_str(), def.target_table.as_str()),
    ).with_string_varargs_value(clone_strings(&def.target_columns));
    proof {
        lemma_nodes_view_push(subnodes@, second);
    }
    subnodes.push(second);
    if def.deferrable != defaults::get_constraint_deferrable() {
        let subnode = Node::new("deferrable").with_boolean_value(def.deferrable);
        proof {
            lemma_nodes_view_push(subnodes@, subnode);
        }
        subnodes.push(subnode);
    }
    if def.initially_deferred != defaults::get_constraint_initially_deferred() {
        let subnode = Node::new("initially deferred").with_boolean_value(def.initially_deferred);
        proof {
            lemma_nodes_view_push(subnodes@, subnode);
        }
        subnodes.push(subnode);
    }
    if !(def.match_option == defaults::get_foreign_key_match_option()) {
        let subnode = Node::new("match").with_string_value(def.match_option.clone());
        proof {
            lemma_nodes_view_push(subnodes@, subnode);
        }
        subnodes.push(subnode);
    }
    if !(def.update_rule == defaults::get_foreign_key_update_rule()) {
        let subnode = Node::new("on update").with_string_value(def.update_rule.clone());
        proof {
            lemma_nodes_view_push(subnodes@, subnode);
        }
        subnodes.push(subnode);
    }
    if !(def.delete_rule == defaults::get_foreign_key_delete_rule()) {
        let subnode = Node::new("on delete").with_string_value(def.delete_rule.clone());
        proof {
            lemma_nodes_view_push(subnodes@, subnode);
        }
        subnodes.push(subnode);
    }
    Node::new("constraint").with_name(def.name.clone()).with_nodes(subnodes)
}

/// Referring to a table from the schema that holds the reference, and reading the
/// reference back from there, gives the same schema and table, provided that the names
/// the reference is written with have no dot.
pub proof fn lemma_table_reference_roundtrip(schema: Seq<char>, target_schema: Seq<char>, target_table: Seq<char>)
    requires
        no_dot(target_table),
        target_schema != schema ==> no_dot(target_schema),
    ensures
        table_reference(schema, table_reference_text(schema, target_schema, target_table))
            == Ok::<(Seq<char>, Seq<char>), ErrorView>((target_schema, target_table)),
{
    if target_schema != schema {
        reveal_strlit(".");
        let t = target_schema + "."@ + target_table;
        let k = target_schema.len() as int;
        assert(t[k] == '.');
        assert(!no_dot(t));
        assert forall|i: int| 0 <= i < t.len() && i != k implies t[i] != '.' by {
            if i < k {
                assert(t[i] == target_schema[i]);
            } else {
                assert(t[i] == target_table[i - k - 1]);
            }
        }
        let kk = choose|kk: int| 0 <= kk < t.len() && t[kk] == '.';
        assert(kk == k);
        assert(t.take(k) =~= target_schema);
        assert(t.skip(k + 1) =~= target_table);
    }
}

/// Reading back the node a foreign key is written as, from the schema that holds it, gives
/// the same foreign key, provided that it has target columns and that the names its target
/// is written with have no dot.
pub proof fn lemma_foreign_key_roundtrip(def: ForeignKeyView)
    requires
        def.target_columns.len() > 0,
        no_dot(def.target_table),
        def.target_schema != def.schema_name ==> no_dot(def.target_schema),
    ensures
        parse_foreign_key(def.schema_name, def.table_name, render_foreign_key(def.schema_name, def))
            == Ok::<ForeignKeyView, ErrorView>(def),
{
    lemma_foreign_key_keywords();
    lemma_varargs_roundtrip(def.columns);
    lemma_varargs_roundtrip(def.target_columns);
    lemma_table_reference_roundtrip(def.schema_name, def.target_schema, def.target_table);
    let sp = def.schema_name;
    let fk = new_node("foreign key"@).with_value(varargs_value(def.columns));
    let rf = new_node("references"@).with_name(
        table_reference_text(sp, def.target_schema, def.target_table),
    ).with_value(varargs_value(def.target_columns));
    let d = new_node("deferrable"@).with_value(ValueView::Boolean(true));
    let i = new_node("initially deferred"@).with_value(ValueView::Boolean(true));
    let m = new_node("match"@).with_value(ValueView::String(def.match_option));
    let u = new_node("on update"@).with_value(ValueView::String(def.update_rule));
    let x = new_node("on delete"@).with_value(ValueView::String(def.delete_rule));
    let s0 = Seq::<NodeView>::empty();
    let s1 = s0.push(fk);
    let s2 = s1.push(rf);
    let s3 = if def.deferrable { s2.push(d) } else { s2 };
    let s4 = if def.initially_deferred { s3.push(i) } else { s3 };
    let s5 = if def.match_option != "SIMPLE"@ { s4.push(m) } else { s4 };
    let s6 = if def.update_rule != "NO ACTION"@ { s5.push(u) } else { s5 };
    let s7 = if def.delete_rule != "NO ACTION"@ { s6.push(x) } else { s6 };
    lemma_push_last(s0, fk);
    lemma_push_last(s1, rf);
    lemma_push_last(s2, d);
    lemma_push_last(s3, i);
    lemma_push_last(s4, m);
    lemma_push_last(s5, u);
    lemma_push_last(s6, x);
    assert(references_outcome(sp, rf) == Ok::<(Seq<char>, Seq<char>, Seq<Seq<char>>), ErrorView>(
        (def.target_schema, def.target_table, def.target_columns)));
    let f = foreign_key_child_errors(sp);
    assert(collect_errors(s0, f).len() == 0);
    assert(collect_errors(s1, f).len() == 0);
    assert(collect_errors(s2, f).len() == 0);
    assert(collect_errors(s3, f).len() == 0);
    assert(collect_errors(s4, f).len() == 0);
    assert(collect_errors(s5, f).len() == 0);
    assert(collect_errors(s6, f).len() == 0);
    assert(collect_errors(s7, f).len() == 0);
    let cols = Some(def.columns);
    let tgt = Some((def.target_schema, def.target_table, def.target_columns));
    assert(last_varargs(s0, "foreign key"@) is None);
    assert(last_varargs(s1, "foreign key"@) == cols);
    assert(last_varargs(s2, "foreign key"@) == cols);
    assert(last_varargs(s3, "foreign key"@) == cols);
    assert(last_varargs(s4, "foreign key"@) == cols);
    assert(last_varargs(s5, "foreign key"@) == cols);
    assert(last_varargs(s6, "foreign key"@) == cols);
    assert(last_varargs(s7, "foreign key"@) == cols);
    assert(last_references(s2, sp) == tgt);
    assert(last_references(s3, sp) == tgt);
    assert(last_references(s4, sp) == tgt);
    assert(last_references(s5, sp) == tgt);
    assert(last_references(s6, sp) == tgt);
    assert(last_references(s7, sp) == tgt);
    let dv = if def.deferrable { Some(true) } else { None::<bool> };
    let iv = if def.initially_deferred { Some(true) } else { None::<bool> };
    assert(last_boolean(s0, "deferrable"@) is None);
    assert(last_boolean(s1, "deferrable"@) is None);
    assert(last_boolean(s2, "deferrable"@) is None);
    assert(last_boolean(s3, "deferrable"@) == dv);
    assert(last_boolean(s4, "deferrable"@) == dv);
    assert(last_boolean(s5, "deferrable"@) == dv);
    assert(last_boolean(s6, "deferrable"@) == dv);
    assert(last_boolean(s7, "deferrable"@) == dv);
    assert(last_boolean(s0, "initially deferred"@) is None);
    assert(last_boolean(s1, "initially deferred"@) is None);
    assert(last_boolean(s2, "initially deferred"@) is None);
    assert(last_boolean(s3, "initially deferred"@) is None);
    assert(last_boolean(s4, "initially deferred"@) == iv);
    assert(last_boolean(s5, "initially deferred"@) == iv);
    assert(last_boolean(s6, "initially deferred"@) == iv);
    assert(last_boolean(s7, "initially deferred"@) == iv);
    assert(last_string(s0, "match"@) is None);
    assert(last_string(s1, "match"@) is None);
    assert(last_string(s2, "match"@) is None);
    assert(last_string(s3, "match"@) is None);
    assert(last_string(s4, "match"@) is None);
    assert(string_or(last_string(s5, "match"@), "SIMPLE"@) == def.match_option);
    assert(string_or(last_string(s6, "match"@), "SIMPLE"@) == def.match_option);
    assert(string_or(last_string(s7, "match"@), "SIMPLE"@) == def.match_option);
    assert(last_string(s0, "on update"@) is None);
    assert(last_string(s1, "on update"@) is None);
    assert(last_string(s2, "on update"@) is None);
    assert(last_string(s3, "on update"@) is None);
    assert(last_string(s4, "on update"@) is None);
    assert(last_string(s5, "on update"@) is None);
    assert(string_or(last_string(s6, "on update"@), "NO ACTION"@) == def.update_rule);
    assert(string_or(last_string(s7, "on update"@), "NO ACTION"@) == def.update_rule);
    assert(last_string(s0, "on delete"@) is None);
    assert(last_string(s1, "on delete"@) is None);
    assert(last_string(s2, "on delete"@) is None);
    assert(last_string(s3, "on delete"@) is None);
    assert(last_string(s4, "on delete"@) is None);
    assert(last_string(s5, "on delete"@) is None);
    assert(last_string(s6, "on delete"@) is None);
    assert(string_or(last_string(s7, "on delete"@), "NO ACTION"@) == def.delete_rule);
}

/// Reading a foreign key: the one child `on update` gives its update rule, the one child
/// `on delete` its delete rule, and likewise `match`, `deferrable` and `initially deferred`.
pub proof fn lemma_foreign_key_rule_given(schema_name: Seq<char>, table_name: Seq<char>, n: NodeView, fk: ForeignKeyView, k: int)
    requires
        parse_foreign_key(schema_name, table_name, n) == Ok::<ForeignKeyView, ErrorView>(fk),
        n.nodes() is Some,
        0 <= k < n.nodes()->Some_0.len(),
        forall|j: int| 0 <= j < n.nodes()->Some_0.len() && j != k
            ==> (#[trigger] n.nodes()->Some_0[j]).typ != n.nodes()->Some_0[k].typ,
    ensures
        n.nodes()->Some_0[k].typ == "on update"@ && n.nodes()->Some_0[k].string() is Some
            ==> fk.update_rule == n.nodes()->Some_0[k].string()->Some_0,
        n.nodes()->Some_0[k].typ == "on delete"@ && n.nodes()->Some_0[k].string() is Some
            ==> fk.delete_rule == n.nodes()->Some_0[k].string()->Some_0,
        n.nodes()->Some_0[k].typ == "match"@ && n.nodes()->Some_0[k].string() is Some
            ==> fk.match_option == n.nodes()->Some_0[k].string()->Some_0,
        n.nodes()->Some_0[k].typ == "deferrable"@ && n.nodes()->Some_0[k].boolean() is Some
            ==> fk.deferrable == n.nodes()->Some_0[k].boolean()->Some_0,
        n.nodes()->Some_0[k].typ == "initially deferred"@ && n.nodes()->Some_0[k].boolean() is Some
            ==> fk.initially_deferred == n.nodes()->Some_0[k].boolean()->Some_0,
{
    let cs = n.nodes()->Some_0;
    lemma_last_string_only(cs, cs[k].typ, k);
    lemma_last_boolean_only(cs, cs[k].typ, k);
}

/// Reading a foreign key: a rule that no child gives is `NO ACTION`, a match option that
/// none gives is `SIMPLE`, and a deferral attribute that none gives is false.
pub proof fn lemma_foreign_key_rule_left_out(schema_name: Seq<char>, table_name: Seq<char>, n: NodeView, fk: ForeignKeyView)
    requires
        parse_foreign_key(schema_name, table_name, n) == Ok::<ForeignKeyView, ErrorView>(fk),
        n.nodes() is Some,
    ensures
        (forall|j: int| 0 <= j < n.nodes()->Some_0.len() ==> (#[trigger] n.nodes()->Some_0[j]).typ != "on update"@)
            ==> fk.update_rule == "NO ACTION"@,
        (forall|j: int| 0 <= j < n.nodes()->Some_0.len() ==> (#[trigger] n.nodes()->Some_0[j]).typ != "on delete"@)
            ==> fk.delete_rule == "NO ACTION"@,
        (forall|j: int| 0 <= j < n.nodes()->Some_0.len() ==> (#[trigger] n.nodes()->Some_0[j]).typ != "match"@)
            ==> fk.match_option == "SIMPLE"@,
        (forall|j: int| 0 <= j < n.nodes()->Some_0.len() ==> (#[trigger] n.nodes()->Some_0[j]).typ != "deferrable"@)
            ==> !fk.deferrable,
        (forall|j: int| 0 <= j < n.nodes()->Some_0.len() ==> (#[trigger] n.nodes()->Some_0[j]).typ != "initially deferred"@)
            ==> !fk.initially_deferred,
{
    let cs = n.nodes()->Some_0;
    if forall|j: int| 0 <= j < cs.len() ==> (#[trigger] cs[j]).typ != "on update"@ {
        lemma_last_string_absent(cs, "on update"@);
    }
    if forall|j: int| 0 <= j < cs.len() ==> (#[trigger] cs[j]).typ != "on delete"@ {
        lemma_last_string_absent(cs, "on delete"@);
    }
    if forall|j: int| 0 <= j < cs.len() ==> (#[trigger] cs[j]).typ != "match"@ {
        lemma_last_string_absent(cs, "match"@);
    }
    if forall|j: int| 0 <= j < cs.len() ==> (#[trigger] cs[j]).typ != "deferrable"@ {
        lemma_last_boolean_absent(cs, "deferrable"@);
    }
    if forall|j: int| 0 <= j < cs.len() ==> (#[trigger] cs[j]).typ != "initially deferred"@ {
        lemma_last_boolean_absent(cs, "initially deferred"@);
    }
}

/// Writing a foreign key: each child `on update` holds its update rule and each child
/// `on delete` its delete rule; there is such a child exactly when the rule is not
/// `NO ACTION`.
pub proof fn lemma_render_foreign_key_rules(schema: Seq<char>, def: ForeignKeyView)
    ensures
        render_foreign_key(schema, def).nodes() is Some,
        forall|j: int| 0 <= j < render_foreign_key(schema, def).nodes()->Some_0.len()
            && (#[trigger] render_foreign_key(schema, def).nodes()->Some_0[j]).typ == "on update"@
            ==> render_foreign_key(schema, def).nodes()->Some_0[j].string() == Some(def.update_rule),
        forall|j: int| 0 <= j < render_foreign_key(schema, def).nodes()->Some_0.len()
            && (#[trigger] render_foreign_key(schema, def).nodes()->Some_0[j]).typ == "on delete"@
            ==> render_foreign_key(schema, def).nodes()->Some_0[j].string() == Some(def.delete_rule),
        (def.update_rule != "NO ACTION"@) == exists|j: int| 0 <= j < render_foreign_key(schema, def).nodes()->Some_0.len()
            && (#[trigger] render_foreign_key(schema, def).nodes()->Some_0[j]).typ == "on update"@,
        (def.delete_rule != "NO ACTION"@) == exists|j: int| 0 <= j < render_foreign_key(schema, def).nodes()->Some_0.len()
            && (#[trigger] render_foreign_key(schema, def).nodes()->Some_0[j]).typ == "on delete"@,
{
    lemma_foreign_key_keywords();
    let cs = render_foreign_key(schema, def).nodes()->Some_0;
    let s2 = seq![new_node("foreign key"@).with_value(varargs_value(def.columns))].push(new_node("references"@).with_name(
        table_reference_text(schema, def.target_schema, def.target_table),
    ).with_value(varargs_value(def.target_columns)));
    let s3 = if def.deferrable { s2.push(new_node("deferrable"@).with_value(ValueView::Boolean(true))) } else { s2 };
    let s4 = if def.initially_deferred {
        s3.push(new_node("initially deferred"@).with_value(ValueView::Boolean(true)))
    } else {
        s3
    };
    let s5 = if def.match_option != "SIMPLE"@ {
        s4.push(new_node("match"@).with_value(ValueView::String(def.match_option)))
    } else {
        s4
    };
    let s6 = if def.update_rule != "NO ACTION"@ {
        s5.push(new_node("on update"@).with_value(ValueView::String(def.update_rule)))
    } else {
        s5
    };
    assert(cs == if def.delete_rule != "NO ACTION"@ {
        s6.push(new_node("on delete"@).with_value(ValueView::String(def.delete_rule)))
    } else {
        s6
    });
    assert(forall|j: int| 0 <= j < s5.len() ==> (#[trigger] s5[j]).typ != "on update"@ && s5[j].typ != "on delete"@);
    if def.delete_rule != "NO ACTION"@ {
        assert(cs[s6.len() as int].typ == "on delete"@);
    }
    if def.update_rule != "NO ACTION"@ {
        assert(cs[s5.len() as int].typ == "on update"@);
    }
}

} // verus!
