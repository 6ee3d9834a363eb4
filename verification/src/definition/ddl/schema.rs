//! Schemas: `schema <name>` whose children are its tables, views, sequences, indexes and
//! functions.
use vstd::prelude::*;
use crate::definition::base::node::{Node, NodeView, new_node, nodes_view, lemma_nodes_view, lemma_nodes_view_push};
use crate::snapshot::{Function, FunctionView, Relation, RelationView, Schema, SchemaView, has_name, distinct_names,
    names_distinct};
use crate::text::str_eq;
#[allow(unused_imports)]
use vstd::view::View as ViewTrait;
use super::coerce::{coerce_name, coerce_nodes, name_outcome, error_of, collect_errors, lemma_take_step, lemma_take_all};
use super::context::Context;
use super::error::{
    Error, ErrorView, errors_view, result_view, unexpected_node, child_nodes_required, has_errors,
    lemma_errors_view_push,
};
use super::function::{parse_function, render_function, parse_function_definition, render_function_definition,
    lemma_function_roundtrip};
use super::index::{parse_index, render_index, parse_index_definition, render_index_definition, index_on_missing,
    index_node_on_missing,
    lemma_index_roundtrip};
use super::sequence::{parse_sequence, render_sequence, parse_sequence_definition, render_sequence_definition,
    sequence_bounds_defined, sequence_renderable, lemma_sequence_roundtrip, sequence_node_bounds_defined};
use super::table::{parse_table, render_table, parse_table_definition, render_table_definition, table_readable,
    table_node_readable,
    table_writable, lemma_table_roundtrip};
use super::view::{parse_view, render_view, parse_view_definition, render_view_definition, lemma_view_roundtrip};
use crate::definition::defaults::is_sequence_data_type;

verus! {

/// What a child of a schema reads as when it is a relation, or the error it gives.
pub open spec fn parse_relation(schema: Seq<char>, cn: NodeView) -> Result<RelationView, ErrorView> {
    if cn.typ == "table"@ {
        match parse_table(schema, cn) {
            Ok(d) => Ok(RelationView::Table(d)),
            Err(e) => Err(e),
        }
    } else if cn.typ == "view"@ {
        match parse_view(schema, cn) {
            Ok(d) => Ok(RelationView::View(d)),
            Err(e) => Err(e),
        }
    } else if cn.typ == "sequence"@ {
        match parse_sequence(schema, cn) {
            Ok(d) => Ok(RelationView::Sequence(d)),
            Err(e) => Err(e),
        }
    } else {
        match parse_index(schema, cn) {
            Ok(d) => Ok(RelationView::Index(d)),
            Err(e) => Err(e),
        }
    }
}

pub open spec fn is_relation_type(t: Seq<char>) -> bool {
    t == "table"@ || t == "view"@ || t == "sequence"@ || t == "index"@
}

/// The error a child of a schema gives, if any: a relation or a function that cannot be
/// read, or a node of another type.
pub open spec fn schema_child_error(schema: Seq<char>, cn: NodeView) -> Option<ErrorView> {
    if is_relation_type(cn.typ) {
        error_of(parse_relation(schema, cn))
    } else if cn.typ == "function"@ {
        error_of(parse_function(schema, cn))
    } else {
        Some(unexpected_node(cn))
    }
}

pub open spec fn schema_child_errors(schema: Seq<char>) -> spec_fn(NodeView) -> Option<ErrorView> {
    |cn: NodeView| schema_child_error(schema, cn)
}

/// The relations the children of a schema read as, in order.
pub open spec fn schema_relations(schema: Seq<char>, cs: Seq<NodeView>) -> Seq<RelationView>
    decreases cs.len(),
{
    if cs.len() == 0 {
        Seq::empty()
    } else {
        let before = schema_relations(schema, cs.drop_last());
        if is_relation_type(cs.last().typ) && parse_relation(schema, cs.last()) is Ok {
            before.push(parse_relation(schema, cs.last())->Ok_0)
        } else {
            before
        }
    }
}

/// The functions the children of a schema read as, in order.
pub open spec fn schema_functions(schema: Seq<char>, cs: Seq<NodeView>) -> Seq<FunctionView>
    decreases cs.len(),
{
    if cs.len() == 0 {
        Seq::empty()
    } else {
        let before = schema_functions(schema, cs.drop_last());
        if cs.last().typ == "function"@ && parse_function(schema, cs.last()) is Ok {
            before.push(parse_function(schema, cs.last())->Ok_0)
        } else {
            before
        }
    }
}

/// What a `schema` node reads as: the errors of all its children, or its relations and
/// functions in the order they are written.
pub open spec fn parse_schema(n: NodeView) -> Result<SchemaView, ErrorView> {
    match name_outcome(n) {
        Err(e) => Err(e),
        Ok(name) => match n.nodes() {
            None => Err(child_nodes_required(n)),
            Some(cs) => {
                let es = collect_errors(cs, schema_child_errors(name));
                if es.len() > 0 {
                    Err(has_errors(n, es))
                } else {
                    Ok(SchemaView { name, relations: schema_relations(name, cs), functions: schema_functions(name, cs) })
                }
            },
        },
    }
}

/// A child of the named schema that can be read: a table that can be read, a sequence
/// whose bounds its data type defines, an index that says what it is on.
pub open spec fn schema_child_readable(schema: Seq<char>, cn: NodeView) -> bool {
    &&& cn.typ == "table"@ ==> table_readable(schema, cn)
    &&& cn.typ == "sequence"@ ==> sequence_bounds_defined(cn)
    &&& cn.typ == "index"@ ==> !index_on_missing(cn)
}

/// A `schema` node that can be read: each child can be read, and a schema that reads
/// without error names no relation and no function twice.
pub open spec fn schema_readable(n: NodeView) -> bool {
    &&& n.typ == "schema"@
    &&& (name_outcome(n) is Ok && n.nodes() is Some) ==> forall|i: int|
        0 <= i < n.nodes()->Some_0.len() ==> schema_child_readable(name_outcome(n)->Ok_0, #[trigger] n.nodes()->Some_0[i])
    &&& parse_schema(n) is Ok ==> parse_schema(n)->Ok_0.wf()
}

/// The node a relation is written as, seen from the given schema.
pub open spec fn render_relation(schema: Seq<char>, r: RelationView) -> NodeView {
    match r {
        RelationView::Table(d) => render_table(schema, d),
        RelationView::View(d) => render_view(d),
        RelationView::Index(d) => render_index(d),
        RelationView::Sequence(d) => render_sequence(d),
    }
}

/// The node a schema is written as: its relations, then its functions.
pub open spec fn render_schema(def: SchemaView) -> NodeView {
    new_node("schema"@).with_name(def.name).with_nodes(
        def.relations.map_values(|r: RelationView| render_relation(def.name, r)) + def.functions.map_values(
            |f: FunctionView| render_function(f),
        ),
    )
}

/// A relation that can be written from the named schema: a view of that schema, a
/// sequence whose data type is one of those of a sequence and that names its owning
/// column when it names its owning table.
pub open spec fn relation_renderable(schema: Seq<char>, r: RelationView) -> bool {
    match r {
        RelationView::View(d) => d.schema_name == schema,
        RelationView::Sequence(d) => sequence_renderable(d),
        _ => true,
    }
}

pub open spec fn schema_renderable(def: SchemaView) -> bool {
    forall|i: int| 0 <= i < def.relations.len() ==> relation_renderable(def.name, #[trigger] def.relations[i])
}

proof fn lemma_schema_keywords()
    ensures
        "table"@ != "view"@,
        "table"@ != "sequence"@,
        "table"@ != "index"@,
        "table"@ != "function"@,
        "view"@ != "sequence"@,
        "view"@ != "index"@,
        "view"@ != "function"@,
        "sequence"@ != "index"@,
        "sequence"@ != "function"@,
        "index"@ != "function"@,
{
    reveal_strlit("table");
    reveal_strlit("view");
    reveal_strlit("sequence");
    reveal_strlit("index");
    reveal_strlit("function");
    assert("table"@.len() == 5);
    assert("view"@.len() == 4);
    assert("sequence"@.len() == 8);
    assert("index"@.len() == 5);
    assert("function"@.len() == 8);
    assert("table"@[0] != "index"@[0]);
    assert("sequence"@[0] != "function"@[0]);
}

/// In a list whose names are all different, a name is not among those before it.
proof fn lemma_distinct_take(names: Seq<Seq<char>>, k: int)
    requires
        distinct_names(names),
        0 <= k < names.len(),
    ensures
        !has_name(names.take(k), names[k]),
{
    if has_name(names.take(k), names[k]) {
        let i = choose|i: int| 0 <= i < names.take(k).len() && names.take(k)[i] == names[k];
        assert(names[i] == names[k]);
    }
}

/// Reads the children of a schema: the errors they give, and the relations and functions
/// they read as, each in order.
fn read_schema_children(name: &str, child_nodes: &Vec<Node>) -> (r: (Vec<Error>, Vec<Relation>, Vec<Function>))
    requires
        forall|j: int| 0 <= j < child_nodes@.len() ==> schema_child_readable(name@, #[trigger] nodes_view(child_nodes@)[j]),
    ensures
        errors_view(r.0@) == collect_errors(nodes_view(child_nodes@), schema_child_errors(name@)),
        r.1@.map_values(|x: Relation| x@) == schema_relations(name@, nodes_view(child_nodes@)),
        r.2@.map_values(|x: Function| x@) == schema_functions(name@, nodes_view(child_nodes@)),
{
    let ghost cs = nodes_view(child_nodes@);
    proof {
        lemma_nodes_view(child_nodes@);
    }
    let ctx = Context::new(name.to_owned());
    let mut errors: Vec<Error> = Vec::new();
    let mut relations: Vec<Relation> = Vec::new();
    let mut functions: Vec<Function> = Vec::new();

    for i in 0..child_nodes.len()
        invariant
            cs == nodes_view(child_nodes@),
            ctx.schema_name@ == name@,
            forall|j: int| 0 <= j < cs.len() ==> schema_child_readable(name@, #[trigger] cs[j]),
            cs.len() == child_nodes@.len(),
            forall|j: int| 0 <= j < cs.len() ==> #[trigger] cs[j] == child_nodes@[j]@,
            errors_view(errors@) == collect_errors(cs.take(i as int), schema_child_errors(name@)),
            relations@.map_values(|r: Relation| r@) == schema_relations(name@, cs.take(i as int)),
            functions@.map_values(|f: Function| f@) == schema_functions(name@, cs.take(i as int)),
    {
        let cn = &child_nodes[i];
        proof {
            lemma_take_step(cs, i as int);
            lemma_schema_keywords();
            assert(schema_child_readable(name@, cs[i as int]));
        }
        let ghost before = errors@;
        let ghost rels_before = relations@;
        let ghost funs_before = functions@;
        let mut relation: Option<Relation> = None;
        if str_eq(cn.typ, "table") {
            match parse_table_definition(name, cn) {
                Ok(def) => {
                    relation = Some(Relation::Table(def));
                },
                Err(e) => {
                    errors.push(e);
                },
            }
        } else if str_eq(cn.typ, "view") {
            match parse_view_definition(&ctx, cn) {
                Ok(def) => {
                    relation = Some(Relation::View(def));
                },
                Err(e) => {
                    errors.push(e);
                },
            }
        } else if str_eq(cn.typ, "sequence") {
            match parse_sequence_definition(&ctx, cn) {
                Ok(def) => {
                    relation = Some(Relation::Sequence(def));
                },
                Err(e) => {
                    errors.push(e);
                },
            }
        } else if str_eq(cn.typ, "index") {
            match parse_index_definition(&ctx, cn) {
                Ok(def) => {
                    relation = Some(Relation::Index(def));
                },
                Err(e) => {
                    errors.push(e);
                },
            }
        } else if str_eq(cn.typ, "function") {
            match parse_function_definition(&ctx, cn) {
                Ok(def) => {
                    functions.push(def);
                    assert(functions@.map_values(|f: Function| f@) =~= funs_before.map_values(|f: Function| f@).push(def@));
                },
                Err(e) => {
                    errors.push(e);
                },
            }
        } else {
            errors.push(Error::new_unexpected_node(cn));
        }
        if let Some(rel) = relation {
            relations.push(rel);
            assert(relations@.map_values(|r: Relation| r@) =~= rels_before.map_values(|r: Relation| r@).push(rel@));
        }
        proof {
            if errors@.len() > before.len() {
                lemma_errors_view_push(before, errors@.last());
                assert(errors@ == before.push(errors@.last()));
            }
        }
    }
    proof {
        lemma_take_all(cs);
    }
    (errors, relations, functions)
}

/// Tells whether a child of the named schema can be read.
pub fn schema_child_node_readable(schema_name: &str, n: &Node) -> (r: bool)
    ensures
        r == schema_child_readable(schema_name@, n@),
{
    proof {
        lemma_schema_keywords();
    }
    if str_eq(n.typ, "table") {
        table_node_readable(schema_name, n)
    } else if str_eq(n.typ, "sequence") {
        sequence_node_bounds_defined(n)
    } else if str_eq(n.typ, "index") {
        !index_node_on_missing(n)
    } else {
        true
    }
}

/// Tells whether a schema node can be read: it is a `schema` node whose children can be
/// read and that, when it reads without error, names no relation and no function twice.
pub fn schema_node_readable(n: &Node) -> (r: bool)
    ensures
        r == schema_readable(n@),
{
    if !str_eq(n.typ, "schema") {
        return false;
    }
    let name = match &n.name {
        Some(name) => name,
        None => {
            return true;
        },
    };
    let child_nodes = match n.get_nodes() {
        Some(ns) => ns,
        None => {
            return true;
        },
    };
    let ghost cs = n@.nodes()->Some_0;
    proof {
        lemma_nodes_view(child_nodes@);
    }
    for i in 0..child_nodes.len()
        invariant
            n@.nodes() is Some,
            cs == n@.nodes()->Some_0,
            cs == nodes_view(child_nodes@),
            name_outcome(n@) == Ok::<Seq<char>, ErrorView>(name@),
            cs.len() == child_nodes@.len(),
            forall|j: int| 0 <= j < cs.len() ==> #[trigger] cs[j] == child_nodes@[j]@,
            forall|j: int| 0 <= j < i ==> schema_child_readable(name@, #[trigger] cs[j]),
    {
        if !schema_child_node_readable(name.as_str(), &child_nodes[i]) {
            assert(!schema_child_readable(name_outcome(n@)->Ok_0, n@.nodes()->Some_0[i as int]));
            return false;
        }
    }
    let (errors, relations, functions) = read_schema_children(name.as_str(), child_nodes);
    if errors.len() > 0 {
        return true;
    }
    let mut relation_names: Vec<String> = Vec::new();
    for i in 0..relations.len()
        invariant
            relation_names.deep_view() == relations@.take(i as int).map_values(|x: Relation| x@.name()),
    {
        let ghost prev = relation_names.deep_view();
        let relation_name = relations[i].name().clone();
        relation_names.push(relation_name);
        assert(relation_names.deep_view() =~= prev.push(relations@[i as int]@.name()));
        assert(relations@.take(i + 1).map_values(|x: Relation| x@.name()) =~= relations@.take(i as int).map_values(
            |x: Relation| x@.name(),
        ).push(relations@[i as int]@.name()));
    }
    let mut function_names: Vec<String> = Vec::new();
    for i in 0..functions.len()
        invariant
            function_names.deep_view() == functions@.take(i as int).map_values(|x: Function| x@.name),
    {
        let ghost prev = function_names.deep_view();
        let function_name = functions[i].name.clone();
        function_names.push(function_name);
        assert(function_names.deep_view() =~= prev.push(functions@[i as int]@.name));
        assert(functions@.take(i + 1).map_values(|x: Function| x@.name) =~= functions@.take(i as int).map_values(
            |x: Function| x@.name,
        ).push(functions@[i as int]@.name));
    }
    proof {
        assert(relations@.take(relations@.len() as int) =~= relations@);
        assert(functions@.take(functions@.len() as int) =~= functions@);
        let sv = parse_schema(n@)->Ok_0;
        assert(sv.relation_names() =~= relations@.map_values(|x: Relation| x@.name()));
        assert(sv.function_names() =~= functions@.map_values(|x: Function| x@.name));
    }
    names_distinct(&relation_names) && names_distinct(&function_names)
}

pub fn parse_schema_definition(n: &Node) -> (r: Result<Schema, Error>)
    requires
        schema_readable(n@),
    ensures
        result_view(r) == parse_schema(n@),
{
    let name = coerce_name(n)?;
    let child_nodes = coerce_nodes(n)?;
    let ghost cs = n@.nodes()->Some_0;
    proof {
        lemma_nodes_view(child_nodes@);
        assert(cs == nodes_view(child_nodes@));
        assert forall|j: int| 0 <= j < child_nodes@.len() implies schema_child_readable(name@, #[trigger] nodes_view(child_nodes@)[j]) by {
            assert(n@.nodes()->Some_0[j] == cs[j]);
        }
    }
    let (errors, relations, functions) = read_schema_children(name.as_str(), child_nodes);
    if errors.len() > 0 {
        return Err(Error::new_has_errors(n, errors));
    }
    let ghost rels = schema_relations(name@, cs);
    let ghost funs = schema_functions(name@, cs);
    let ghost relation_items = relations@;
    let ghost function_items = functions@;
    let mut schema = Schema::new(name.as_str());
    proof {
        assert(rels.take(0) =~= seq![]);
        assert(funs.take(0) =~= seq![]);
    }
    for relation in it: relations.into_iter()
        invariant
            it.seq() == relation_items,
            relation_items.map_values(|r: Relation| r@) == rels,
            distinct_names(rels.map_values(|r: RelationView| r.name())),
            schema@ == (SchemaView { name: name@, relations: rels.take(it.index() as int), functions: seq![] }),
    {
        proof {
            let k = it.index() as int;
            let names = rels.map_values(|r: RelationView| r.name());
            lemma_distinct_take(names, k);
            assert(rels.take(k).map_values(|r: RelationView| r.name()) =~= names.take(k));
            assert(relation@ == rels[k]);
            assert(rels.take(k).push(rels[k]) =~= rels.take(k + 1));
        }
        let added = schema.add_relation(relation);
    }
    proof {
        assert(rels.take(rels.len() as int) =~= rels);
    }
    for function in it: functions.into_iter()
        invariant
            it.seq() == function_items,
            function_items.map_values(|f: Function| f@) == funs,
            distinct_names(funs.map_values(|f: FunctionView| f.name)),
            schema@ == (SchemaView { name: name@, relations: rels, functions: funs.take(it.index() as int) }),
    {
        proof {
            let k = it.index() as int;
            let names = funs.map_values(|f: FunctionView| f.name);
            lemma_distinct_take(names, k);
            assert(funs.take(k).map_values(|f: FunctionView| f.name) =~= names.take(k));
            assert(function@ == funs[k]);
            assert(funs.take(k).push(funs[k]) =~= funs.take(k + 1));
        }
        let added = schema.add_function(function);
    }
    proof {
        assert(funs.take(funs.len() as int) =~= funs);
    }
    Ok(schema)
}

pub fn render_schema_definition(def: &Schema) -> (r: Node)
    requires
        schema_renderable(def@),
    ensures
        r@ == render_schema(def@),
{
    let ghost dv = def@;
    let ctx = Context::new(def.name().clone());
    let relations = def.iter_relations();
    let functions = def.iter_functions();
    let mut subnodes: Vec<Node> = Vec::new();
    for i in 0..relations.len()
        invariant
            ctx.schema_name@ == dv.name,
            schema_renderable(dv),
            relations@.map_values(|r: Relation| r@) == dv.relations,
            nodes_view(subnodes@) == dv.relations.take(i as int).map_values(|r: RelationView| render_relation(dv.name, r)),
    {
        proof {
            assert(relations@[i as int]@ == dv.relations[i as int]);
            assert(relation_renderable(dv.name, dv.relations[i as int]));
        }
        let node = match &relations[i] {
            Relation::Table(table) => render_table_definition(&ctx, table),
            Relation::View(view) => render_view_definition(&ctx, view),
            Relation::Index(index) => render_index_definition(&ctx, index),
            Relation::Sequence(sequence) => render_sequence_definition(&ctx, sequence),
        };
        proof {
            lemma_nodes_view_push(subnodes@, node);
            assert(dv.relations.take(i + 1).map_values(|r: RelationView| render_relation(dv.name, r)) =~= dv.relations.take(
                i as int,
            ).map_values(|r: RelationView| render_relation(dv.name, r)).push(render_relation(dv.name, dv.relations[i as int])));
        }
        subnodes.push(node);
    }
    let ghost relation_nodes = dv.relations.map_values(|r: RelationView| render_relation(dv.name, r));
    proof {
        assert(dv.relations.take(dv.relations.len() as int) =~= dv.relations);
    }
    for i in 0..functions.len()
        invariant
            functions@.map_values(|f: Function| f@) == dv.functions,
            nodes_view(subnodes@) == relation_nodes + dv.functions.take(i as int).map_values(|f: FunctionView| render_function(f)),
    {
        let node = render_function_definition(&ctx, &functions[i]);
        proof {
            lemma_nodes_view_push(subnodes@, node);
            assert(functions@[i as int]@ == dv.functions[i as int]);
            assert(relation_nodes + dv.functions.take(i + 1).map_values(|f: FunctionView| render_function(f))
                =~= (relation_nodes + dv.functions.take(i as int).map_values(|f: FunctionView| render_function(f))).push(
                render_function(dv.functions[i as int]),
            ));
        }
        subnodes.push(node);
    }
    proof {
        assert(dv.functions.take(dv.functions.len() as int) =~= dv.functions);
    }
    Node::new("schema").with_name(def.name().clone()).with_nodes(subnodes)
}

/// A relation of the named schema that can be written and read back: a table that can be
/// written, a view with a query, a sequence whose data type is one of those of a sequence
/// and that names both its owning table and column or neither.
pub open spec fn relation_fits(schema: Seq<char>, r: RelationView) -> bool {
    match r {
        RelationView::Table(d) => d.schema_name == schema && table_writable(d),
        RelationView::View(d) => d.schema_name == schema && d.query.len() > 0,
        RelationView::Index(d) => d.schema_name == schema,
        RelationView::Sequence(d) => {
            &&& d.schema_name == schema
            &&& is_sequence_data_type(d.data_type)
            &&& (d.owned_by_table is Some <==> d.owned_by_column is Some)
        },
    }
}

/// What a schema needs to be written and read back: no relation and no function named
/// twice, relations that fit the schema, functions of the schema.
pub open spec fn schema_writable(def: SchemaView) -> bool {
    &&& def.wf()
    &&& forall|i: int| 0 <= i < def.relations.len() ==> relation_fits(def.name, #[trigger] def.relations[i])
    &&& forall|i: int| 0 <= i < def.functions.len() ==> (#[trigger] def.functions[i]).schema_name == def.name
}

proof fn lemma_relation_roundtrip(schema: Seq<char>, r: RelationView)
    requires
        relation_fits(schema, r),
    ensures
        is_relation_type(render_relation(schema, r).typ),
        schema_child_readable(schema, render_relation(schema, r)),
        parse_relation(schema, render_relation(schema, r)) == Ok::<RelationView, ErrorView>(r),
        relation_renderable(schema, r),
{
    lemma_schema_keywords();
    match r {
        RelationView::Table(d) => {
            lemma_table_roundtrip(d);
        },
        RelationView::View(d) => {
            lemma_view_roundtrip(d);
        },
        RelationView::Index(d) => {
            lemma_index_roundtrip(d);
        },
        RelationView::Sequence(d) => {
            lemma_sequence_roundtrip(d);
        },
    }
}

proof fn lemma_relation_nodes(schema: Seq<char>, rels: Seq<RelationView>)
    requires
        forall|i: int| 0 <= i < rels.len() ==> relation_fits(schema, #[trigger] rels[i]),
    ensures
        ({
            let ns = rels.map_values(|r: RelationView| render_relation(schema, r));
            &&& collect_errors(ns, schema_child_errors(schema)).len() == 0
            &&& schema_relations(schema, ns) == rels
            &&& schema_functions(schema, ns) == Seq::<FunctionView>::empty()
            &&& forall|i: int| 0 <= i < ns.len() ==> is_relation_type((#[trigger] ns[i]).typ)
            &&& forall|i: int| 0 <= i < ns.len() ==> schema_child_readable(schema, #[trigger] ns[i])
        }),
    decreases rels.len(),
{
    let ns = rels.map_values(|r: RelationView| render_relation(schema, r));
    lemma_schema_keywords();
    if rels.len() > 0 {
        let rest = rels.drop_last();
        let ms = rest.map_values(|r: RelationView| render_relation(schema, r));
        assert(ns.drop_last() =~= ms);
        assert(forall|i: int| 0 <= i < rest.len() ==> #[trigger] rest[i] == rels[i]);
        lemma_relation_nodes(schema, rest);
        let last = rels.last();
        assert(relation_fits(schema, rels[rels.len() - 1]));
        lemma_relation_roundtrip(schema, last);
        assert(ns.last() == render_relation(schema, last));
        assert(rest.push(last) =~= rels);
        assert forall|i: int| 0 <= i < ns.len() implies is_relation_type((#[trigger] ns[i]).typ) && schema_child_readable(schema, ns[i]) by {
            if i < ns.len() - 1 {
                assert(ns[i] == ms[i]);
            }
        }
    } else {
        assert(ns =~= Seq::<NodeView>::empty());
    }
}

proof fn lemma_function_nodes(schema: Seq<char>, rels: Seq<RelationView>, prefix: Seq<NodeView>, funs: Seq<FunctionView>)
    requires
        collect_errors(prefix, schema_child_errors(schema)).len() == 0,
        schema_relations(schema, prefix) == rels,
        schema_functions(schema, prefix) == Seq::<FunctionView>::empty(),
        forall|i: int| 0 <= i < prefix.len() ==> is_relation_type((#[trigger] prefix[i]).typ),
        forall|i: int| 0 <= i < prefix.len() ==> schema_child_readable(schema, #[trigger] prefix[i]),
        forall|i: int| 0 <= i < funs.len() ==> (#[trigger] funs[i]).schema_name == schema,
    ensures
        ({
            let ns = prefix + funs.map_values(|f: FunctionView| render_function(f));
            &&& collect_errors(ns, schema_child_errors(schema)).len() == 0
            &&& schema_relations(schema, ns) == rels
            &&& schema_functions(schema, ns) == funs
            &&& forall|i: int| 0 <= i < ns.len() ==> schema_child_readable(schema, #[trigger] ns[i])
        }),
    decreases funs.len(),
{
    let ns = prefix + funs.map_values(|f: FunctionView| render_function(f));
    lemma_schema_keywords();
    if funs.len() > 0 {
        let rest = funs.drop_last();
        let ms = prefix + rest.map_values(|f: FunctionView| render_function(f));
        assert(ns.drop_last() =~= ms);
        assert(forall|i: int| 0 <= i < rest.len() ==> #[trigger] rest[i] == funs[i]);
        lemma_function_nodes(schema, rels, prefix, rest);
        let last = funs.last();
        assert(funs[funs.len() - 1].schema_name == schema);
        lemma_function_roundtrip(last);
        assert(ns.last() == render_function(last));
        assert(render_function(last).typ == "function"@);
        assert(rest.push(last) =~= funs);
        assert forall|i: int| 0 <= i < ns.len() implies schema_child_readable(schema, #[trigger] ns[i]) by {
            if i < ns.len() - 1 {
                assert(ns[i] == ms[i]);
            }
        }
    } else {
        assert(ns =~= prefix);
    }
}

/// Reading back the node a schema is written as gives the same schema, provided that the
/// schema can be written.
pub proof fn lemma_schema_roundtrip(def: SchemaView)
    requires
        schema_writable(def),
    ensures
        schema_renderable(def),
        schema_readable(render_schema(def)),
        parse_schema(render_schema(def)) == Ok::<SchemaView, ErrorView>(def),
{
    let s = def.name;
    lemma_relation_nodes(s, def.relations);
    let prefix = def.relations.map_values(|r: RelationView| render_relation(s, r));
    lemma_function_nodes(s, def.relations, prefix, def.functions);
    assert forall|i: int| 0 <= i < def.relations.len() implies relation_renderable(s, #[trigger] def.relations[i]) by {
        lemma_relation_roundtrip(s, def.relations[i]);
    }
    let n = render_schema(def);
    assert(n.nodes()->Some_0 == prefix + def.functions.map_values(|f: FunctionView| render_function(f)));
    assert(parse_schema(n) == Ok::<SchemaView, ErrorView>(def));
}

} // verus!
