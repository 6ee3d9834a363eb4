//! Primary keys: `constraint <name>` with the `primary key` columns.
use vstd::prelude::*;
use crate::definition::base::node::{Node, NodeView};
use crate::snapshot::{PrimaryKey, KeyView};
#[allow(unused_imports)]
use vstd::view::View as ViewTrait;
use super::context::Context;
use super::error::{Error, ErrorView, result_view};
use super::unique::{parse_key, render_key, parse_key_parts, render_key_parts, lemma_key_keywords, lemma_key_roundtrip,
    lemma_key_deferral_given, lemma_key_deferral_left_out, lemma_render_key_deferral};

verus! {

pub open spec fn parse_primary_key(schema_name: Seq<char>, table_name: Seq<char>, n: NodeView) -> Result<KeyView, ErrorView> {
    parse_key("primary key"@, schema_name, table_name, n)
}

pub open spec fn render_primary_key(def: KeyView) -> NodeView {
    render_key("primary key"@, def)
}

pub fn parse_primary_key_definition(schema_name: &str, table_name: &str, n: &Node) -> (r: Result<PrimaryKey, Error>)
    requires
        n@.typ == "constraint"@,
    ensures
        result_view(r) == parse_primary_key(schema_name@, table_name@, n@),
{
    proof {
        lemma_key_keywords();
    }
    let parts = parse_key_parts("primary key", n)?;
    Ok(PrimaryKey {
        schema_name: schema_name.to_owned(),
        table_name: table_name.to_owned(),
        name: parts.name,
        columns: parts.columns,
        deferrable: parts.deferrable,
        initially_deferred: parts.initially_deferred,
    })
}

pub fn render_primary_key_definition(ctx: &Context, def: &PrimaryKey) -> (r: Node)
    ensures
        r@ == render_primary_key(def@),
{
    render_key_parts("primary key", &def.name, &def.columns, def.deferrable, def.initially_deferred)
}

/// Reading back the node a primary key with columns is written as gives the same key.
pub proof fn lemma_primary_key_roundtrip(def: KeyView)
    requires
        def.columns.len() > 0,
    ensures
        parse_primary_key(def.schema_name, def.table_name, render_primary_key(def)) == Ok::<KeyView, ErrorView>(def),
{
    lemma_key_keywords();
    lemma_key_roundtrip("primary key"@, def);
}

/// Reading a primary key: the deferral attributes come from the children of the same
/// name, and one that no child gives is false.
pub proof fn lemma_primary_key_deferral(schema_name: Seq<char>, table_name: Seq<char>, n: NodeView, kv: KeyView, k: int)
    requires
        parse_primary_key(schema_name, table_name, n) == Ok::<KeyView, ErrorView>(kv),
        n.nodes() is Some,
        0 <= k < n.nodes()->Some_0.len(),
        forall|j: int| 0 <= j < n.nodes()->Some_0.len() && j != k
            ==> (#[trigger] n.nodes()->Some_0[j]).typ != n.nodes()->Some_0[k].typ,
    ensures
        n.nodes()->Some_0[k].typ == "deferrable"@ && n.nodes()->Some_0[k].boolean() is Some
            ==> kv.deferrable == n.nodes()->Some_0[k].boolean()->Some_0,
        n.nodes()->Some_0[k].typ == "initially deferred"@ && n.nodes()->Some_0[k].boolean() is Some
            ==> kv.initially_deferred == n.nodes()->Some_0[k].boolean()->Some_0,
        (forall|j: int| 0 <= j < n.nodes()->Some_0.len() ==> (#[trigger] n.nodes()->Some_0[j]).typ != "deferrable"@)
            ==> !kv.deferrable,
        (forall|j: int| 0 <= j < n.nodes()->Some_0.len() ==> (#[trigger] n.nodes()->Some_0[j]).typ != "initially deferred"@)
            ==> !kv.initially_deferred,
{
    lemma_key_deferral_given("primary key"@, schema_name, table_name, n, kv, k);
    lemma_key_deferral_left_out("primary key"@, schema_name, table_name, n, kv);
}

/// Writing a primary key: the deferral attributes go under children of the same name.
pub proof fn lemma_render_primary_key_deferral(def: KeyView)
    ensures
        render_primary_key(def).nodes() is Some,
        forall|j: int| 0 <= j < render_primary_key(def).nodes()->Some_0.len()
            && (#[trigger] render_primary_key(def).nodes()->Some_0[j]).typ == "deferrable"@
            ==> render_primary_key(def).nodes()->Some_0[j].boolean() == Some(def.deferrable),
        forall|j: int| 0 <= j < render_primary_key(def).nodes()->Some_0.len()
            && (#[trigger] render_primary_key(def).nodes()->Some_0[j]).typ == "initially deferred"@
            ==> render_primary_key(def).nodes()->Some_0[j].boolean() == Some(def.initially_deferred),
        def.deferrable == exists|j: int| 0 <= j < render_primary_key(def).nodes()->Some_0.len()
            && (#[trigger] render_primary_key(def).nodes()->Some_0[j]).typ == "deferrable"@,
        def.initially_deferred == exists|j: int| 0 <= j < render_primary_key(def).nodes()->Some_0.len()
            && (#[trigger] render_primary_key(def).nodes()->Some_0[j]).typ == "initially deferred"@,
{
    lemma_key_keywords();
    lemma_render_key_deferral("primary key"@, def);
}

} // verus!
