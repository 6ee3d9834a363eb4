//! Definition files: YAML trees of nodes that describe the schemas of a database, read
//! into a snapshot and written from one.
pub mod base;
pub mod ddl;
pub mod defaults;

use vstd::prelude::*;
use crate::definition::base::node::{Node, NodeView, nodes_view, lemma_nodes_view, lemma_nodes_view_push};
use crate::definition::ddl::error::{Error as DefinitionError, ErrorView};
use crate::definition::ddl::schema::{parse_schema, render_schema, parse_schema_definition, render_schema_definition,
    schema_node_readable,
    schema_readable, schema_renderable, schema_writable, lemma_schema_roundtrip};
use crate::snapshot::{Schema, SchemaView, SnapshotError, SnapshotErrorView, err_view};
use crate::snapshot::database::{Database, DatabaseView};
#[allow(unused_imports)]
use vstd::view::View as ViewTrait;

verus! {

/// What refuses a definition: a schema node that cannot be read, or a schema that
/// cannot be taken into the snapshot.
#[derive(Debug)]
pub enum LoadError {
    Definition(DefinitionError),
    Snapshot(SnapshotError),
}

pub ghost enum LoadErrorView {
    Definition(ErrorView),
    Snapshot(SnapshotErrorView),
}

impl vstd::view::View for LoadError {
    type V = LoadErrorView;

    open spec fn view(&self) -> LoadErrorView {
        match self {
            LoadError::Definition(e) => LoadErrorView::Definition(e@),
            LoadError::Snapshot(e) => LoadErrorView::Snapshot(e@),
        }
    }
}

/// What reading one schema node does to a snapshot: the schema is taken in, merged into
/// the schema of the same name if there is one. The snapshot reached, and the error that
/// stopped it, if any.
pub open spec fn load_step(d: DatabaseView, n: NodeView) -> (DatabaseView, Option<LoadErrorView>) {
    match parse_schema(n) {
        Err(e) => (d, Some(LoadErrorView::Definition(e))),
        Ok(s) => match d.merge_schema(s) {
            (d2, None) => (d2, None),
            (d2, Some(e)) => (d2, Some(LoadErrorView::Snapshot(e))),
        },
    }
}

/// What schema nodes read as: each schema is taken into the snapshot in turn; the first
/// schema that cannot be read or taken in gives its error.
pub open spec fn load_nodes_spec(ns: Seq<NodeView>) -> Result<DatabaseView, LoadErrorView>
    decreases ns.len(),
{
    if ns.len() == 0 {
        Ok(DatabaseView { schemas: Seq::empty() })
    } else {
        match load_nodes_spec(ns.drop_last()) {
            Err(e) => Err(e),
            Ok(d) => match load_step(d, ns.last()) {
                (d2, None) => Ok(d2),
                (_, Some(e)) => Err(e),
            },
        }
    }
}

pub open spec fn load_error_of(r: Result<(), LoadError>) -> Option<LoadErrorView> {
    match r {
        Ok(_) => None,
        Err(e) => Some(e@),
    }
}

/// Reads one schema node into a snapshot.
pub fn load_node(database: &mut Database, node: &Node) -> (r: Result<(), LoadError>)
    requires
        schema_readable(node@),
    ensures
        (final(database)@, load_error_of(r)) == load_step(old(database)@, node@),
{
    let parsed = match parse_schema_definition(node) {
        Ok(s) => s,
        Err(e) => {
            return Err(LoadError::Definition(e));
        },
    };
    match database.merge_schema(parsed) {
        Ok(()) => Ok(()),
        Err(e) => Err(LoadError::Snapshot(e)),
    }
}

pub open spec fn all_readable(ns: Seq<NodeView>) -> bool {
    forall|i: int| 0 <= i < ns.len() ==> #[trigger] schema_readable(ns[i])
}

proof fn lemma_load_stops(ns: Seq<NodeView>, k: int)
    requires
        0 <= k <= ns.len(),
        load_nodes_spec(ns.take(k)) is Err,
    ensures
        load_nodes_spec(ns) == load_nodes_spec(ns.take(k)),
    decreases ns.len() - k,
{
    if k < ns.len() {
        assert(ns.take(k + 1).drop_last() =~= ns.take(k));
        lemma_load_stops(ns, k + 1);
    } else {
        assert(ns.take(k) =~= ns);
    }
}

/// Tells whether each of the nodes is a schema node that can be read.
pub fn nodes_readable(nodes: &Vec<Node>) -> (r: bool)
    ensures
        r == all_readable(nodes_view(nodes@)),
{
    let ghost ns = nodes_view(nodes@);
    proof {
        lemma_nodes_view(nodes@);
    }
    for i in 0..nodes.len()
        invariant
            ns == nodes_view(nodes@),
            ns.len() == nodes@.len(),
            forall|j: int| 0 <= j < ns.len() ==> #[trigger] ns[j] == nodes@[j]@,
            forall|j: int| 0 <= j < i ==> #[trigger] schema_readable(ns[j]),
    {
        if !schema_node_readable(&nodes[i]) {
            assert(!schema_readable(ns[i as int]));
            return false;
        }
    }
    true
}

/// Reads schema nodes into a snapshot.
pub fn load_nodes(nodes: &Vec<Node>) -> (r: Result<Database, LoadError>)
    requires
        all_readable(nodes_view(nodes@)),
    ensures
        match load_nodes_spec(nodes_view(nodes@)) {
            Ok(d) => r is Ok && r->Ok_0@ == d,
            Err(e) => r is Err && r->Err_0@ == e,
        },
{
    let ghost ns = nodes_view(nodes@);
    proof {
        lemma_nodes_view(nodes@);
    }
    let mut database = Database::new();
    assert(database@ =~= DatabaseView { schemas: Seq::empty() });
    for i in 0..nodes.len()
        invariant
            ns == nodes_view(nodes@),
            ns.len() == nodes@.len(),
            forall|j: int| 0 <= j < ns.len() ==> #[trigger] ns[j] == nodes@[j]@,
            all_readable(ns),
            load_nodes_spec(ns.take(i as int)) == Ok::<DatabaseView, LoadErrorView>(database@),
    {
        proof {
            assert(ns.take(i + 1).drop_last() =~= ns.take(i as int));
            assert(ns.take(i + 1).last() == ns[i as int]);
            assert(schema_readable(ns[i as int]));
        }
        if let Err(e) = load_node(&mut database, &nodes[i]) {
            proof {
                lemma_load_stops(ns, i + 1);
            }
            return Err(e);
        }
    }
    proof {
        assert(ns.take(ns.len() as int) =~= ns);
    }
    Ok(database)
}

/// Takes the schemas of another snapshot into a snapshot: what reading several definition
/// files gives.
pub fn merge_snapshot(database: &mut Database, snapshot: Database) -> (r: Result<(), SnapshotError>)
    ensures
        (final(database)@, err_view(r)) == old(database)@.merge_schemas(snapshot@.schemas),
{
    database.merge(snapshot)
}

/// The nodes a snapshot is written as: one schema node for each schema, in order.
pub open spec fn render_snapshot_spec(d: DatabaseView) -> Seq<NodeView> {
    d.schemas.map_values(|s: SchemaView| render_schema(s))
}

pub fn render_snapshot(snapshot: &Database) -> (r: Vec<Node>)
    requires
        forall|i: int| 0 <= i < snapshot@.schemas.len() ==> #[trigger] schema_renderable(snapshot@.schemas[i]),
    ensures
        nodes_view(r@) == render_snapshot_spec(snapshot@),
{
    let schemas = snapshot.iter_schemas();
    let ghost ss = snapshot@.schemas;
    let mut nodes: Vec<Node> = Vec::new();
    for i in 0..schemas.len()
        invariant
            ss == snapshot@.schemas,
            schemas@.map_values(|s: Schema| s@) == ss,
            forall|j: int| 0 <= j < ss.len() ==> #[trigger] schema_renderable(ss[j]),
            nodes_view(nodes@) == ss.take(i as int).map_values(|s: SchemaView| render_schema(s)),
    {
        proof {
            assert(schemas@[i as int]@ == ss[i as int]);
        }
        let node = render_schema_definition(&schemas[i]);
        proof {
            lemma_nodes_view_push(nodes@, node);
            assert(ss.take(i + 1).map_values(|s: SchemaView| render_schema(s)) =~= ss.take(i as int).map_values(
                |s: SchemaView| render_schema(s),
            ).push(render_schema(ss[i as int])));
        }
        nodes.push(node);
    }
    proof {
        assert(ss.take(ss.len() as int) =~= ss);
    }
    nodes
}

/// What a snapshot needs to be written and read back: schemas that can be written.
pub open spec fn snapshot_writable(d: DatabaseView) -> bool {
    &&& d.wf()
    &&& forall|i: int| 0 <= i < d.schemas.len() ==> #[trigger] schema_writable(d.schemas[i])
}

/// Reading back the nodes a snapshot is written as gives the same snapshot, provided
/// that its schemas can be written.
pub proof fn lemma_snapshot_roundtrip(d: DatabaseView)
    requires
        snapshot_writable(d),
    ensures
        all_readable(render_snapshot_spec(d)),
        load_nodes_spec(render_snapshot_spec(d)) == Ok::<DatabaseView, LoadErrorView>(d),
{
    let ns = render_snapshot_spec(d);
    assert forall|i: int| 0 <= i < ns.len() implies #[trigger] schema_readable(ns[i]) by {
        assert(schema_writable(d.schemas[i]));
        lemma_schema_roundtrip(d.schemas[i]);
    }
    lemma_snapshot_prefix(d, d.schemas.len() as int);
    assert(d.schemas.take(d.schemas.len() as int) =~= d.schemas);
    assert(ns.take(ns.len() as int) =~= ns);
}

proof fn lemma_snapshot_prefix(d: DatabaseView, k: int)
    requires
        snapshot_writable(d),
        0 <= k <= d.schemas.len(),
    ensures
        load_nodes_spec(render_snapshot_spec(d).take(k)) == Ok::<DatabaseView, LoadErrorView>(
            DatabaseView { schemas: d.schemas.take(k) },
        ),
    decreases k,
{
    let ns = render_snapshot_spec(d);
    if k == 0 {
        assert(ns.take(0) =~= Seq::<NodeView>::empty());
        assert(d.schemas.take(0) =~= Seq::<SchemaView>::empty());
    } else {
        lemma_snapshot_prefix(d, k - 1);
        assert(ns.take(k).drop_last() =~= ns.take(k - 1));
        let s = d.schemas[k - 1];
        assert(ns.take(k).last() == render_schema(s));
        assert(schema_writable(s));
        lemma_schema_roundtrip(s);
        let before = DatabaseView { schemas: d.schemas.take(k - 1) };
        assert(before.schema_names() =~= d.schema_names().take(k - 1));
        if before.has_schema(s.name) {
            let j = choose|j: int| 0 <= j < before.schema_names().len() && before.schema_names()[j] == s.name;
            assert(d.schema_names()[j] == d.schema_names()[k - 1]);
        }
        assert(d.schemas.take(k - 1).push(s) =~= d.schemas.take(k));
    }
}

} // verus!
