//! Changes between snapshots, at the level of schemas: what applies them, what undoes
//! them, the SQL that performs them, and the changes that lead from one snapshot to
//! another.
use vstd::prelude::*;
use super::{Schema, SchemaView, SnapshotError, SnapshotErrorView, has_name, distinct_names, name_index,
    lemma_name_index_unique, lemma_distinct_push};
use super::database::{Database, DatabaseView};
#[allow(unused_imports)]
use vstd::view::View as ViewTrait;

verus! {

#[derive(Debug, PartialEq)]
pub struct CreateSchemaChange {
    pub schema_name: String,
}

#[derive(Debug, PartialEq)]
pub struct DropSchemaChange {
    pub schema_name: String,
}

#[derive(Debug, PartialEq)]
pub enum Change {
    CreateSchema(CreateSchemaChange),
    DropSchema(DropSchemaChange),
}

pub ghost enum ChangeView {
    CreateSchema { schema_name: Seq<char> },
    DropSchema { schema_name: Seq<char> },
}

impl vstd::view::View for Change {
    type V = ChangeView;

    open spec fn view(&self) -> ChangeView {
        match self {
            Change::CreateSchema(c) => ChangeView::CreateSchema { schema_name: c.schema_name@ },
            Change::DropSchema(c) => ChangeView::DropSchema { schema_name: c.schema_name@ },
        }
    }
}

/// An empty schema of the given name.
pub open spec fn empty_schema(name: Seq<char>) -> SchemaView {
    SchemaView { name, relations: Seq::empty(), functions: Seq::empty() }
}

/// The database a change leads to, or the error that refuses it.
pub open spec fn apply_change(d: DatabaseView, c: ChangeView) -> Result<DatabaseView, SnapshotErrorView> {
    match c {
        ChangeView::CreateSchema { schema_name } => d.add_schema(empty_schema(schema_name)),
        ChangeView::DropSchema { schema_name } => d.remove_schema(schema_name),
    }
}

/// The change that undoes a change made on the given database.
pub open spec fn revert_change(d: DatabaseView, c: ChangeView) -> Result<ChangeView, SnapshotErrorView> {
    match c {
        ChangeView::CreateSchema { schema_name } => Ok(ChangeView::DropSchema { schema_name }),
        ChangeView::DropSchema { schema_name } => if d.has_schema(schema_name) {
            Ok(ChangeView::CreateSchema { schema_name })
        } else {
            Err(SnapshotErrorView::SchemaNotFound { schema: schema_name })
        },
    }
}

/// The SQL statement that performs a change.
pub open spec fn change_sql(c: ChangeView) -> Seq<char> {
    match c {
        ChangeView::CreateSchema { schema_name } => "CREATE SCHEMA "@ + schema_name + ";"@,
        ChangeView::DropSchema { schema_name } => "DROP SCHEMA "@ + schema_name + ";"@,
    }
}

/// What a change is about.
pub open spec fn change_display_name(c: ChangeView) -> Seq<char> {
    match c {
        ChangeView::CreateSchema { schema_name } => "schema "@ + schema_name,
        ChangeView::DropSchema { schema_name } => "schema "@ + schema_name,
    }
}

/// Applying changes one after the other, until one is refused.
pub open spec fn apply_changes(d: DatabaseView, cs: Seq<ChangeView>) -> Result<DatabaseView, SnapshotErrorView>
    decreases cs.len(),
{
    if cs.len() == 0 {
        Ok(d)
    } else {
        match apply_changes(d, cs.drop_last()) {
            Ok(d1) => apply_change(d1, cs.last()),
            Err(e) => Err(e),
        }
    }
}

impl Change {
    pub fn apply(&self, database: &mut Database) -> (r: Result<(), SnapshotError>)
        ensures
            match apply_change(old(database)@, self@) {
                Ok(d) => r is Ok && final(database)@ == d,
                Err(e) => r is Err && r->Err_0@ == e && final(database)@ == old(database)@,
            },
    {
        match self {
            Change::CreateSchema(c) => database.add_schema(Schema::new(c.schema_name.as_str())),
            Change::DropSchema(c) => database.remove_schema(c.schema_name.as_str()),
        }
    }

    pub fn revert(&self, database: &Database) -> (r: Result<Change, SnapshotError>)
        ensures
            match revert_change(database@, self@) {
                Ok(c) => r is Ok && r->Ok_0@ == c,
                Err(e) => r is Err && r->Err_0@ == e,
            },
    {
        match self {
            Change::CreateSchema(c) => Ok(Change::DropSchema(DropSchemaChange { schema_name: c.schema_name.clone() })),
            Change::DropSchema(c) => if database.has_schema(c.schema_name.as_str()) {
                Ok(Change::CreateSchema(CreateSchemaChange { schema_name: c.schema_name.clone() }))
            } else {
                Err(SnapshotError::SchemaNotFound { schema: c.schema_name.clone() })
            },
        }
    }

    pub fn render_sql(&self) -> (r: String)
        ensures
            r@ == change_sql(self@),
    {
        match self {
            Change::CreateSchema(c) => {
                let mut s = "CREATE SCHEMA ".to_owned();
                s.append(c.schema_name.as_str());
                s.append(";");
                s
            },
            Change::DropSchema(c) => {
                let mut s = "DROP SCHEMA ".to_owned();
                s.append(c.schema_name.as_str());
                s.append(";");
                s
            },
        }
    }

    pub fn display_name(&self) -> (r: String)
        ensures
            r@ == change_display_name(self@),
    {
        let mut s = "schema ".to_owned();
        match self {
            Change::CreateSchema(c) => s.append(c.schema_name.as_str()),
            Change::DropSchema(c) => s.append(c.schema_name.as_str()),
        }
        s
    }
}

/// The changes that lead from `source` to `target`: a creation for each schema of the
/// target that the source lacks, in the target's order, then a removal for each schema
/// of the source that the target lacks, in the source's order.
pub open spec fn diff(source: DatabaseView, target: DatabaseView) -> Seq<ChangeView> {
    creations(source, target.schemas) + removals(target, source.schemas)
}

pub open spec fn creations(source: DatabaseView, ss: Seq<SchemaView>) -> Seq<ChangeView>
    decreases ss.len(),
{
    if ss.len() == 0 {
        Seq::empty()
    } else if source.has_schema(ss.last().name) {
        creations(source, ss.drop_last())
    } else {
        creations(source, ss.drop_last()).push(ChangeView::CreateSchema { schema_name: ss.last().name })
    }
}

pub open spec fn removals(target: DatabaseView, ss: Seq<SchemaView>) -> Seq<ChangeView>
    decreases ss.len(),
{
    if ss.len() == 0 {
        Seq::empty()
    } else if target.has_schema(ss.last().name) {
        removals(target, ss.drop_last())
    } else {
        removals(target, ss.drop_last()).push(ChangeView::DropSchema { schema_name: ss.last().name })
    }
}

pub open spec fn changes_view(cs: Seq<Change>) -> Seq<ChangeView> {
    cs.map_values(|c: Change| c@)
}

pub fn compare_diff(source: &Database, target: &Database) -> (r: Vec<Change>)
    ensures
        changes_view(r@) == diff(source@, target@),
{
    let mut changes: Vec<Change> = Vec::new();
    let ts = target.iter_schemas();
    for i in 0..ts.len()
        invariant
            ts@.map_values(|s: Schema| s@) == target@.schemas,
            changes_view(changes@) == creations(source@, target@.schemas.take(i as int)),
    {
        let name = ts[i].name();
        proof {
            assert(ts@[i as int]@ == target@.schemas[i as int]);
            assert(target@.schemas.take(i + 1).drop_last() =~= target@.schemas.take(i as int));
        }
        let ghost before = changes@;
        if !source.has_schema(name.as_str()) {
            changes.push(Change::CreateSchema(CreateSchemaChange { schema_name: name.clone() }));
            assert(changes_view(changes@) =~= changes_view(before).push(changes@.last()@));
        }
    }
    proof {
        assert(target@.schemas.take(target@.schemas.len() as int) =~= target@.schemas);
    }
    let ghost made = changes_view(changes@);
    let ss = source.iter_schemas();
    for i in 0..ss.len()
        invariant
            ss@.map_values(|s: Schema| s@) == source@.schemas,
            changes_view(changes@) == made + removals(target@, source@.schemas.take(i as int)),
    {
        let name = ss[i].name();
        proof {
            assert(ss@[i as int]@ == source@.schemas[i as int]);
            assert(source@.schemas.take(i + 1).drop_last() =~= source@.schemas.take(i as int));
        }
        let ghost before = changes@;
        if !target.has_schema(name.as_str()) {
            changes.push(Change::DropSchema(DropSchemaChange { schema_name: name.clone() }));
            assert(changes_view(changes@) =~= changes_view(before).push(changes@.last()@));
        }
    }
    proof {
        assert(source@.schemas.take(source@.schemas.len() as int) =~= source@.schemas);
    }
    changes
}

/// Creating a schema the database lacks and then applying the change that undoes it
/// gives back the database.
pub proof fn lemma_revert_create(d: DatabaseView, name: Seq<char>)
    requires
        d.wf(),
        !d.has_schema(name),
    ensures
        ({
            let c = ChangeView::CreateSchema { schema_name: name };
            &&& apply_change(d, c) is Ok
            &&& revert_change(d, c) is Ok
            &&& apply_change(apply_change(d, c)->Ok_0, revert_change(d, c)->Ok_0) == Ok::<DatabaseView, SnapshotErrorView>(d)
        }),
{
    let c = ChangeView::CreateSchema { schema_name: name };
    let d1 = apply_change(d, c)->Ok_0;
    assert(d1.schemas == d.schemas.push(empty_schema(name)));
    let names1 = d1.schema_names();
    assert(names1 =~= d.schema_names().push(name));
    let k = d.schemas.len() as int;
    assert(names1[k] == name);
    assert(d1.has_schema(name));
    super::lemma_distinct_push(d.schema_names(), name);
    super::lemma_name_index_unique(names1, name, k);
    assert(d1.schemas.remove(k) =~= d.schemas);
}

/// The names a list holds, as a set.
pub open spec fn name_set(names: Seq<Seq<char>>) -> Set<Seq<char>> {
    Set::new(|x: Seq<char>| has_name(names, x))
}

/// Applying changes and then more changes is applying them all.
pub proof fn lemma_apply_changes_concat(d: DatabaseView, p: Seq<ChangeView>, q: Seq<ChangeView>)
    ensures
        apply_changes(d, p + q) == match apply_changes(d, p) {
            Ok(d1) => apply_changes(d1, q),
            Err(e) => Err(e),
        },
    decreases q.len(),
{
    if q.len() == 0 {
        assert(p + q =~= p);
    } else {
        lemma_apply_changes_concat(d, p, q.drop_last());
        assert((p + q).drop_last() =~= p + q.drop_last());
        assert((p + q).last() == q.last());
    }
}

/// The empty schemas the creations of a diff add: one for each schema the source lacks.
pub open spec fn created(source: DatabaseView, ts: Seq<SchemaView>) -> Seq<SchemaView>
    decreases ts.len(),
{
    if ts.len() == 0 {
        Seq::empty()
    } else if source.has_schema(ts.last().name) {
        created(source, ts.drop_last())
    } else {
        created(source, ts.drop_last()).push(empty_schema(ts.last().name))
    }
}

proof fn lemma_creations(source: DatabaseView, target: DatabaseView, k: int)
    requires
        source.wf(),
        target.wf(),
        0 <= k <= target.schemas.len(),
    ensures
        ({
            let d = DatabaseView { schemas: source.schemas + created(source, target.schemas.take(k)) };
            &&& apply_changes(source, creations(source, target.schemas.take(k))) == Ok::<DatabaseView, SnapshotErrorView>(d)
            &&& d.wf()
            &&& name_set(d.schema_names()) == name_set(source.schema_names()).union(name_set(target.schema_names().take(k)))
        }),
    decreases k,
{
    let ts = target.schemas.take(k);
    let d = DatabaseView { schemas: source.schemas + created(source, ts) };
    if k == 0 {
        assert(ts =~= Seq::<SchemaView>::empty());
        assert(d.schemas =~= source.schemas);
        assert(name_set(d.schema_names()) =~= name_set(source.schema_names()).union(name_set(target.schema_names().take(k))));
    } else {
        lemma_creations(source, target, k - 1);
        let prev = target.schemas.take(k - 1);
        assert(ts.drop_last() =~= prev);
        let t = target.schemas[k - 1];
        assert(ts.last() == t);
        let dp = DatabaseView { schemas: source.schemas + created(source, prev) };
        let tn = target.schema_names();
        assert(tn.take(k) =~= tn.take(k - 1).push(t.name));
        assert(tn.take(k - 1) =~= prev.map_values(|s: SchemaView| s.name));
        if source.has_schema(t.name) {
            assert(d == dp);
            assert(name_set(d.schema_names()) =~= name_set(source.schema_names()).union(name_set(tn.take(k))));
        } else {
            assert(!dp.has_schema(t.name)) by {
                if dp.has_schema(t.name) {
                    assert(name_set(dp.schema_names()).contains(t.name));
                    assert(has_name(tn.take(k - 1), t.name));
                    let j = name_index(tn.take(k - 1), t.name);
super::lemma_name_index(tn.take(k - 1), t.name);
                    assert(tn[j] == tn[k - 1]);
                }
            }
            let c = ChangeView::CreateSchema { schema_name: t.name };
            assert(creations(source, ts) == creations(source, prev).push(c));
            assert(creations(source, ts).drop_last() =~= creations(source, prev));
            assert(d.schemas =~= dp.schemas.push(empty_schema(t.name)));
            assert(d.schema_names() =~= dp.schema_names().push(t.name));
            super::lemma_distinct_push(dp.schema_names(), t.name);
            assert forall|x: Seq<char>| name_set(d.schema_names()).contains(x) <==> name_set(source.schema_names()).union(name_set(tn.take(k))).contains(x) by {
                if x == t.name {
                    assert(d.schema_names()[d.schema_names().len() - 1] == x);
                    assert(tn.take(k)[k - 1] == x);
                } else {
                    assert(name_set(dp.schema_names()).contains(x) == (name_set(source.schema_names()).contains(x)
                        || name_set(tn.take(k - 1)).contains(x)));
                    if has_name(d.schema_names(), x) {
                        let j = name_index(d.schema_names(), x);
super::lemma_name_index(d.schema_names(), x);
                        assert(j < dp.schema_names().len());
                        assert(dp.schema_names()[j] == x);
                    }
                    if has_name(dp.schema_names(), x) {
                        let j = name_index(dp.schema_names(), x);
super::lemma_name_index(dp.schema_names(), x);
                        assert(d.schema_names()[j] == x);
                    }
                    if has_name(tn.take(k), x) {
                        let j = name_index(tn.take(k), x);
super::lemma_name_index(tn.take(k), x);
                        assert(j < k - 1);
                        assert(tn.take(k - 1)[j] == x);
                    }
                    if has_name(tn.take(k - 1), x) {
                        let j = name_index(tn.take(k - 1), x);
super::lemma_name_index(tn.take(k - 1), x);
                        assert(tn.take(k)[j] == x);
                    }
                }
            }
            assert(name_set(d.schema_names()) =~= name_set(source.schema_names()).union(name_set(tn.take(k))));
        }
    }
}

/// The names of the source that the target lacks, among the first ones.
pub open spec fn dropped(source: DatabaseView, target: DatabaseView, m: int) -> Set<Seq<char>> {
    Set::new(|x: Seq<char>| has_name(source.schema_names().take(m), x) && !target.has_schema(x))
}

proof fn lemma_remove_name(names: Seq<Seq<char>>, i: int)
    requires
        distinct_names(names),
        0 <= i < names.len(),
    ensures
        distinct_names(names.remove(i)),
        name_set(names.remove(i)) == name_set(names).remove(names[i]),
{
    let after = names.remove(i);
    assert forall|a: int, b: int| 0 <= a < b < after.len() implies after[a] != after[b] by {
        let a2 = if a < i { a } else { a + 1 };
        let b2 = if b < i { b } else { b + 1 };
        assert(after[a] == names[a2]);
        assert(after[b] == names[b2]);
    }
    assert forall|x: Seq<char>| name_set(after).contains(x) <==> name_set(names).remove(names[i]).contains(x) by {
        if has_name(after, x) {
            let j = name_index(after, x);
super::lemma_name_index(after, x);
            let j2 = if j < i { j } else { j + 1 };
            assert(names[j2] == x);
            assert(j2 != i);
        }
        if has_name(names, x) && x != names[i] {
            let j = name_index(names, x);
super::lemma_name_index(names, x);
            assert(j != i);
            let j2 = if j < i { j } else { j - 1 };
            assert(after[j2] == x);
        }
    }
    assert(name_set(after) =~= name_set(names).remove(names[i]));
}

proof fn lemma_removals(source: DatabaseView, target: DatabaseView, d: DatabaseView, m: int)
    requires
        source.wf(),
        target.wf(),
        d.wf(),
        name_set(d.schema_names()) == name_set(source.schema_names()).union(name_set(target.schema_names())),
        0 <= m <= source.schemas.len(),
    ensures
        apply_changes(d, removals(target, source.schemas.take(m))) is Ok,
        ({
            let e = apply_changes(d, removals(target, source.schemas.take(m)))->Ok_0;
            &&& e.wf()
            &&& name_set(e.schema_names()) == name_set(d.schema_names()).difference(dropped(source, target, m))
        }),
    decreases m,
{
    let sn = source.schema_names();
    if m == 0 {
        assert(source.schemas.take(0) =~= Seq::<SchemaView>::empty());
        assert(dropped(source, target, 0) =~= Set::<Seq<char>>::empty());
        assert(name_set(d.schema_names()).difference(dropped(source, target, 0)) =~= name_set(d.schema_names()));
    } else {
        lemma_removals(source, target, d, m - 1);
        let prev = source.schemas.take(m - 1);
        let ss = source.schemas.take(m);
        assert(ss.drop_last() =~= prev);
        let s = source.schemas[m - 1];
        assert(ss.last() == s);
        assert(sn.take(m) =~= sn.take(m - 1).push(s.name));
        let e = apply_changes(d, removals(target, prev))->Ok_0;
        if target.has_schema(s.name) {
            assert(removals(target, ss) == removals(target, prev));
            assert(dropped(source, target, m) =~= dropped(source, target, m - 1)) by {
                assert forall|x: Seq<char>| dropped(source, target, m).contains(x) implies dropped(source, target, m - 1).contains(x) by {
                    let j = name_index(sn.take(m), x);
super::lemma_name_index(sn.take(m), x);
                    if j < m - 1 {
                        assert(sn.take(m - 1)[j] == x);
                    }
                }
                assert forall|x: Seq<char>| dropped(source, target, m - 1).contains(x) implies dropped(source, target, m).contains(x) by {
                    let j = name_index(sn.take(m - 1), x);
super::lemma_name_index(sn.take(m - 1), x);
                    assert(sn.take(m)[j] == x);
                }
            }
        } else {
            let c = ChangeView::DropSchema { schema_name: s.name };
            assert(removals(target, ss) == removals(target, prev).push(c));
            assert(removals(target, ss).drop_last() =~= removals(target, prev));
            // The name is still there: it is a name of the source that was not dropped before.
            assert(sn[m - 1] == s.name);
            assert(name_set(d.schema_names()).contains(s.name)) by {
                assert(has_name(sn, s.name));
            }
            assert(!dropped(source, target, m - 1).contains(s.name)) by {
                if has_name(sn.take(m - 1), s.name) {
                    let j = name_index(sn.take(m - 1), s.name);
super::lemma_name_index(sn.take(m - 1), s.name);
                    assert(sn[j] == sn[m - 1]);
                }
            }
            assert(name_set(e.schema_names()).contains(s.name));
            assert(e.has_schema(s.name));
            let i = e.schema_index(s.name);
            super::lemma_name_index(e.schema_names(), s.name);
            lemma_remove_name(e.schema_names(), i);
            let e2 = DatabaseView { schemas: e.schemas.remove(i) };
            assert(e2.schema_names() =~= e.schema_names().remove(i));
            assert(apply_change(e, c) == Ok::<DatabaseView, SnapshotErrorView>(e2));
            assert(dropped(source, target, m) =~= dropped(source, target, m - 1).insert(s.name)) by {
                assert forall|x: Seq<char>| dropped(source, target, m).contains(x) implies dropped(source, target, m - 1).insert(s.name).contains(x) by {
                    let j = name_index(sn.take(m), x);
super::lemma_name_index(sn.take(m), x);
                    if j < m - 1 {
                        assert(sn.take(m - 1)[j] == x);
                    }
                }
                assert forall|x: Seq<char>| dropped(source, target, m - 1).insert(s.name).contains(x) implies dropped(source, target, m).contains(x) by {
                    if x == s.name {
                        assert(sn.take(m)[m - 1] == x);
                    } else {
                        let j = name_index(sn.take(m - 1), x);
super::lemma_name_index(sn.take(m - 1), x);
                        assert(sn.take(m)[j] == x);
                    }
                }
            }
            assert(name_set(e2.schema_names()) =~= name_set(d.schema_names()).difference(dropped(source, target, m)));
        }
    }
}

/// Applying the changes that lead from a source to a target gives a database with the
/// schemas the target names, and no other.
pub proof fn lemma_diff_reaches_target(source: DatabaseView, target: DatabaseView)
    requires
        source.wf(),
        target.wf(),
    ensures
        apply_changes(source, diff(source, target)) is Ok,
        name_set(apply_changes(source, diff(source, target))->Ok_0.schema_names()) == name_set(target.schema_names()),
{
    let n = target.schemas.len() as int;
    lemma_creations(source, target, n);
    assert(target.schemas.take(n) =~= target.schemas);
    assert(target.schema_names().take(n) =~= target.schema_names());
    let d = DatabaseView { schemas: source.schemas + created(source, target.schemas) };
    let m = source.schemas.len() as int;
    lemma_removals(source, target, d, m);
    assert(source.schemas.take(m) =~= source.schemas);
    lemma_apply_changes_concat(source, creations(source, target.schemas), removals(target, source.schemas));
    let e = apply_changes(d, removals(target, source.schemas))->Ok_0;
    assert(source.schema_names().take(m) =~= source.schema_names());
    assert forall|x: Seq<char>| name_set(e.schema_names()).contains(x) <==> name_set(target.schema_names()).contains(x) by {
        assert(dropped(source, target, m).contains(x) <==> (has_name(source.schema_names(), x) && !target.has_schema(x)));
    }
    assert(name_set(e.schema_names()) =~= name_set(target.schema_names()));
}

proof fn lemma_creations_of_own(d: DatabaseView, ss: Seq<SchemaView>)
    requires
        forall|i: int| 0 <= i < ss.len() ==> d.has_schema(#[trigger] ss[i].name),
    ensures
        creations(d, ss) == Seq::<ChangeView>::empty(),
        removals(d, ss) == Seq::<ChangeView>::empty(),
    decreases ss.len(),
{
    if ss.len() > 0 {
        let rest = ss.drop_last();
        assert forall|i: int| 0 <= i < rest.len() implies d.has_schema(#[trigger] rest[i].name) by {
            assert(rest[i] == ss[i]);
        }
        lemma_creations_of_own(d, rest);
        assert(d.has_schema(ss[ss.len() - 1].name));
    }
}

/// A snapshot differs from itself by no change.
pub proof fn lemma_diff_of_same_is_empty(d: DatabaseView)
    ensures
        diff(d, d) == Seq::<ChangeView>::empty(),
{
    assert forall|i: int| 0 <= i < d.schemas.len() implies d.has_schema(#[trigger] d.schemas[i].name) by {
        assert(d.schema_names()[i] == d.schemas[i].name);
    }
    lemma_creations_of_own(d, d.schemas);
    assert(diff(d, d) =~= Seq::<ChangeView>::empty());
}

} // verus!
