//! A version: its name, the version before it, the changes it makes, and the statements
//! that apply and revert them.
use vstd::prelude::*;
use crate::snapshot::changes::{Change, ChangeView, CreateSchemaChange, changes_view, apply_change, revert_change,
    change_sql};
use crate::snapshot::database::Database;
use crate::snapshot::SnapshotError;
#[allow(unused_imports)]
use vstd::view::View as ViewTrait;

verus! {

/// The name of the version that collects the changes not made into a version yet.
pub const STAGE: &'static str = "stage";

/// The name of the first version.
pub const INIT: &'static str = "init";

#[derive(Debug, PartialEq)]
pub struct Version {
    pub name: String,
    pub previous: Option<String>,
    pub changes: Vec<Change>,
    pub up: Vec<String>,
    pub down: Vec<String>,
}

pub ghost struct VersionView {
    pub name: Seq<char>,
    pub previous: Option<Seq<char>>,
    pub changes: Seq<ChangeView>,
    pub up: Seq<Seq<char>>,
    pub down: Seq<Seq<char>>,
}

impl vstd::view::View for Version {
    type V = VersionView;

    open spec fn view(&self) -> VersionView {
        VersionView {
            name: self.name@,
            previous: self.previous.deep_view(),
            changes: changes_view(self.changes@),
            up: self.up.deep_view(),
            down: self.down.deep_view(),
        }
    }
}

impl VersionView {
    pub open spec fn is_empty(self) -> bool {
        self.changes.len() == 0 && self.up.len() == 0 && self.down.len() == 0
    }

    /// The version with a change added after the others.
    pub open spec fn add_change(self, c: ChangeView) -> VersionView {
        VersionView { changes: self.changes.push(c), ..self }
    }

    /// The version with a statement that applies it added after the others.
    pub open spec fn add_up(self, up: Seq<char>) -> VersionView {
        VersionView { up: self.up.push(up), ..self }
    }

    /// The version with a statement that reverts it added before the others.
    pub open spec fn add_down(self, down: Seq<char>) -> VersionView {
        VersionView { down: seq![down] + self.down, ..self }
    }
}

impl Version {
    /// The first version: it creates the `public` schema.
    pub fn new_init() -> (r: Self)
        ensures
            r@ == (VersionView {
                name: "init"@,
                previous: None,
                changes: seq![ChangeView::CreateSchema { schema_name: "public"@ }],
                up: seq!["CREATE SCHEMA public;"@],
                down: seq!["DROP SCHEMA public;"@],
            }),
    {
        let mut changes: Vec<Change> = Vec::new();
        changes.push(Change::CreateSchema(CreateSchemaChange { schema_name: "public".to_string() }));
        let mut up: Vec<String> = Vec::new();
        up.push("CREATE SCHEMA public;".to_owned());
        let mut down: Vec<String> = Vec::new();
        down.push("DROP SCHEMA public;".to_owned());
        let v = Self { name: INIT.to_string(), previous: None, changes, up, down };
        assert(v@.changes =~= seq![ChangeView::CreateSchema { schema_name: "public"@ }]);
        assert(v@.up =~= seq!["CREATE SCHEMA public;"@]);
        assert(v@.down =~= seq!["DROP SCHEMA public;"@]);
        v
    }

    /// An empty stage that follows the given version.
    pub fn new_stage(previous: &str) -> (r: Self)
        ensures
            r@ == (VersionView {
                name: "stage"@,
                previous: Some(previous@),
                changes: Seq::empty(),
                up: Seq::empty(),
                down: Seq::empty(),
            }),
    {
        let v = Self {
            name: STAGE.to_string(),
            previous: Some(previous.to_owned()),
            changes: Vec::new(),
            up: Vec::new(),
            down: Vec::new(),
        };
        assert(v@.changes =~= Seq::<ChangeView>::empty());
        assert(v@.up =~= Seq::<Seq<char>>::empty());
        assert(v@.down =~= Seq::<Seq<char>>::empty());
        v
    }

    /// Adds a change after the others.
    pub fn add_change(&mut self, change: Change)
        ensures
            final(self)@ == old(self)@.add_change(change@),
    {
        self.changes.push(change);
        assert(final(self)@.changes =~= old(self)@.changes.push(change@));
    }

    /// Adds a statement that applies the version, after the others.
    pub fn add_up(&mut self, up: &str)
        ensures
            final(self)@ == old(self)@.add_up(up@),
    {
        self.up.push(up.to_owned());
        assert(final(self)@.up =~= old(self)@.up.push(up@));
    }

    /// Adds a statement that reverts the version, before the others: the statements that
    /// revert run in the reverse order of the changes they undo.
    pub fn add_down(&mut self, down: &str)
        ensures
            final(self)@ == old(self)@.add_down(down@),
    {
        let mut previous: Vec<String> = Vec::new();
        std::mem::swap(&mut previous, &mut self.down);
        let mut downs: Vec<String> = Vec::new();
        downs.push(down.to_owned());
        downs.append(&mut previous);
        self.down = downs;
        assert(final(self)@.down =~= seq![down@] + old(self)@.down);
    }

    /// Forgets the changes and statements, keeping the name and the previous version.
    pub fn reset(&mut self)
        ensures
            final(self)@ == (VersionView { changes: Seq::empty(), up: Seq::empty(), down: Seq::empty(), ..old(self)@ }),
    {
        self.changes = Vec::new();
        self.up = Vec::new();
        self.down = Vec::new();
        assert(final(self)@.changes =~= Seq::<ChangeView>::empty());
        assert(final(self)@.up =~= Seq::<Seq<char>>::empty());
        assert(final(self)@.down =~= Seq::<Seq<char>>::empty());
    }

    /// The version to go down to from this one: the version asked for, or else the
    /// previous version; `None` when none is asked for and this is the first version.
    pub fn down_target(&self, version: Option<&str>) -> (r: Option<String>)
        ensures
            match version {
                Some(v) => r matches Some(t) && t@ == v@,
                None => match self.previous {
                    Some(p) => r matches Some(t) && t@ == p@,
                    None => r is None,
                },
            },
    {
        match version {
            Some(v) => Some(v.to_owned()),
            None => match &self.previous {
                Some(p) => Some(p.clone()),
                None => None,
            },
        }
    }

    pub fn is_empty(&self) -> (r: bool)
        ensures
            r == self@.is_empty(),
    {
        self.changes.len() == 0 && self.up.len() == 0 && self.down.len() == 0
    }
}

/// A version that is reset is empty, and keeps its name and previous version; a new stage
/// is empty.
pub proof fn lemma_reset_is_empty(v: VersionView, previous: Seq<char>)
    ensures
        (VersionView { changes: Seq::empty(), up: Seq::empty(), down: Seq::empty(), ..v }).is_empty(),
        (VersionView { name: "stage"@, previous: Some(previous), changes: Seq::empty(), up: Seq::empty(), down: Seq::empty() }).is_empty(),
{
}

/// The statements that apply a version, added one after the other with `add_up`, and
/// those that revert it, added with `add_down`, a pair at a time.
pub open spec fn staged(v: VersionView, steps: Seq<(Seq<char>, Seq<char>)>) -> VersionView
    decreases steps.len(),
{
    if steps.len() == 0 {
        v
    } else {
        staged(v, steps.drop_last()).add_up(steps.last().0).add_down(steps.last().1)
    }
}

/// After staging pairs of statements, the statements that apply come in the order they
/// were staged, and the statements that revert come in the reverse order, before those
/// that were there.
pub proof fn lemma_staged_order(v: VersionView, steps: Seq<(Seq<char>, Seq<char>)>)
    ensures
        staged(v, steps).up == v.up + steps.map_values(|p: (Seq<char>, Seq<char>)| p.0),
        staged(v, steps).down == Seq::new(steps.len(), |i: int| steps[steps.len() - 1 - i].1) + v.down,
        staged(v, steps).name == v.name,
        staged(v, steps).previous == v.previous,
        staged(v, steps).changes == v.changes,
    decreases steps.len(),
{
    if steps.len() > 0 {
        let rest = steps.drop_last();
        lemma_staged_order(v, rest);
        assert(steps.map_values(|p: (Seq<char>, Seq<char>)| p.0) =~= rest.map_values(|p: (Seq<char>, Seq<char>)| p.0).push(steps.last().0));
        assert(Seq::new(steps.len(), |i: int| steps[steps.len() - 1 - i].1) =~= seq![steps.last().1] + Seq::new(rest.len(), |i: int| rest[rest.len() - 1 - i].1));
        assert(v.up + steps.map_values(|p: (Seq<char>, Seq<char>)| p.0) =~= (v.up + rest.map_values(|p: (Seq<char>, Seq<char>)| p.0)).push(steps.last().0));
        assert(Seq::new(steps.len(), |i: int| steps[steps.len() - 1 - i].1) + v.down =~= seq![steps.last().1] + (Seq::new(rest.len(), |i: int| rest[rest.len() - 1 - i].1) + v.down));
    }
}

/// A run of calls that each add a statement that applies the version and then one that
/// reverts it, from the version `vs[0]` through `vs[1]`, `vs[2]`, ...: the version it ends
/// with is the version staged with those pairs. So the statements that apply come in the
/// order they were added, after those that were there; the statements that revert come
/// in the reverse order, before those that were there; and the name, the previous version
/// and the changes stay as they were.
pub proof fn lemma_run_of_adds(vs: Seq<VersionView>, steps: Seq<(Seq<char>, Seq<char>)>)
    requires
        vs.len() == steps.len() + 1,
        forall|i: int| #![trigger vs[i], steps[i]] 0 <= i < steps.len() ==> vs[i + 1] == vs[i].add_up(steps[i].0).add_down(steps[i].1),
    ensures
        vs.last() == staged(vs[0], steps),
        vs.last().up == vs[0].up + steps.map_values(|p: (Seq<char>, Seq<char>)| p.0),
        vs.last().down == Seq::new(steps.len(), |i: int| steps[steps.len() - 1 - i].1) + vs[0].down,
        vs.last().name == vs[0].name,
        vs.last().previous == vs[0].previous,
        vs.last().changes == vs[0].changes,
    decreases steps.len(),
{
    if steps.len() > 0 {
        let n = steps.len() - 1;
        assert forall|i: int| #![trigger vs.drop_last()[i], steps.drop_last()[i]] 0 <= i < n implies
            vs.drop_last()[i + 1] == vs.drop_last()[i].add_up(steps.drop_last()[i].0).add_down(steps.drop_last()[i].1) by {
            assert(vs[i + 1] == vs[i].add_up(steps[i].0).add_down(steps[i].1));
        }
        lemma_run_of_adds(vs.drop_last(), steps.drop_last());
        assert(vs[n + 1] == vs[n].add_up(steps[n].0).add_down(steps[n].1));
    }
    lemma_staged_order(vs[0], steps);
}

/// Stages a change made on the snapshot `source`: adds the change, the statement that
/// applies it and the statement that reverts it, the one that the snapshot before the
/// change gives, then applies it to `source`. A change that the snapshot refuses leaves
/// the stage and the snapshot as they were and gives the snapshot's error. The change's
/// revert must be found on `source`.
pub fn stage_change(stage: &mut Version, source: &mut Database, change: Change) -> (r: Result<(), SnapshotError>)
    requires
        revert_change(old(source)@, change@) is Ok,
    ensures
        match apply_change(old(source)@, change@) {
            Ok(d) => {
                &&& r is Ok
                &&& final(source)@ == d
                &&& final(stage)@ == old(stage)@.add_change(change@).add_up(change_sql(change@)).add_down(
                    change_sql(revert_change(old(source)@, change@)->Ok_0),
                )
            },
            Err(e) => r is Err && r->Err_0@ == e && final(source)@ == old(source)@ && final(stage)@ == old(stage)@,
        },
{
    let up = change.render_sql();
    let down = match change.revert(&*source) {
        Ok(c) => c.render_sql(),
        Err(e) => return Err(e),
    };
    match change.apply(source) {
        Ok(()) => {},
        Err(e) => return Err(e),
    }
    stage.add_change(change);
    stage.add_up(up.as_str());
    stage.add_down(down.as_str());
    Ok(())
}

} // verus!
