//! The snapshot a history reaches: the changes of its versions applied in order to an
//! empty database.
use vstd::prelude::*;
use crate::snapshot::{SnapshotError, SnapshotErrorView};
use crate::snapshot::changes::{ChangeView, apply_changes};
use crate::snapshot::database::{Database, DatabaseView};
use super::version::{Version, VersionView};
#[allow(unused_imports)]
use vstd::view::View as ViewTrait;

verus! {

/// The changes of the versions, one version after the other.
pub open spec fn all_changes(vs: Seq<VersionView>) -> Seq<ChangeView>
    decreases vs.len(),
{
    if vs.len() == 0 {
        Seq::empty()
    } else {
        all_changes(vs.drop_last()) + vs.last().changes
    }
}

pub open spec fn versions_view(vs: Seq<Version>) -> Seq<VersionView> {
    vs.map_values(|v: Version| v@)
}

pub open spec fn empty_database() -> DatabaseView {
    DatabaseView { schemas: Seq::empty() }
}

/// Once a change is refused, applying more changes gives the same error.
pub proof fn lemma_apply_changes_stops(d: DatabaseView, p: Seq<ChangeView>, q: Seq<ChangeView>)
    requires
        apply_changes(d, p) is Err,
    ensures
        apply_changes(d, p + q) == apply_changes(d, p),
    decreases q.len(),
{
    if q.len() == 0 {
        assert(p + q =~= p);
    } else {
        lemma_apply_changes_stops(d, p, q.drop_last());
        assert((p + q).drop_last() =~= p + q.drop_last());
    }
}

/// Applies the changes of the versions, in order, to an empty database; the first change
/// refused stops it with its error.
pub fn calculate_snapshot(versions: &Vec<Version>) -> (r: Result<Database, SnapshotError>)
    ensures
        match apply_changes(empty_database(), all_changes(versions_view(versions@))) {
            Ok(d) => r is Ok && r->Ok_0@ == d,
            Err(e) => r is Err && r->Err_0@ == e,
        },
{
    let ghost vs = versions_view(versions@);
    let mut snapshot = Database::new();
    assert(snapshot@ == empty_database());
    for i in 0..versions.len()
        invariant
            vs == versions_view(versions@),
            apply_changes(empty_database(), all_changes(vs.take(i as int))) == Ok::<DatabaseView, SnapshotErrorView>(snapshot@),
    {
        let version = &versions[i];
        let ghost done = all_changes(vs.take(i as int));
        proof {
            assert(vs.take(i + 1).drop_last() =~= vs.take(i as int));
            assert(vs[i as int] == version@);
        }
        for j in 0..version.changes.len()
            invariant
                vs == versions_view(versions@),
                vs.len() == versions@.len(),
                i < vs.len(),
                version@ == vs[i as int],
                done == all_changes(vs.take(i as int)),
                all_changes(vs.take(i + 1)) == done + version@.changes,
                apply_changes(empty_database(), done + version@.changes.take(j as int)) == Ok::<DatabaseView, SnapshotErrorView>(snapshot@),
        {
            let change = &version.changes[j];
            let ghost p = done + version@.changes.take(j as int);
            proof {
                assert((done + version@.changes.take(j + 1)).drop_last() =~= p);
                assert(version@.changes[j as int] == change@);
                assert((done + version@.changes.take(j + 1)).last() == change@);
            }
            let applied = change.apply(&mut snapshot);
            if let Err(e) = applied {
                proof {
                    let all = all_changes(vs);
                    let rest_of_version = version@.changes.subrange(j + 1, version@.changes.len() as int);
                    let later = all_changes(vs.take(i + 1));
                    let tail = lemma_all_changes_prefix(vs, i + 1);
                    let q = done + version@.changes.take(j + 1);
                    assert(later =~= q + rest_of_version);
                    lemma_apply_changes_stops(empty_database(), q, rest_of_version + tail);
                    assert(all =~= q + (rest_of_version + tail));
                }
                return Err(e);
            }
        }
        proof {
            assert(version@.changes.take(version@.changes.len() as int) =~= version@.changes);
        }
    }
    proof {
        assert(vs.take(vs.len() as int) =~= vs);
    }
    Ok(snapshot)
}

/// The changes of the first versions come first among the changes of all of them.
pub proof fn lemma_all_changes_prefix(vs: Seq<VersionView>, k: int) -> (t: Seq<ChangeView>)
    requires
        0 <= k <= vs.len(),
    ensures
        all_changes(vs) == all_changes(vs.take(k)) + t,
    decreases vs.len() - k,
{
    if k == vs.len() {
        assert(vs.take(k) =~= vs);
        assert(all_changes(vs) =~= all_changes(vs.take(k)) + Seq::<ChangeView>::empty());
        Seq::empty()
    } else {
        let t = lemma_all_changes_prefix(vs, k + 1);
        assert(vs.take(k + 1).drop_last() =~= vs.take(k));
        let t2 = vs[k].changes + t;
        assert(all_changes(vs) =~= all_changes(vs.take(k)) + t2);
        t2
    }
}

} // verus!
