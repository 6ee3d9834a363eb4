//! The history kept as files: one YAML file per version in a directory, each version
//! naming the one before it.
use vstd::prelude::*;
use crate::path::{join_path, joined};
use crate::snapshot::{distinct_names, has_name, name_index, lemma_name_index_unique, lemma_distinct_push};
use crate::text::{str_eq, chars_of, string_of};
use super::version::{Version, INIT};
#[allow(unused_imports)]
use vstd::view::View as ViewTrait;

verus! {

pub struct FSHistory {
    pub dir: String,
    pub next_map: Vec<(String, String)>,
    pub current_version: String,
}

pub ghost struct FSHistoryView {
    pub dir: Seq<char>,
    pub next_map: Seq<(Seq<char>, Seq<char>)>,
    pub current_version: Seq<char>,
}

impl vstd::view::View for FSHistory {
    type V = FSHistoryView;

    open spec fn view(&self) -> FSHistoryView {
        FSHistoryView {
            dir: self.dir@,
            next_map: self.next_map@.map_values(|p: (String, String)| (p.0@, p.1@)),
            current_version: self.current_version@,
        }
    }
}

impl FSHistoryView {
    /// The versions that have a next version.
    pub open spec fn keys(self) -> Seq<Seq<char>> {
        self.next_map.map_values(|p: (Seq<char>, Seq<char>)| p.0)
    }

    /// No version has two next versions.
    pub open spec fn wf(self) -> bool {
        distinct_names(self.keys())
    }

    /// The version that follows the given one.
    pub open spec fn next_of(self, name: Seq<char>) -> Option<Seq<char>> {
        if has_name(self.keys(), name) {
            Some(self.next_map[name_index(self.keys(), name)].1)
        } else {
            None
        }
    }
}

/// Following the next versions from `curr`, for at most `fuel` steps: the last version
/// reached that has a next version, or `current` when `curr` has none.
pub open spec fn settle(h: FSHistoryView, curr: Seq<char>, current: Seq<char>, fuel: nat) -> Seq<char>
    decreases fuel,
{
    if fuel == 0 {
        current
    } else {
        match h.next_of(curr) {
            None => current,
            Some(next) => settle(h, next, curr, (fuel - 1) as nat),
        }
    }
}

/// The version reached from `v` after `k` steps along the next versions, staying at a
/// version that has no next version.
pub open spec fn walk(h: FSHistoryView, v: Seq<char>, k: nat) -> Seq<char>
    decreases k,
{
    if k == 0 {
        v
    } else {
        let before = walk(h, v, (k - 1) as nat);
        match h.next_of(before) {
            Some(next) => next,
            None => before,
        }
    }
}

/// The walk from `v` reaches a version without next version within `k` steps.
pub open spec fn ends_within(h: FSHistoryView, v: Seq<char>, k: nat) -> bool {
    exists|i: nat| i <= k && #[trigger] h.next_of(walk(h, v, i)) is None
}

/// When the walk from a version does not end within as many steps as there are versions
/// with a next version, it meets some version twice: the bound on the steps taken to
/// find the current version is reached only on a history whose next versions form a
/// cycle.
pub proof fn lemma_long_walk_repeats(h: FSHistoryView, v: Seq<char>)
    requires
        h.wf(),
        !ends_within(h, v, h.next_map.len() as nat),
    ensures
        exists|i: int, j: int| 0 <= i < j <= h.next_map.len() && #[trigger] walk(h, v, i as nat) == #[trigger] walk(h, v, j as nat),
{
    let n = h.next_map.len() as int;
    let steps = Seq::new((n + 1) as nat, |i: int| walk(h, v, i as nat));
    if !(exists|i: int, j: int| 0 <= i < j <= n && #[trigger] walk(h, v, i as nat) == #[trigger] walk(h, v, j as nat)) {
        assert(steps.no_duplicates()) by {
            assert forall|i: int, j: int| 0 <= i < steps.len() && 0 <= j < steps.len() && i != j implies steps[i] != steps[j] by {
                if i < j {
                    assert(walk(h, v, i as nat) != walk(h, v, j as nat));
                } else {
                    assert(walk(h, v, j as nat) != walk(h, v, i as nat));
                }
            }
        }
        steps.unique_seq_to_set();
        let keys = h.keys();
        assert(steps.to_set().subset_of(keys.to_set())) by {
            assert forall|x: Seq<char>| steps.to_set().contains(x) implies keys.to_set().contains(x) by {
                let i = choose|i: int| 0 <= i < steps.len() && steps[i] == x;
                assert(steps[i] == walk(h, v, i as nat));
                if h.next_of(walk(h, v, i as nat)) is None {
                    assert(ends_within(h, v, n as nat));
                }
                assert(has_name(keys, x));
                let j = choose|j: int| 0 <= j < keys.len() && keys[j] == x;
                assert(keys.contains(x));
            }
        }
        vstd::seq_lib::seq_to_set_is_finite(keys);
        vstd::set_lib::lemma_len_subset(steps.to_set(), keys.to_set());
        keys.lemma_cardinality_of_set();
        assert(false);
    }
}

/// Once the walk has ended, taking more steps changes nothing.
pub proof fn lemma_settle_after_end(h: FSHistoryView, curr: Seq<char>, current: Seq<char>, fuel: nat, more: nat)
    requires
        ends_within(h, curr, fuel),
        fuel <= more,
    ensures
        settle(h, curr, current, fuel + 1) == settle(h, curr, current, more + 1),
    decreases fuel,
{
    let i = choose|i: nat| i <= fuel && #[trigger] h.next_of(walk(h, curr, i)) is None;
    if h.next_of(curr) is None {
    } else {
        let next = h.next_of(curr)->Some_0;
        assert(i > 0) by {
            if i == 0 {
                assert(walk(h, curr, 0) == curr);
            }
        }
        lemma_walk_shift(h, curr, (i - 1) as nat);
        assert(h.next_of(walk(h, next, (i - 1) as nat)) is None);
        assert(ends_within(h, next, (fuel - 1) as nat));
        lemma_settle_after_end(h, next, curr, (fuel - 1) as nat, (more - 1) as nat);
    }
}

/// Walking `k + 1` steps from a version with a next version is walking `k` steps from its
/// next version.
pub proof fn lemma_walk_shift(h: FSHistoryView, v: Seq<char>, k: nat)
    requires
        h.next_of(v) is Some,
    ensures
        walk(h, v, k + 1) == walk(h, h.next_of(v)->Some_0, k),
    decreases k,
{
    let next = h.next_of(v)->Some_0;
    if k > 0 {
        lemma_walk_shift(h, v, (k - 1) as nat);
        assert(walk(h, v, k) == walk(h, next, (k - 1) as nat));
        assert(walk(h, v, k + 1) == match h.next_of(walk(h, v, k)) {
            Some(n) => n,
            None => walk(h, v, k),
        });
        assert(walk(h, next, k) == match h.next_of(walk(h, next, (k - 1) as nat)) {
            Some(n) => n,
            None => walk(h, next, (k - 1) as nat),
        });
    } else {
        assert(walk(h, v, 0) == v);
        assert(walk(h, next, 0) == next);
    }
}

/// On a history where the walk from the first version meets no version twice, the bound
/// on the steps taken changes nothing: taking more steps finds the same current version.
pub proof fn lemma_current_version_without_cycle(h: FSHistoryView, current: Seq<char>, more: nat)
    requires
        h.wf(),
        forall|i: int, j: int| 0 <= i < j <= h.next_map.len() ==> #[trigger] walk(h, "init"@, i as nat) != #[trigger] walk(h, "init"@, j as nat),
        more >= h.next_map.len(),
    ensures
        settle(h, "init"@, current, (h.next_map.len() + 1) as nat) == settle(h, "init"@, current, more + 1),
{
    if !ends_within(h, "init"@, h.next_map.len() as nat) {
        lemma_long_walk_repeats(h, "init"@);
    }
    lemma_settle_after_end(h, "init"@, current, h.next_map.len() as nat, more);
}

/// What refuses a history.
#[derive(Debug, PartialEq)]
pub enum FSHistoryError {
    Branched { parent: String, child_a: String, child_b: String },
    Unreachable { high: String, low: String },
}

pub ghost enum FSHistoryErrorView {
    Branched { parent: Seq<char>, child_a: Seq<char>, child_b: Seq<char> },
    Unreachable { high: Seq<char>, low: Seq<char> },
}

impl vstd::view::View for FSHistoryError {
    type V = FSHistoryErrorView;

    open spec fn view(&self) -> FSHistoryErrorView {
        match self {
            FSHistoryError::Branched { parent, child_a, child_b } => FSHistoryErrorView::Branched {
                parent: parent@,
                child_a: child_a@,
                child_b: child_b@,
            },
            FSHistoryError::Unreachable { high, low } => FSHistoryErrorView::Unreachable { high: high@, low: low@ },
        }
    }
}

pub open spec fn quoted(s: Seq<char>) -> Seq<char> {
    seq!['"'] + s + seq!['"']
}

pub open spec fn fs_history_message(e: FSHistoryErrorView) -> Seq<char> {
    match e {
        FSHistoryErrorView::Branched { parent, child_a, child_b } => "version "@ + quoted(parent)
            + " has two next versions: "@ + quoted(child_a) + " and "@ + quoted(child_b),
        FSHistoryErrorView::Unreachable { high, low } => "version "@ + quoted(high) + " is not reachable from version "@
            + quoted(low),
    }
}

fn push_quoted(s: &mut String, t: &str)
    ensures
        final(s)@ == old(s)@ + quoted(t@),
{
    s.append("\"");
    s.append(t);
    s.append("\"");
    proof {
        reveal_strlit("\"");
    }
    assert(final(s)@ =~= old(s)@ + quoted(t@));
}

impl FSHistoryError {
    pub fn message(&self) -> (r: String)
        ensures
            r@ == fs_history_message(self@),
    {
        let mut s = "version ".to_owned();
        match self {
            FSHistoryError::Branched { parent, child_a, child_b } => {
                push_quoted(&mut s, parent.as_str());
                s.append(" has two next versions: ");
                push_quoted(&mut s, child_a.as_str());
                s.append(" and ");
                push_quoted(&mut s, child_b.as_str());
            },
            FSHistoryError::Unreachable { high, low } => {
                push_quoted(&mut s, high.as_str());
                s.append(" is not reachable from version ");
                push_quoted(&mut s, low.as_str());
            },
        }
        s
    }
}

/// The suffix of a version file's name.
pub open spec fn yaml_suffix() -> Seq<char> {
    seq!['.', 'y', 'a', 'm', 'l']
}

pub open spec fn ends_with_yaml(s: Seq<char>) -> bool {
    s.len() >= 5 && s.subrange(s.len() - 5, s.len() as int) == yaml_suffix()
}

/// A name with every `.yaml` at its end taken off.
pub open spec fn strip_yaml(s: Seq<char>) -> Seq<char>
    decreases s.len(),
{
    if ends_with_yaml(s) {
        strip_yaml(s.subrange(0, s.len() - 5))
    } else {
        s
    }
}

/// The version a directory entry holds: a file whose name ends with `.yaml` holds the
/// version named by the rest of it.
pub open spec fn version_name_of(file_name: Seq<char>, is_dir: bool) -> Option<Seq<char>> {
    if is_dir || !ends_with_yaml(file_name) {
        None
    } else {
        Some(strip_yaml(file_name))
    }
}

fn ends_with_yaml_at(cs: &Vec<char>, end: usize) -> (r: bool)
    requires
        end <= cs@.len(),
    ensures
        r == ends_with_yaml(cs@.subrange(0, end as int)),
{
    let ghost s = cs@.subrange(0, end as int);
    if end < 5 {
        return false;
    }
    let r = cs[end - 5] == '.' && cs[end - 4] == 'y' && cs[end - 3] == 'a' && cs[end - 2] == 'm' && cs[end - 1] == 'l';
    proof {
        let t = s.subrange(s.len() - 5, s.len() as int);
        if r {
            assert(t =~= yaml_suffix());
        } else {
            if t == yaml_suffix() {
                assert(t[0] == cs@[end - 5]);
                assert(t[1] == cs@[end - 4]);
                assert(t[2] == cs@[end - 3]);
                assert(t[3] == cs@[end - 2]);
                assert(t[4] == cs@[end - 1]);
            }
        }
    }
    r
}

pub fn version_name_of_file(file_name: &str, is_dir: bool) -> (r: Option<String>)
    ensures
        r.deep_view() == version_name_of(file_name@, is_dir),
{
    let cs = chars_of(file_name);
    proof {
        assert(cs@.subrange(0, cs@.len() as int) =~= file_name@);
    }
    if is_dir || !ends_with_yaml_at(&cs, cs.len()) {
        return None;
    }
    let mut end = cs.len();
    while ends_with_yaml_at(&cs, end)
        invariant
            end <= cs@.len(),
            strip_yaml(cs@.subrange(0, end as int)) == strip_yaml(file_name@),
        decreases end,
    {
        proof {
            let s = cs@.subrange(0, end as int);
            assert(s.subrange(0, s.len() - 5) =~= cs@.subrange(0, end - 5));
        }
        end = end - 5;
    }
    Some(string_of(&cs, 0, end))
}

impl FSHistory {
    /// An empty history in the given directory, at the first version.
    pub fn new(dir: String) -> (r: Self)
        ensures
            r@ == (FSHistoryView { dir: dir@, next_map: Seq::empty(), current_version: "init"@ }),
            r@.wf(),
    {
        let h = Self { dir, next_map: Vec::new(), current_version: INIT.to_owned() };
        assert(h@.next_map =~= Seq::<(Seq<char>, Seq<char>)>::empty());
        assert(h@.keys() =~= Seq::<Seq<char>>::empty());
        h
    }

    /// The version that follows the given one.
    pub fn get_next(&self, name: &str) -> (r: Option<&String>)
        requires
            self@.wf(),
        ensures
            match r {
                Some(n) => self@.next_of(name@) == Some(n@),
                None => self@.next_of(name@) is None,
            },
    {
        let ghost keys = self@.keys();
        for i in 0..self.next_map.len()
            invariant
                keys == self@.keys(),
                keys.len() == self.next_map@.len(),
                distinct_names(keys),
                forall|j: int| 0 <= j < i ==> keys[j] != name@,
        {
            if str_eq(self.next_map[i].0.as_str(), name) {
                proof {
                    assert(keys[i as int] == name@);
                    lemma_name_index_unique(keys, name@, i as int);
                }
                return Some(&self.next_map[i].1);
            }
        }
        None
    }

    /// Records a version read from the directory: the version it follows gets it as its
    /// next version, unless that one already has another.
    pub fn add_version(&mut self, version: &Version) -> (r: Result<(), FSHistoryError>)
        requires
            old(self)@.wf(),
        ensures
            final(self)@.wf(),
            match version@.previous {
                None => r is Ok && final(self)@ == old(self)@,
                Some(p) => match old(self)@.next_of(p) {
                    Some(existing) => {
                        &&& r is Err
                        &&& r->Err_0@ == (FSHistoryErrorView::Branched { parent: p, child_a: existing, child_b: version@.name })
                        &&& final(self)@ == old(self)@
                    },
                    None => {
                        &&& r is Ok
                        &&& final(self)@ == (FSHistoryView {
                            next_map: old(self)@.next_map.push((p, version@.name)),
                            ..old(self)@
                        })
                    },
                },
            },
    {
        match &version.previous {
            None => Ok(()),
            Some(previous) => {
                match self.get_next(previous.as_str()) {
                    Some(existing) => {
                        return Err(FSHistoryError::Branched {
                            parent: previous.clone(),
                            child_a: existing.clone(),
                            child_b: version.name.clone(),
                        });
                    },
                    None => {},
                }
                let ghost before = self@;
                self.next_map.push((previous.clone(), version.name.clone()));
                proof {
                    assert(self@.next_map =~= before.next_map.push((previous@, version@.name)));
                    assert(self@.keys() =~= before.keys().push(previous@));
                    lemma_distinct_push(before.keys(), previous@);
                }
                Ok(())
            },
        }
    }

    /// Moves to the current version: following the next versions from the first one, the
    /// last version that has a next version. The walk takes at most one step more than
    /// there are versions with a next version.
    pub fn find_current_version(&mut self)
        requires
            old(self)@.wf(),
        ensures
            final(self)@ == (FSHistoryView {
                current_version: settle(old(self)@, "init"@, old(self)@.current_version, (old(self)@.next_map.len() + 1) as nat),
                ..old(self)@
            }),
    {
        let ghost h = self@;
        let ghost fuel = (h.next_map.len() + 1) as nat;
        let n = self.next_map.len();
        let mut curr: String = INIT.to_owned();
        let mut i: usize = 0;
        loop
            invariant
                h == old(self)@,
                self@ == (FSHistoryView { current_version: self@.current_version, ..h }),
                h.wf(),
                n == h.next_map.len(),
                fuel == n + 1,
                i <= n,
                settle(h, curr@, self@.current_version, (fuel - i) as nat)
                    == settle(h, "init"@, h.current_version, fuel),
            decreases n - i,
        {
            let ghost before = self@.current_version;
            assert(settle(h, curr@, before, (fuel - i) as nat) == match h.next_of(curr@) {
                None => before,
                Some(next) => settle(h, next, curr@, (fuel - i - 1) as nat),
            });
            match self.get_next(curr.as_str()) {
                None => {
                    return;
                },
                Some(next) => {
                    let next = next.clone();
                    self.current_version = curr;
                    curr = next;
                },
            }
            if i == n {
                return;
            }
            i = i + 1;
        }
    }

    /// The file that holds the version of the given name.
    pub fn get_version_file_path(&self, version_name: &str) -> (r: String)
        ensures
            r@ == joined(self@.dir, version_name@ + yaml_suffix()),
    {
        let mut file_name = version_name.to_owned();
        file_name.append(".yaml");
        proof {
            reveal_strlit(".yaml");
            assert(".yaml"@ =~= yaml_suffix());
        }
        join_path(self.dir.as_str(), file_name.as_str())
    }
}

/// A walk down from version `to` along the previous versions, looking for `from`: the
/// names met on the way, and the version to read next.
pub struct UpwardRange {
    pub from: String,
    pub to: String,
    pub current: String,
    pub versions: Vec<String>,
}

/// What a step of the walk leads to: the next version to read, the versions from just
/// after `from` up to `to`, or a version without previous version before `from` was met.
pub enum UpwardStep {
    Next(UpwardRange),
    Done(Vec<String>),
    Failed(FSHistoryError),
}

pub open spec fn reversed(s: Seq<Seq<char>>) -> Seq<Seq<char>> {
    Seq::new(s.len(), |i: int| s[s.len() - 1 - i])
}

impl UpwardRange {
    /// The walk that starts at `to`.
    pub fn new(from: &str, to: &str) -> (r: Self)
        ensures
            r.from@ == from@,
            r.to@ == to@,
            r.current@ == to@,
            r.versions@ == Seq::<String>::empty(),
    {
        Self { from: from.to_owned(), to: to.to_owned(), current: to.to_owned(), versions: Vec::new() }
    }

    /// Takes in the version `current` names: when it is `from` the walk is done and gives
    /// the names met, oldest first; otherwise its name is met and the walk goes on to its
    /// previous version, or fails when it has none.
    pub fn step(self, version: &Version) -> (r: UpwardStep)
        ensures
            self.current@ == self.from@ ==> r is Done && r->Done_0.deep_view() == reversed(self.versions.deep_view()),
            self.current@ != self.from@ ==> match version@.previous {
                Some(p) => r is Next && r->Next_0.from@ == self.from@ && r->Next_0.to@ == self.to@
                    && r->Next_0.current@ == p
                    && r->Next_0.versions.deep_view() == self.versions.deep_view().push(version@.name),
                None => r is Failed && r->Failed_0@ == (FSHistoryErrorView::Unreachable { high: self.to@, low: self.from@ }),
            },
    {
        if str_eq(self.current.as_str(), self.from.as_str()) {
            let ghost vs = self.versions.deep_view();
            let mut out: Vec<String> = Vec::new();
            let mut k = self.versions.len();
            while k > 0
                invariant
                    k <= self.versions@.len(),
                    vs == self.versions.deep_view(),
                    vs.len() == self.versions@.len(),
                    out.deep_view() =~= reversed(vs).take(vs.len() - k),
                decreases k,
            {
                k = k - 1;
                let name = self.versions[k].clone();
                assert(name@ == vs[k as int]);
                let ghost prev = out.deep_view();
                out.push(name);
                proof {
                    assert(out.deep_view() =~= prev.push(vs[k as int]));
                    assert(reversed(vs)[vs.len() - k - 1] == vs[k as int]);
                    assert(reversed(vs).take(vs.len() - k) =~= reversed(vs).take(vs.len() - k - 1).push(vs[k as int]));
                }
            }
            proof {
                assert(reversed(vs).take(vs.len() as int) =~= reversed(vs));
            }
            return UpwardStep::Done(out);
        }
        match &version.previous {
            Some(previous) => {
                let ghost before = self.versions.deep_view();
                let UpwardRange { from, to, current: _, mut versions } = self;
                versions.push(version.name.clone());
                assert(versions.deep_view() =~= before.push(version@.name));
                UpwardStep::Next(UpwardRange { from, to, current: previous.clone(), versions })
            },
            None => UpwardStep::Failed(FSHistoryError::Unreachable { high: self.to, low: self.from }),
        }
    }
}

} // verus!
