//! The assignment of files to episodes, kept consistent as the user edits it.
//!
//! Every file known since the last seeding is either waiting in the
//! unassigned pool or stands in the plan, never both; an episode holds at
//! most one file and a file stands for at most one episode.

use vstd::prelude::*;
use crate::media::{Episode, EpisodeView, LocalFile};

verus! {

/// The plan as values: episode and file path, in the order of insertion.
pub type PlanView = Seq<(EpisodeView, Seq<char>)>;

/// The state of an assignment, as values.
pub struct AssignmentView {
    pub episodes: Seq<EpisodeView>,
    /// The files as they were seeded.
    pub files: Seq<Seq<char>>,
    pub unassigned: Seq<Seq<char>>,
    pub plan: PlanView,
}

/// No episode has two entries in the plan.
pub open spec fn keys_unique(p: PlanView) -> bool {
    forall|i: int, j: int| 0 <= i < j < p.len() ==> p[i].0 != p[j].0
}

/// No file stands under two entries of the plan.
pub open spec fn values_unique(p: PlanView) -> bool {
    forall|i: int, j: int| 0 <= i < j < p.len() ==> p[i].1 != p[j].1
}

/// Whether some entry of the plan holds file `f`.
pub open spec fn has_file(p: PlanView, f: Seq<char>) -> bool {
    exists|i: int| 0 <= i < p.len() && #[trigger] p[i].1 == f
}

/// The file that the plan holds for episode `e`, if any.
pub open spec fn lookup(p: PlanView, e: EpisodeView) -> Option<Seq<char>>
    decreases p.len(),
{
    if p.len() == 0 {
        None
    } else if p.last().0 == e {
        Some(p.last().1)
    } else {
        lookup(p.drop_last(), e)
    }
}

/// Whether an entry goes when file `f`, and episode `key` if given, are
/// taken out of the plan.
pub open spec fn entry_dropped(
    x: (EpisodeView, Seq<char>),
    key: Option<EpisodeView>,
    f: Seq<char>,
) -> bool {
    x.1 == f || key == Some(x.0)
}

/// The plan without the entries that hold `f` or, if given, belong to `key`.
pub open spec fn without_entries(p: PlanView, key: Option<EpisodeView>, f: Seq<char>) -> PlanView
    decreases p.len(),
{
    if p.len() == 0 {
        p
    } else {
        let rest = without_entries(p.drop_last(), key, f);
        if entry_dropped(p.last(), key, f) {
            rest
        } else {
            rest.push(p.last())
        }
    }
}

/// The files of `u` but `f`, in order.
pub open spec fn without_file(u: Seq<Seq<char>>, f: Seq<char>) -> Seq<Seq<char>>
    decreases u.len(),
{
    if u.len() == 0 {
        u
    } else {
        let rest = without_file(u.drop_last(), f);
        if u.last() == f {
            rest
        } else {
            rest.push(u.last())
        }
    }
}

/// The files that episode `e` holds in the plan, other than `f`.
pub open spec fn displaced(p: PlanView, e: EpisodeView, f: Seq<char>) -> Seq<Seq<char>>
    decreases p.len(),
{
    if p.len() == 0 {
        Seq::empty()
    } else {
        let rest = displaced(p.drop_last(), e, f);
        if p.last().0 == e && p.last().1 != f {
            rest.push(p.last().1)
        } else {
            rest
        }
    }
}

/// The files of `s`, each kept at its first occurrence.
pub open spec fn dedup(s: Seq<Seq<char>>) -> Seq<Seq<char>>
    decreases s.len(),
{
    if s.len() == 0 {
        s
    } else {
        let rest = dedup(s.drop_last());
        if rest.contains(s.last()) {
            rest
        } else {
            rest.push(s.last())
        }
    }
}

impl AssignmentView {
    /// Every seeded file is in exactly one of the unassigned pool and the
    /// plan, and the pool holds no file twice.
    pub open spec fn partitioned(self) -> bool {
        &&& self.unassigned.no_duplicates()
        &&& forall|i: int, j: int|
            0 <= i < self.unassigned.len() && 0 <= j < self.plan.len() ==> self.unassigned[i]
                != self.plan[j].1
        &&& forall|i: int|
            0 <= i < self.files.len() ==> self.unassigned.contains(#[trigger] self.files[i])
                || has_file(self.plan, self.files[i])
    }

    /// No file stands for two episodes.
    pub open spec fn one_episode_per_file(self) -> bool {
        values_unique(self.plan)
    }

    pub open spec fn wf(self) -> bool {
        &&& self.partitioned()
        &&& self.one_episode_per_file()
        &&& keys_unique(self.plan)
    }
}

/// The state right after a fetch: nothing assigned, every file waiting.
pub open spec fn seeded(episodes: Seq<EpisodeView>, files: Seq<Seq<char>>) -> AssignmentView {
    AssignmentView { episodes, files, unassigned: dedup(files), plan: Seq::empty() }
}

/// File `f` moves to episode `e`: it leaves the pool and any entry it held,
/// and a different file that `e` held goes back to the pool.
pub open spec fn assign_model(v: AssignmentView, e: EpisodeView, f: Seq<char>) -> AssignmentView {
    AssignmentView {
        plan: without_entries(v.plan, Some(e), f).push((e, f)),
        unassigned: without_file(v.unassigned, f) + displaced(v.plan, e, f),
        ..v
    }
}

/// File `f` leaves the plan and waits in the pool.
pub open spec fn unassign_model(v: AssignmentView, f: Seq<char>) -> AssignmentView {
    AssignmentView {
        plan: without_entries(v.plan, None, f),
        unassigned: if v.unassigned.contains(f) {
            v.unassigned
        } else {
            v.unassigned.push(f)
        },
        ..v
    }
}

pub proof fn lemma_without_entries(p: PlanView, key: Option<EpisodeView>, f: Seq<char>)
    ensures
        forall|x: (EpisodeView, Seq<char>)| #[trigger]
            without_entries(p, key, f).contains(x) <==> p.contains(x) && !entry_dropped(x, key, f),
        keys_unique(p) ==> keys_unique(without_entries(p, key, f)),
        values_unique(p) ==> values_unique(without_entries(p, key, f)),
        (forall|i: int| 0 <= i < p.len() ==> !entry_dropped(#[trigger] p[i], key, f))
            ==> without_entries(p, key, f) == p,
    decreases p.len(),
{
    if p.len() > 0 {
        let d = p.drop_last();
        let rest = without_entries(d, key, f);
        lemma_without_entries(d, key, f);
        let r = without_entries(p, key, f);
        assert forall|x: (EpisodeView, Seq<char>)| #[trigger]
            r.contains(x) <==> p.contains(x) && !entry_dropped(x, key, f) by {
            if p.contains(x) && !entry_dropped(x, key, f) {
                let k = choose|k: int| 0 <= k < p.len() && p[k] == x;
                if k < p.len() - 1 {
                    assert(d[k] == x);
                    assert(rest.contains(x));
                    if !entry_dropped(p.last(), key, f) {
                        let m = choose|m: int| 0 <= m < rest.len() && rest[m] == x;
                        assert(r[m] == x);
                    }
                } else {
                    assert(r[r.len() - 1] == x);
                }
            }
            if r.contains(x) {
                let m = choose|m: int| 0 <= m < r.len() && r[m] == x;
                if !entry_dropped(p.last(), key, f) && m == r.len() - 1 {
                    assert(p[p.len() - 1] == x);
                } else {
                    assert(rest[m] == x);
                    assert(rest.contains(x));
                    let k = choose|k: int| 0 <= k < d.len() && d[k] == x;
                    assert(p[k] == x);
                }
            }
        }
        if keys_unique(p) {
            assert(keys_unique(d)) by {
                assert forall|i: int, j: int| 0 <= i < j < d.len() implies d[i].0 != d[j].0 by {
                    assert(d[i] == p[i] && d[j] == p[j]);
                }
            }
            if !entry_dropped(p.last(), key, f) {
                assert forall|i: int, j: int| 0 <= i < j < r.len() implies r[i].0 != r[j].0 by {
                    if j == r.len() - 1 {
                        assert(rest.contains(r[i]) && rest[i] == r[i]);
                        let k = choose|k: int| 0 <= k < d.len() && d[k] == r[i];
                        assert(p[k] == d[k]);
                    } else {
                        assert(rest[i] == r[i] && rest[j] == r[j]);
                    }
                }
            }
        }
        if values_unique(p) {
            assert(values_unique(d)) by {
                assert forall|i: int, j: int| 0 <= i < j < d.len() implies d[i].1 != d[j].1 by {
                    assert(d[i] == p[i] && d[j] == p[j]);
                }
            }
            if !entry_dropped(p.last(), key, f) {
                assert forall|i: int, j: int| 0 <= i < j < r.len() implies r[i].1 != r[j].1 by {
                    if j == r.len() - 1 {
                        assert(rest.contains(r[i]) && rest[i] == r[i]);
                        let k = choose|k: int| 0 <= k < d.len() && d[k] == r[i];
                        assert(p[k] == d[k]);
                    } else {
                        assert(rest[i] == r[i] && rest[j] == r[j]);
                    }
                }
            }
        }
        if forall|i: int| 0 <= i < p.len() ==> !entry_dropped(#[trigger] p[i], key, f) {
            assert forall|i: int| 0 <= i < d.len() implies !entry_dropped(#[trigger] d[i], key, f) by {
                assert(d[i] == p[i]);
            }
            assert(!entry_dropped(p[p.len() - 1], key, f));
            assert(d.push(p.last()) =~= p);
        }
    }
}

pub proof fn lemma_without_file(u: Seq<Seq<char>>, f: Seq<char>)
    ensures
        forall|x: Seq<char>| #[trigger]
            without_file(u, f).contains(x) <==> u.contains(x) && x != f,
        u.no_duplicates() ==> without_file(u, f).no_duplicates(),
        !u.contains(f) ==> without_file(u, f) == u,
    decreases u.len(),
{
    if u.len() > 0 {
        let d = u.drop_last();
        let rest = without_file(d, f);
        lemma_without_file(d, f);
        let r = without_file(u, f);
        assert forall|x: Seq<char>| #[trigger] r.contains(x) <==> u.contains(x) && x != f by {
            if u.contains(x) && x != f {
                let k = choose|k: int| 0 <= k < u.len() && u[k] == x;
                if k < u.len() - 1 {
                    assert(d[k] == x);
                    assert(rest.contains(x));
                    if u.last() != f {
                        let m = choose|m: int| 0 <= m < rest.len() && rest[m] == x;
                        assert(r[m] == x);
                    }
                } else {
                    assert(r[r.len() - 1] == x);
                }
            }
            if r.contains(x) {
                let m = choose|m: int| 0 <= m < r.len() && r[m] == x;
                if u.last() != f && m == r.len() - 1 {
                    assert(u[u.len() - 1] == x);
                } else {
                    assert(rest[m] == x);
                    assert(rest.contains(x));
                    let k = choose|k: int| 0 <= k < d.len() && d[k] == x;
                    assert(u[k] == x);
                }
            }
        }
        if u.no_duplicates() {
            assert(d.no_duplicates()) by {
                assert forall|i: int, j: int|
                    0 <= i < d.len() && 0 <= j < d.len() && i != j implies d[i] != d[j] by {
                    assert(d[i] == u[i] && d[j] == u[j]);
                }
            }
            if u.last() != f {
                assert forall|i: int, j: int|
                    0 <= i < r.len() && 0 <= j < r.len() && i != j implies r[i] != r[j] by {
                    if i == r.len() - 1 || j == r.len() - 1 {
                        let o = if i == r.len() - 1 { j } else { i };
                        assert(rest.contains(r[o]) && rest[o] == r[o]);
                        let k = choose|k: int| 0 <= k < d.len() && d[k] == r[o];
                        assert(u[k] == d[k]);
                    } else {
                        assert(rest[i] == r[i] && rest[j] == r[j]);
                    }
                }
            }
        }
        if !u.contains(f) {
            assert(!d.contains(f)) by {
                if d.contains(f) {
                    let k = choose|k: int| 0 <= k < d.len() && d[k] == f;
                    assert(u[k] == f);
                }
            }
            assert(u[u.len() - 1] != f);
            assert(d.push(u.last()) =~= u);
        }
    }
}

pub proof fn lemma_displaced(p: PlanView, e: EpisodeView, f: Seq<char>)
    ensures
        forall|x: Seq<char>| #[trigger]
            displaced(p, e, f).contains(x) <==> p.contains((e, x)) && x != f,
        keys_unique(p) ==> displaced(p, e, f).len() <= 1,
    decreases p.len(),
{
    if p.len() > 0 {
        let d = p.drop_last();
        let rest = displaced(d, e, f);
        lemma_displaced(d, e, f);
        let r = displaced(p, e, f);
        let hit = p.last().0 == e && p.last().1 != f;
        assert forall|x: Seq<char>| #[trigger] r.contains(x) <==> p.contains((e, x)) && x != f by {
            if p.contains((e, x)) && x != f {
                let k = choose|k: int| 0 <= k < p.len() && p[k] == (e, x);
                if k < p.len() - 1 {
                    assert(d[k] == (e, x));
                    assert(rest.contains(x));
                    if hit {
                        let m = choose|m: int| 0 <= m < rest.len() && rest[m] == x;
                        assert(r[m] == x);
                    }
                } else {
                    assert(r[r.len() - 1] == x);
                }
            }
            if r.contains(x) {
                let m = choose|m: int| 0 <= m < r.len() && r[m] == x;
                if hit && m == r.len() - 1 {
                    assert(p[p.len() - 1] == (e, x));
                } else {
                    assert(rest[m] == x);
                    assert(rest.contains(x));
                    let k = choose|k: int| 0 <= k < d.len() && d[k] == (e, x);
                    assert(p[k] == (e, x));
                }
            }
        }
        if keys_unique(p) {
            assert(keys_unique(d)) by {
                assert forall|i: int, j: int| 0 <= i < j < d.len() implies d[i].0 != d[j].0 by {
                    assert(d[i] == p[i] && d[j] == p[j]);
                }
            }
            if hit && rest.len() > 0 {
                assert(rest.contains(rest[0]));
                let k = choose|k: int| 0 <= k < d.len() && d[k] == (e, rest[0]);
                assert(p[k] == d[k]);
            }
        }
    }
}

pub proof fn lemma_dedup(s: Seq<Seq<char>>)
    ensures
        forall|x: Seq<char>| #[trigger] dedup(s).contains(x) <==> s.contains(x),
        dedup(s).no_duplicates(),
        s.no_duplicates() ==> dedup(s) == s,
    decreases s.len(),
{
    if s.len() > 0 {
        let d = s.drop_last();
        let rest = dedup(d);
        lemma_dedup(d);
        let r = dedup(s);
        assert forall|x: Seq<char>| #[trigger] r.contains(x) <==> s.contains(x) by {
            if s.contains(x) {
                let k = choose|k: int| 0 <= k < s.len() && s[k] == x;
                if k < s.len() - 1 {
                    assert(d[k] == x);
                    assert(rest.contains(x));
                    if !rest.contains(s.last()) {
                        let m = choose|m: int| 0 <= m < rest.len() && rest[m] == x;
                        assert(r[m] == x);
                    }
                } else if !rest.contains(s.last()) {
                    assert(r[r.len() - 1] == x);
                }
            }
            if r.contains(x) {
                let m = choose|m: int| 0 <= m < r.len() && r[m] == x;
                if !rest.contains(s.last()) && m == r.len() - 1 {
                    assert(s[s.len() - 1] == x);
                } else {
                    assert(rest[m] == x);
                    assert(rest.contains(x));
                    let k = choose|k: int| 0 <= k < d.len() && d[k] == x;
                    assert(s[k] == x);
                }
            }
        }
        if !rest.contains(s.last()) {
            assert forall|i: int, j: int|
                0 <= i < r.len() && 0 <= j < r.len() && i != j implies r[i] != r[j] by {
                if i == r.len() - 1 || j == r.len() - 1 {
                    let o = if i == r.len() - 1 { j } else { i };
                    assert(rest[o] == r[o]);
                    assert(rest.contains(r[o]));
                } else {
                    assert(rest[i] == r[i] && rest[j] == r[j]);
                }
            }
        }
        if s.no_duplicates() {
            assert(d.no_duplicates()) by {
                assert forall|i: int, j: int|
                    0 <= i < d.len() && 0 <= j < d.len() && i != j implies d[i] != d[j] by {
                    assert(d[i] == s[i] && d[j] == s[j]);
                }
            }
            assert(!d.contains(s.last())) by {
                if d.contains(s.last()) {
                    let k = choose|k: int| 0 <= k < d.len() && d[k] == s.last();
                    assert(s[k] == d[k]);
                }
            }
            assert(d.push(s.last()) =~= s);
        }
    }
}

pub proof fn lemma_lookup(p: PlanView, e: EpisodeView)
    ensures
        lookup(p, e) matches Some(x) ==> p.contains((e, x)),
    decreases p.len(),
{
    if p.len() > 0 {
        if p.last().0 == e {
            assert(p[p.len() - 1] == (e, p.last().1));
        } else {
            lemma_lookup(p.drop_last(), e);
            if let Some(x) = lookup(p, e) {
                let k = choose|k: int| 0 <= k < p.drop_last().len() && p.drop_last()[k] == (e, x);
                assert(p[k] == (e, x));
            }
        }
    }
}

/// A seeded state is consistent, and its pool is the seeded files, each once.
pub proof fn lemma_seeded(episodes: Seq<EpisodeView>, files: Seq<Seq<char>>)
    ensures
        seeded(episodes, files).wf(),
        files.no_duplicates() ==> seeded(episodes, files).unassigned == files,
{
    lemma_dedup(files);
    let v = seeded(episodes, files);
    assert forall|i: int| 0 <= i < files.len() implies v.unassigned.contains(
        #[trigger] v.files[i],
    ) || has_file(v.plan, v.files[i]) by {
        assert(files.contains(files[i]));
    }
}

pub proof fn lemma_assign_preserves(v: AssignmentView, e: EpisodeView, f: Seq<char>)
    requires
        v.wf(),
    ensures
        assign_model(v, e, f).wf(),
{
    let p = v.plan;
    let u = v.unassigned;
    let q = without_entries(p, Some(e), f);
    let np = q.push((e, f));
    let wu = without_file(u, f);
    let dp = displaced(p, e, f);
    let nu = wu + dp;
    lemma_without_entries(p, Some(e), f);
    lemma_without_file(u, f);
    lemma_displaced(p, e, f);
    let w = assign_model(v, e, f);
    assert(w.plan == np && w.unassigned == nu);
    assert forall|i: int, j: int| 0 <= i < j < np.len() implies np[i].0 != np[j].0 by {
        if j == np.len() - 1 {
            assert(np[i] == q[i]);
            assert(q.contains(q[i]));
        } else {
            assert(np[i] == q[i] && np[j] == q[j]);
        }
    }
    assert forall|i: int, j: int| 0 <= i < j < np.len() implies np[i].1 != np[j].1 by {
        if j == np.len() - 1 {
            assert(np[i] == q[i]);
            assert(q.contains(q[i]));
        } else {
            assert(np[i] == q[i] && np[j] == q[j]);
        }
    }
    assert forall|i: int, j: int|
        0 <= i < nu.len() && 0 <= j < nu.len() && i != j implies nu[i] != nu[j] by {
        if i < wu.len() && j < wu.len() {
            assert(nu[i] == wu[i] && nu[j] == wu[j]);
        } else if i >= wu.len() && j >= wu.len() {
        } else {
            let a = if i < wu.len() { i } else { j };
            let b = if i < wu.len() { j } else { i };
            assert(nu[a] == wu[a] && nu[b] == dp[b - wu.len()]);
            assert(wu.contains(wu[a]));
            assert(dp.contains(dp[b - wu.len()]));
            let k = choose|k: int| 0 <= k < u.len() && u[k] == wu[a];
            let m = choose|m: int| 0 <= m < p.len() && p[m] == (e, dp[b - wu.len()]);
            assert(u[k] != p[m].1);
        }
    }
    assert forall|i: int, j: int| 0 <= i < nu.len() && 0 <= j < np.len() implies nu[i]
        != np[j].1 by {
        if j == np.len() - 1 {
            if i < wu.len() {
                assert(nu[i] == wu[i]);
                assert(wu.contains(wu[i]));
            } else {
                assert(nu[i] == dp[i - wu.len()]);
                assert(dp.contains(dp[i - wu.len()]));
            }
        } else {
            assert(np[j] == q[j]);
            assert(q.contains(q[j]));
            let m = choose|m: int| 0 <= m < p.len() && p[m] == q[j];
            if i < wu.len() {
                assert(nu[i] == wu[i]);
                assert(wu.contains(wu[i]));
                let k = choose|k: int| 0 <= k < u.len() && u[k] == wu[i];
                assert(u[k] != p[m].1);
            } else {
                let g = dp[i - wu.len()];
                assert(nu[i] == g);
                assert(dp.contains(g));
                let m2 = choose|m2: int| 0 <= m2 < p.len() && p[m2] == (e, g);
                if g == q[j].1 {
                    if m < m2 {
                        assert(p[m].1 != p[m2].1);
                    } else if m2 < m {
                        assert(p[m2].1 != p[m].1);
                    }
                }
            }
        }
    }
    assert forall|i: int| 0 <= i < w.files.len() implies w.unassigned.contains(
        #[trigger] w.files[i],
    ) || has_file(w.plan, w.files[i]) by {
        let h = v.files[i];
        assert(u.contains(h) || has_file(p, h));
        if h == f {
            assert(np[np.len() - 1].1 == h);
        } else if u.contains(h) {
            assert(wu.contains(h));
            let m = choose|m: int| 0 <= m < wu.len() && wu[m] == h;
            assert(nu[m] == h);
        } else {
            let m = choose|m: int| 0 <= m < p.len() && #[trigger] p[m].1 == h;
            if p[m].0 == e {
                assert(p[m] == (e, h));
                assert(p.contains((e, h)));
                assert(dp.contains(h));
                let k = choose|k: int| 0 <= k < dp.len() && dp[k] == h;
                assert(nu[wu.len() + k] == h);
            } else {
                assert(p.contains(p[m]));
                assert(q.contains(p[m]));
                let k = choose|k: int| 0 <= k < q.len() && q[k] == p[m];
                assert(np[k].1 == h);
            }
        }
    }
}

pub proof fn lemma_unassign_preserves(v: AssignmentView, f: Seq<char>)
    requires
        v.wf(),
    ensures
        unassign_model(v, f).wf(),
{
    let p = v.plan;
    let u = v.unassigned;
    let q = without_entries(p, None, f);
    lemma_without_entries(p, None, f);
    let w = unassign_model(v, f);
    let nu = w.unassigned;
    assert(w.plan == q);
    assert forall|i: int, j: int|
        0 <= i < nu.len() && 0 <= j < nu.len() && i != j implies nu[i] != nu[j] by {
        if !u.contains(f) && (i == u.len() || j == u.len()) {
            let o = if i == u.len() { j } else { i };
            assert(nu[o] == u[o]);
        } else {
            assert(nu[i] == u[i] && nu[j] == u[j]);
        }
    }
    assert forall|i: int, j: int| 0 <= i < nu.len() && 0 <= j < q.len() implies nu[i]
        != q[j].1 by {
        assert(q.contains(q[j]));
        if !(i == u.len()) {
            assert(nu[i] == u[i]);
            let m = choose|m: int| 0 <= m < p.len() && p[m] == q[j];
            assert(u[i] != p[m].1);
        }
    }
    assert forall|i: int| 0 <= i < w.files.len() implies w.unassigned.contains(
        #[trigger] w.files[i],
    ) || has_file(w.plan, w.files[i]) by {
        let h = v.files[i];
        assert(u.contains(h) || has_file(p, h));
        if h == f {
            if !u.contains(f) {
                assert(nu[u.len() as int] == f);
            }
        } else if u.contains(h) {
            let m = choose|m: int| 0 <= m < u.len() && u[m] == h;
            assert(nu[m] == h);
        } else {
            let m = choose|m: int| 0 <= m < p.len() && #[trigger] p[m].1 == h;
            assert(p.contains(p[m]));
            assert(q.contains(p[m]));
            let k = choose|k: int| 0 <= k < q.len() && q[k] == p[m];
            assert(q[k].1 == h);
        }
    }
}

/// One edit of the assignment, as a value.
pub enum AssignmentEdit {
    Assign { episode: EpisodeView, file: Seq<char> },
    Unassign { file: Seq<char> },
}

/// The state after the edits `edits`, applied in order to `v`.
pub open spec fn apply_edits(v: AssignmentView, edits: Seq<AssignmentEdit>) -> AssignmentView
    decreases edits.len(),
{
    if edits.len() == 0 {
        v
    } else {
        let w = apply_edits(v, edits.drop_last());
        match edits.last() {
            AssignmentEdit::Assign { episode, file } => assign_model(w, episode, file),
            AssignmentEdit::Unassign { file } => unassign_model(w, file),
        }
    }
}

/// After any finite run of assignments and unassignments from a freshly
/// seeded state, every seeded file is either unassigned or in the plan and
/// never both, and no file stands under two episodes.
pub proof fn law_edits_keep_partition(
    episodes: Seq<EpisodeView>,
    files: Seq<Seq<char>>,
    edits: Seq<AssignmentEdit>,
)
    ensures
        apply_edits(seeded(episodes, files), edits).partitioned(),
        apply_edits(seeded(episodes, files), edits).one_episode_per_file(),
{
    lemma_seeded(episodes, files);
    lemma_edits_preserve(seeded(episodes, files), edits);
}

proof fn lemma_edits_preserve(v: AssignmentView, edits: Seq<AssignmentEdit>)
    requires
        v.wf(),
    ensures
        apply_edits(v, edits).wf(),
    decreases edits.len(),
{
    if edits.len() > 0 {
        lemma_edits_preserve(v, edits.drop_last());
        let w = apply_edits(v, edits.drop_last());
        match edits.last() {
            AssignmentEdit::Assign { episode, file } => lemma_assign_preserves(w, episode, file),
            AssignmentEdit::Unassign { file } => lemma_unassign_preserves(w, file),
        }
    }
}

/// Unassigning a file a second time changes nothing.
pub proof fn law_unassign_idempotent(v: AssignmentView, f: Seq<char>)
    ensures
        unassign_model(unassign_model(v, f), f) == unassign_model(v, f),
{
    let w = unassign_model(v, f);
    lemma_without_entries(v.plan, None, f);
    assert forall|i: int| 0 <= i < w.plan.len() implies !entry_dropped(
        #[trigger] w.plan[i],
        None,
        f,
    ) by {
        assert(w.plan.contains(w.plan[i]));
    }
    lemma_without_entries(w.plan, None, f);
    if !v.unassigned.contains(f) {
        assert(w.unassigned[v.unassigned.len() as int] == f);
    }
}

/// Assigning a file to one episode and then to another leaves it with the
/// second episode only: the first holds no entry any more.
pub proof fn law_reassign_moves_file(
    v: AssignmentView,
    f: Seq<char>,
    e: EpisodeView,
    e2: EpisodeView,
)
    requires
        e != e2,
    ensures
        lookup(assign_model(assign_model(v, e, f), e2, f).plan, e2) == Some(f),
        lookup(assign_model(assign_model(v, e, f), e2, f).plan, e) is None,
{
    let w1 = assign_model(v, e, f);
    let w2 = assign_model(w1, e2, f);
    let q2 = without_entries(w1.plan, Some(e2), f);
    assert(w2.plan.drop_last() =~= q2);
    lemma_without_entries(w1.plan, Some(e2), f);
    lemma_without_entries(v.plan, Some(e), f);
    lemma_lookup(q2, e);
    if let Some(x) = lookup(q2, e) {
        assert(q2.contains((e, x)));
        assert(w1.plan.contains((e, x)));
        let k = choose|k: int| 0 <= k < w1.plan.len() && w1.plan[k] == (e, x);
        if k < w1.plan.len() - 1 {
            assert(without_entries(v.plan, Some(e), f).contains(w1.plan[k])) by {
                assert(without_entries(v.plan, Some(e), f)[k] == w1.plan[k]);
            }
        }
    }
}


/// The position of the last episode whose number reads `label`, or -1.
pub open spec fn label_index(eps: Seq<EpisodeView>, label: Seq<char>) -> int
    decreases eps.len(),
{
    if eps.len() == 0 {
        -1
    } else if eps.last().episode == label {
        eps.len() - 1
    } else {
        label_index(eps.drop_last(), label)
    }
}

proof fn lemma_label_index(eps: Seq<EpisodeView>, label: Seq<char>)
    ensures
        -1 <= label_index(eps, label) < eps.len(),
        label_index(eps, label) >= 0 ==> eps[label_index(eps, label)].episode == label,
        forall|j: int| label_index(eps, label) < j < eps.len() ==> eps[j].episode != label,
    decreases eps.len(),
{
    if eps.len() > 0 && eps.last().episode != label {
        lemma_label_index(eps.drop_last(), label);
        assert forall|j: int| label_index(eps, label) < j < eps.len() implies eps[j].episode
            != label by {
            if j < eps.len() - 1 {
                assert(eps[j] == eps.drop_last()[j]);
            }
        }
    }
}

pub open spec fn episode_views(s: Seq<Episode>) -> Seq<EpisodeView> {
    s.map_values(|e: Episode| e@)
}

pub open spec fn file_views(s: Seq<LocalFile>) -> Seq<Seq<char>> {
    s.map_values(|f: LocalFile| f@)
}

pub open spec fn plan_views(s: Seq<(Episode, LocalFile)>) -> PlanView {
    s.map_values(|x: (Episode, LocalFile)| (x.0@, x.1@))
}

/// The episodes and files of one fetch, and how the user has matched them.
pub struct AssignmentState {
    episodes: Vec<Episode>,
    files: Vec<LocalFile>,
    unassigned: Vec<LocalFile>,
    plan: Vec<(Episode, LocalFile)>,
}

impl View for AssignmentState {
    type V = AssignmentView;

    closed spec fn view(&self) -> AssignmentView {
        AssignmentView {
            episodes: episode_views(self.episodes@),
            files: file_views(self.files@),
            unassigned: file_views(self.unassigned@),
            plan: plan_views(self.plan@),
        }
    }
}

fn contains_file(u: &Vec<LocalFile>, f: &LocalFile) -> (r: bool)
    ensures
        r == file_views(u@).contains(f@),
{
    let mut i: usize = 0;
    while i < u.len()
        invariant
            i <= u@.len(),
            forall|k: int| 0 <= k < i ==> u@[k]@ != f@,
        decreases u@.len() - i,
    {
        if u[i].same_as(f) {
            assert(file_views(u@)[i as int] == f@);
            return true;
        }
        i = i + 1;
    }
    assert forall|k: int| 0 <= k < file_views(u@).len() implies file_views(u@)[k] != f@ by {
        assert(file_views(u@)[k] == u@[k]@);
    }
    false
}

fn drop_file(u: &Vec<LocalFile>, f: &LocalFile) -> (r: Vec<LocalFile>)
    ensures
        file_views(r@) == without_file(file_views(u@), f@),
{
    let mut out: Vec<LocalFile> = Vec::new();
    let mut i: usize = 0;
    while i < u.len()
        invariant
            i <= u@.len(),
            file_views(out@) == without_file(file_views(u@).take(i as int), f@),
        decreases u@.len() - i,
    {
        let ghost before = out@;
        assert(file_views(u@).take(i as int + 1).drop_last() =~= file_views(u@).take(i as int));
        if !u[i].same_as(f) {
            out.push(u[i].clone());
            assert(file_views(out@) =~= file_views(before).push(u@[i as int]@));
        }
        i = i + 1;
    }
    assert(file_views(u@).take(i as int) =~= file_views(u@));
    out
}

impl AssignmentState {
    /// The state is consistent: see `AssignmentView::wf`.
    pub open spec fn wf(&self) -> bool {
        self@.wf()
    }

    /// An empty state: no episodes, no files.
    pub fn new() -> (r: AssignmentState)
        ensures
            r@ == seeded(Seq::empty(), Seq::empty()),
            r.wf(),
    {
        let r = AssignmentState {
            episodes: Vec::new(),
            files: Vec::new(),
            unassigned: Vec::new(),
            plan: Vec::new(),
        };
        proof {
            lemma_seeded(Seq::empty(), Seq::empty());
            assert(r@.episodes =~= Seq::empty());
            assert(r@.files =~= Seq::empty());
            assert(r@.unassigned =~= dedup(Seq::empty()));
            assert(r@.plan =~= Seq::empty());
        }
        r
    }

    /// Replaces the whole state with the result of a fetch: the plan is
    /// emptied and every file waits unassigned.
    pub fn seed(&mut self, episodes: Vec<Episode>, files: Vec<LocalFile>)
        ensures
            final(self)@ == seeded(episode_views(episodes@), file_views(files@)),
            final(self).wf(),
            file_views(files@).no_duplicates() ==> final(self)@.unassigned == file_views(files@),
    {
        let mut unassigned: Vec<LocalFile> = Vec::new();
        let mut i: usize = 0;
        while i < files.len()
            invariant
                i <= files@.len(),
                file_views(unassigned@) == dedup(file_views(files@).take(i as int)),
            decreases files@.len() - i,
        {
            let ghost before = unassigned@;
            assert(file_views(files@).take(i as int + 1).drop_last() =~= file_views(files@).take(
                i as int,
            ));
            if !contains_file(&unassigned, &files[i]) {
                unassigned.push(files[i].clone());
                assert(file_views(unassigned@) =~= file_views(before).push(files@[i as int]@));
            }
            i = i + 1;
        }
        assert(file_views(files@).take(i as int) =~= file_views(files@));
        let ghost ev = episode_views(episodes@);
        let ghost fv = file_views(files@);
        *self = AssignmentState { episodes, files, unassigned, plan: Vec::new() };
        proof {
            lemma_seeded(ev, fv);
            assert(self@.plan =~= Seq::empty());
        }
    }

    /// Assigns `file` to `episode`: the file leaves the unassigned pool and
    /// any episode it stood for, and a different file that `episode` held
    /// returns to the pool.
    pub fn assign(&mut self, file: &LocalFile, episode: &Episode)
        requires
            old(self).wf(),
        ensures
            final(self)@ == assign_model(old(self)@, episode@, file@),
            final(self).wf(),
    {
        let ghost v = self@;
        let ghost pv = plan_views(self.plan@);
        let mut unassigned = drop_file(&self.unassigned, file);
        let mut plan: Vec<(Episode, LocalFile)> = Vec::new();
        let mut i: usize = 0;
        while i < self.plan.len()
            invariant
                i <= self.plan@.len(),
                pv == plan_views(self.plan@),
                plan_views(plan@) == without_entries(pv.take(i as int), Some(episode@), file@),
                file_views(unassigned@) == without_file(v.unassigned, file@) + displaced(
                    pv.take(i as int),
                    episode@,
                    file@,
                ),
            decreases self.plan@.len() - i,
        {
            let ghost plan_before = plan@;
            let ghost pool_before = unassigned@;
            assert(pv.take(i as int + 1).drop_last() =~= pv.take(i as int));
            assert(pv.take(i as int + 1).last() == pv[i as int]);
            let key_hit = self.plan[i].0.same_as(episode);
            let file_hit = self.plan[i].1.same_as(file);
            if key_hit && !file_hit {
                unassigned.push(self.plan[i].1.clone());
                assert(file_views(unassigned@) =~= file_views(pool_before).push(
                    self.plan@[i as int].1@,
                ));
            }
            if !key_hit && !file_hit {
                plan.push((self.plan[i].0.clone(), self.plan[i].1.clone()));
                assert(plan_views(plan@) =~= plan_views(plan_before).push(pv[i as int]));
            }
            i = i + 1;
        }
        assert(pv.take(i as int) =~= pv);
        let ghost plan_before = plan@;
        plan.push((episode.clone(), file.clone()));
        assert(plan_views(plan@) =~= plan_views(plan_before).push((episode@, file@)));
        self.plan = plan;
        self.unassigned = unassigned;
        proof {
            lemma_assign_preserves(v, episode@, file@);
        }
    }

    /// Takes `file` out of the plan and returns it to the unassigned pool;
    /// a file already waiting there stays as it is.
    pub fn unassign(&mut self, file: &LocalFile)
        requires
            old(self).wf(),
        ensures
            final(self)@ == unassign_model(old(self)@, file@),
            final(self).wf(),
    {
        let ghost v = self@;
        let ghost pv = plan_views(self.plan@);
        let mut plan: Vec<(Episode, LocalFile)> = Vec::new();
        let mut i: usize = 0;
        while i < self.plan.len()
            invariant
                i <= self.plan@.len(),
                pv == plan_views(self.plan@),
                plan_views(plan@) == without_entries(pv.take(i as int), None, file@),
            decreases self.plan@.len() - i,
        {
            let ghost plan_before = plan@;
            assert(pv.take(i as int + 1).drop_last() =~= pv.take(i as int));
            assert(pv.take(i as int + 1).last() == pv[i as int]);
            if !self.plan[i].1.same_as(file) {
                plan.push((self.plan[i].0.clone(), self.plan[i].1.clone()));
                assert(plan_views(plan@) =~= plan_views(plan_before).push(pv[i as int]));
            }
            i = i + 1;
        }
        assert(pv.take(i as int) =~= pv);
        self.plan = plan;
        if !contains_file(&self.unassigned, file) {
            let ghost pool_before = self.unassigned@;
            self.unassigned.push(file.clone());
            assert(file_views(self.unassigned@) =~= file_views(pool_before).push(file@));
        }
        proof {
            lemma_unassign_preserves(v, file@);
        }
    }

    /// The episode that a typed episode number names: the last one whose
    /// number reads exactly `label`.
    pub fn episode_with_label(&self, label: &str) -> (r: Option<&Episode>)
        ensures
            match r {
                Some(e) => label_index(self@.episodes, label@) >= 0 && e@ == self@.episodes[label_index(
                    self@.episodes,
                    label@,
                )],
                None => label_index(self@.episodes, label@) == -1,
            },
    {
        let ghost ev = self@.episodes;
        proof {
            lemma_label_index(ev, label@);
        }
        let wanted = String::from_str(label);
        let mut i: usize = self.episodes.len();
        while i > 0
            invariant
                wanted@ == label@,
                i <= self.episodes@.len(),
                ev == episode_views(self.episodes@),
                forall|j: int| i <= j < ev.len() ==> ev[j].episode != label@,
                -1 <= label_index(ev, label@) < ev.len(),
                label_index(ev, label@) >= 0 ==> ev[label_index(ev, label@)].episode == label@,
                forall|j: int| label_index(ev, label@) < j < ev.len() ==> ev[j].episode != label@,
            decreases i,
        {
            let e = &self.episodes[i - 1];
            assert(ev[i - 1] == e@);
            if e.episode == wanted {
                return Some(e);
            }
            i = i - 1;
        }
        None
    }

    /// Assigns `file` to the episode that `label` names, if there is one;
    /// an empty label names none. Tells whether an assignment was made.
    pub fn assign_label(&mut self, file: &LocalFile, label: &str) -> (r: bool)
        requires
            old(self).wf(),
        ensures
            final(self).wf(),
            r == (label@.len() > 0 && label_index(old(self)@.episodes, label@) >= 0),
            r ==> final(self)@ == assign_model(
                old(self)@,
                old(self)@.episodes[label_index(old(self)@.episodes, label@)],
                file@,
            ),
            !r ==> final(self)@ == old(self)@,
    {
        if label.is_empty() {
            return false;
        }
        match self.episode_with_label(label) {
            Some(e) => {
                let episode = e.clone();
                self.assign(file, &episode);
                true
            },
            None => false,
        }
    }

    /// Forgets everything: no episodes, no files, no plan.
    pub fn clear(&mut self)
        ensures
            final(self)@ == seeded(Seq::empty(), Seq::empty()),
            final(self).wf(),
    {
        *self = AssignmentState::new();
    }

    /// The plan as it stands, for the renames.
    pub fn confirmed_plan(&self) -> (r: &Vec<(Episode, LocalFile)>)
        ensures
            plan_views(r@) == self@.plan,
    {
        &self.plan
    }

    pub fn episodes(&self) -> (r: &Vec<Episode>)
        ensures
            episode_views(r@) == self@.episodes,
    {
        &self.episodes
    }

    pub fn files(&self) -> (r: &Vec<LocalFile>)
        ensures
            file_views(r@) == self@.files,
    {
        &self.files
    }

    pub fn unassigned(&self) -> (r: &Vec<LocalFile>)
        ensures
            file_views(r@) == self@.unassigned,
    {
        &self.unassigned
    }
}

} // verus!
