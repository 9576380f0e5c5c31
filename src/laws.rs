//! Properties of the change-detection engine over whole poll cycles.

use crate::engine::{
    branch_names, commits_after, fresh_branches, fresh_prs, moved_heads, pr_ids, EngineState,
};
use crate::events::{commit_notice, commit_notices};
use crate::models::{Branch, FullCommit, PullRequest};
use crate::text::{branch_key_of, lemma_branch_key_injective};
use vstd::prelude::*;

verus! {

/// No two branches of `bs` share a name, as in any listing of one repository.
pub open spec fn distinct_names(bs: Seq<Branch>) -> bool {
    forall|i: int, j: int| 0 <= i < j < bs.len() ==> bs[i].name@ != bs[j].name@
}

proof fn lemma_distinct_prefix(bs: Seq<Branch>)
    requires
        distinct_names(bs),
        bs.len() > 0,
    ensures
        distinct_names(bs.drop_last()),
{
    let d = bs.drop_last();
    assert forall|i: int, j: int| 0 <= i < j < d.len() implies d[i].name@ != d[j].name@ by {
        assert(d[i] == bs[i] && d[j] == bs[j]);
    }
}

proof fn lemma_keys_differ(repo: Seq<char>, a: Seq<char>, b: Seq<char>)
    requires
        a != b,
    ensures
        branch_key_of(repo, a) != branch_key_of(repo, b),
{
    if branch_key_of(repo, a) == branch_key_of(repo, b) {
        lemma_branch_key_injective(repo, a, b);
    }
}

proof fn lemma_commits_at(seen: Map<Seq<char>, Seq<char>>, repo: Seq<char>, bs: Seq<Branch>, j: int)
    requires
        distinct_names(bs),
        0 <= j < bs.len(),
    ensures
        commits_after(seen, repo, bs).contains_key(branch_key_of(repo, bs[j].name@)),
        commits_after(seen, repo, bs)[branch_key_of(repo, bs[j].name@)] == bs[j].commit.sha@,
    decreases bs.len(),
{
    let d = bs.drop_last();
    assert(commits_after(seen, repo, bs) == commits_after(seen, repo, d).insert(
        branch_key_of(repo, bs.last().name@),
        bs.last().commit.sha@,
    ));
    if j < bs.len() - 1 {
        lemma_distinct_prefix(bs);
        assert(d[j] == bs[j]);
        lemma_commits_at(seen, repo, d, j);
        lemma_keys_differ(repo, bs[j].name@, bs.last().name@);
    }
}

proof fn lemma_commits_frame(
    seen: Map<Seq<char>, Seq<char>>,
    repo: Seq<char>,
    bs: Seq<Branch>,
    k: Seq<char>,
)
    requires
        forall|j: int| 0 <= j < bs.len() ==> branch_key_of(repo, bs[j].name@) != k,
    ensures
        commits_after(seen, repo, bs).contains_key(k) == seen.contains_key(k),
        commits_after(seen, repo, bs)[k] == seen[k],
    decreases bs.len(),
{
    if bs.len() > 0 {
        let d = bs.drop_last();
        assert forall|j: int| 0 <= j < d.len() implies branch_key_of(repo, d[j].name@) != k by {
            assert(d[j] == bs[j]);
        }
        lemma_commits_frame(seen, repo, d, k);
        assert(branch_key_of(repo, bs[bs.len() - 1].name@) != k);
    }
}

proof fn lemma_moved_in(seen: Map<Seq<char>, Seq<char>>, repo: Seq<char>, bs: Seq<Branch>, m: int)
    requires
        0 <= m < moved_heads(seen, repo, bs).len(),
    ensures
        exists|j: int| 0 <= j < bs.len() && bs[j] == moved_heads(seen, repo, bs)[m],
    decreases bs.len(),
{
    let d = bs.drop_last();
    let mv = moved_heads(seen, repo, bs);
    let md = moved_heads(seen, repo, d);
    if m < md.len() {
        assert(mv[m] == md[m]);
        lemma_moved_in(seen, repo, d, m);
        let j = choose|j: int| 0 <= j < d.len() && d[j] == md[m];
        assert(bs[j] == d[j]);
    } else {
        assert(mv[m] == bs[bs.len() - 1]);
    }
}

proof fn lemma_moved_iff(seen: Map<Seq<char>, Seq<char>>, repo: Seq<char>, bs: Seq<Branch>, j: int)
    requires
        distinct_names(bs),
        0 <= j < bs.len(),
    ensures
        moved_heads(seen, repo, bs).contains(bs[j]) <==> (seen.contains_key(
            branch_key_of(repo, bs[j].name@),
        ) && seen[branch_key_of(repo, bs[j].name@)] != bs[j].commit.sha@),
    decreases bs.len(),
{
    let d = bs.drop_last();
    let b = bs.last();
    let mv = moved_heads(seen, repo, bs);
    let md = moved_heads(seen, repo, d);
    let k = branch_key_of(repo, b.name@);
    lemma_distinct_prefix(bs);
    assert forall|i: int| 0 <= i < d.len() implies branch_key_of(repo, d[i].name@) != k by {
        assert(d[i] == bs[i]);
        lemma_keys_differ(repo, d[i].name@, b.name@);
    }
    lemma_commits_frame(seen, repo, d, k);
    assert(!md.contains(b)) by {
        if md.contains(b) {
            let m = choose|m: int| 0 <= m < md.len() && md[m] == b;
            lemma_moved_in(seen, repo, d, m);
            let i = choose|i: int| 0 <= i < d.len() && d[i] == md[m];
            assert(d[i] == bs[i]);
        }
    }
    if j < bs.len() - 1 {
        assert(d[j] == bs[j]);
        lemma_moved_iff(seen, repo, d, j);
        assert(bs[j].name@ != b.name@);
        if mv.contains(bs[j]) {
            let m = choose|m: int| 0 <= m < mv.len() && mv[m] == bs[j];
            if m < md.len() {
                assert(md[m] == mv[m]);
            }
        }
        if md.contains(bs[j]) {
            let m = choose|m: int| 0 <= m < md.len() && md[m] == bs[j];
            assert(mv[m] == md[m]);
        }
    } else {
        if seen.contains_key(k) && seen[k] != b.commit.sha@ {
            assert(mv[mv.len() - 1] == b);
        }
    }
}

proof fn lemma_moved_distinct(
    seen: Map<Seq<char>, Seq<char>>,
    repo: Seq<char>,
    bs: Seq<Branch>,
    m1: int,
    m2: int,
)
    requires
        distinct_names(bs),
        0 <= m1 < m2 < moved_heads(seen, repo, bs).len(),
    ensures
        moved_heads(seen, repo, bs)[m1].name@ != moved_heads(seen, repo, bs)[m2].name@,
    decreases bs.len(),
{
    let d = bs.drop_last();
    let mv = moved_heads(seen, repo, bs);
    let md = moved_heads(seen, repo, d);
    lemma_distinct_prefix(bs);
    assert(mv[m1] == md[m1]);
    if m2 < md.len() {
        assert(mv[m2] == md[m2]);
        lemma_moved_distinct(seen, repo, d, m1, m2);
    } else {
        assert(mv[m2] == bs[bs.len() - 1]);
        lemma_moved_in(seen, repo, d, m1);
        let i = choose|i: int| 0 <= i < d.len() && d[i] == md[m1];
        assert(d[i] == bs[i]);
    }
}

proof fn lemma_branch_names_has(bs: Seq<Branch>, j: int)
    requires
        0 <= j < bs.len(),
    ensures
        branch_names(bs).contains(bs[j].name@),
    decreases bs.len(),
{
    let d = bs.drop_last();
    assert(branch_names(bs) == branch_names(d).insert(bs.last().name@));
    if j < bs.len() - 1 {
        assert(d[j] == bs[j]);
        lemma_branch_names_has(d, j);
    }
}

proof fn lemma_branch_names_from(bs: Seq<Branch>, x: Seq<char>)
    requires
        branch_names(bs).contains(x),
    ensures
        exists|j: int| 0 <= j < bs.len() && bs[j].name@ == x,
    decreases bs.len(),
{
    let d = bs.drop_last();
    assert(branch_names(bs) == branch_names(d).insert(bs.last().name@));
    if x == bs.last().name@ {
        assert(bs[bs.len() - 1].name@ == x);
    } else {
        lemma_branch_names_from(d, x);
        let j = choose|j: int| 0 <= j < d.len() && d[j].name@ == x;
        assert(bs[j] == d[j]);
    }
}

proof fn lemma_fresh_in(known: Set<Seq<char>>, bs: Seq<Branch>, m: int)
    requires
        0 <= m < fresh_branches(known, bs).len(),
    ensures
        !known.contains(fresh_branches(known, bs)[m].name@),
        exists|j: int| 0 <= j < bs.len() && bs[j] == fresh_branches(known, bs)[m],
    decreases bs.len(),
{
    let d = bs.drop_last();
    let f = fresh_branches(known, bs);
    let fd = fresh_branches(known, d);
    if m < fd.len() {
        assert(f[m] == fd[m]);
        lemma_fresh_in(known, d, m);
        let j = choose|j: int| 0 <= j < d.len() && d[j] == fd[m];
        assert(bs[j] == d[j]);
    } else {
        assert(f[m] == bs[bs.len() - 1]);
    }
}

proof fn lemma_fresh_covers(known: Set<Seq<char>>, bs: Seq<Branch>, j: int)
    requires
        0 <= j < bs.len(),
        !known.contains(bs[j].name@),
    ensures
        exists|m: int|
            0 <= m < fresh_branches(known, bs).len() && fresh_branches(known, bs)[m].name@
                == bs[j].name@,
    decreases bs.len(),
{
    let d = bs.drop_last();
    let b = bs.last();
    let f = fresh_branches(known, bs);
    let fd = fresh_branches(known, d);
    if j < bs.len() - 1 {
        assert(d[j] == bs[j]);
        lemma_fresh_covers(known, d, j);
        let m = choose|m: int| 0 <= m < fd.len() && fd[m].name@ == d[j].name@;
        assert(f[m] == fd[m]);
    } else if branch_names(d).contains(b.name@) {
        lemma_branch_names_from(d, b.name@);
        let i = choose|i: int| 0 <= i < d.len() && d[i].name@ == b.name@;
        lemma_fresh_covers(known, d, i);
        let m = choose|m: int| 0 <= m < fd.len() && fd[m].name@ == d[i].name@;
        assert(f[m] == fd[m]);
    } else {
        assert(f[f.len() - 1] == b);
    }
}

proof fn lemma_fresh_distinct(known: Set<Seq<char>>, bs: Seq<Branch>, m1: int, m2: int)
    requires
        0 <= m1 < m2 < fresh_branches(known, bs).len(),
    ensures
        fresh_branches(known, bs)[m1].name@ != fresh_branches(known, bs)[m2].name@,
    decreases bs.len(),
{
    let d = bs.drop_last();
    let f = fresh_branches(known, bs);
    let fd = fresh_branches(known, d);
    assert(f[m1] == fd[m1]);
    if m2 < fd.len() {
        assert(f[m2] == fd[m2]);
        lemma_fresh_distinct(known, d, m1, m2);
    } else {
        assert(f[m2] == bs[bs.len() - 1]);
        lemma_fresh_in(known, d, m1);
        let i = choose|i: int| 0 <= i < d.len() && d[i] == fd[m1];
        lemma_branch_names_has(d, i);
    }
}

proof fn lemma_pr_ids_has(ps: Seq<PullRequest>, j: int)
    requires
        0 <= j < ps.len(),
    ensures
        pr_ids(ps).contains(ps[j].id),
    decreases ps.len(),
{
    let d = ps.drop_last();
    assert(pr_ids(ps) == pr_ids(d).insert(ps.last().id));
    if j < ps.len() - 1 {
        assert(d[j] == ps[j]);
        lemma_pr_ids_has(d, j);
    }
}

proof fn lemma_fresh_prs_in(known: Set<u64>, ps: Seq<PullRequest>, m: int)
    requires
        0 <= m < fresh_prs(known, ps).len(),
    ensures
        !known.contains(fresh_prs(known, ps)[m].id),
        exists|j: int| 0 <= j < ps.len() && ps[j] == fresh_prs(known, ps)[m],
    decreases ps.len(),
{
    let d = ps.drop_last();
    let f = fresh_prs(known, ps);
    let fd = fresh_prs(known, d);
    if m < fd.len() {
        assert(f[m] == fd[m]);
        lemma_fresh_prs_in(known, d, m);
        let j = choose|j: int| 0 <= j < d.len() && d[j] == fd[m];
        assert(ps[j] == d[j]);
    } else {
        assert(f[m] == ps[ps.len() - 1]);
    }
}

proof fn lemma_commit_notice_from(
    repo: Seq<char>,
    moved: Seq<Branch>,
    details: Seq<Option<FullCommit>>,
    e: int,
)
    requires
        moved.len() == details.len(),
        0 <= e < commit_notices(repo, moved, details).len(),
    ensures
        exists|m: int|
            0 <= m < moved.len() && details[m] is Some && commit_notices(repo, moved, details)[e]
                == commit_notice(repo, moved[m], details[m]->Some_0),
    decreases details.len(),
{
    let md = moved.drop_last();
    let dd = details.drop_last();
    let n = commit_notices(repo, moved, details);
    let nd = commit_notices(repo, md, dd);
    if e < nd.len() {
        assert(n[e] == nd[e]);
        lemma_commit_notice_from(repo, md, dd, e);
        let m = choose|m: int|
            0 <= m < md.len() && dd[m] is Some && nd[e] == commit_notice(repo, md[m], dd[m]->Some_0);
        assert(md[m] == moved[m] && dd[m] == details[m]);
    } else {
        let last = details.len() - 1;
        assert(details[last] is Some);
        assert(n[e] == commit_notice(repo, moved[last], details[last]->Some_0));
    }
}

/// A branch seen for the first time is a baseline: it gets no new-commit event,
/// and its head pointer is recorded as seen.
pub proof fn baseline_suppression(
    s: EngineState,
    repo: Seq<char>,
    bs: Seq<Branch>,
    v: Option<Seq<char>>,
    j: int,
)
    requires
        distinct_names(bs),
        0 <= j < bs.len(),
        !s.commits.contains_key(branch_key_of(repo, bs[j].name@)),
    ensures
        !moved_heads(s.commits, repo, bs).contains(bs[j]),
        s.after_branches(repo, bs, v).commits.contains_key(branch_key_of(repo, bs[j].name@)),
        s.after_branches(repo, bs, v).commits[branch_key_of(repo, bs[j].name@)] == bs[j].commit.sha@,
{
    lemma_moved_iff(s.commits, repo, bs, j);
    lemma_commits_at(s.commits, repo, bs, j);
}

/// A branch whose seen pointer `A` differs from the observed pointer `B` is
/// moved exactly once in the cycle, as the branch at `B`, and its seen
/// pointer becomes `B`.
pub proof fn change_detection(
    s: EngineState,
    repo: Seq<char>,
    bs: Seq<Branch>,
    v: Option<Seq<char>>,
    j: int,
)
    requires
        distinct_names(bs),
        0 <= j < bs.len(),
        s.commits.contains_key(branch_key_of(repo, bs[j].name@)),
        s.commits[branch_key_of(repo, bs[j].name@)] != bs[j].commit.sha@,
    ensures
        exists|m: int|
            {
                &&& 0 <= m < moved_heads(s.commits, repo, bs).len()
                &&& moved_heads(s.commits, repo, bs)[m] == bs[j]
                &&& forall|m2: int|
                    0 <= m2 < moved_heads(s.commits, repo, bs).len() && (#[trigger] moved_heads(
                        s.commits,
                        repo,
                        bs,
                    )[m2]).name@ == bs[j].name@ ==> m2 == m
            },
        s.after_branches(repo, bs, v).commits[branch_key_of(repo, bs[j].name@)] == bs[j].commit.sha@,
{
    let mv = moved_heads(s.commits, repo, bs);
    lemma_moved_iff(s.commits, repo, bs, j);
    lemma_commits_at(s.commits, repo, bs, j);
    assert(mv.contains(bs[j]));
    let m = choose|m: int| 0 <= m < mv.len() && mv[m] == bs[j];
    assert forall|m2: int| 0 <= m2 < mv.len() && (#[trigger] mv[m2]).name@ == bs[j].name@ implies m2
        == m by {
        if m2 < m {
            lemma_moved_distinct(s.commits, repo, bs, m2, m);
        } else if m < m2 {
            lemma_moved_distinct(s.commits, repo, bs, m, m2);
        }
    }
}

/// Re-running a cycle on the same branch and pull-request collections
/// yields no moved heads, no new branches and no new pull requests.
pub proof fn idempotent_cycle(
    s: EngineState,
    repo: Seq<char>,
    bs: Seq<Branch>,
    ps: Seq<PullRequest>,
    v: Option<Seq<char>>,
    w: Option<Seq<char>>,
)
    requires
        distinct_names(bs),
    ensures
        moved_heads(s.after_branches(repo, bs, v).commits, repo, bs).len() == 0,
        s.after_branches(repo, bs, v).new_branches(repo, bs).len() == 0,
        fresh_prs(s.after_prs(repo, ps, w).known_prs(repo), ps).len() == 0,
{
    let s1 = s.after_branches(repo, bs, v);
    let mv = moved_heads(s1.commits, repo, bs);
    if mv.len() > 0 {
        lemma_moved_in(s1.commits, repo, bs, 0);
        let j = choose|j: int| 0 <= j < bs.len() && bs[j] == mv[0];
        lemma_moved_iff(s1.commits, repo, bs, j);
        lemma_commits_at(s.commits, repo, bs, j);
        assert(mv.contains(bs[j]));
    }
    let k = s1.branches[repo];
    let f = fresh_branches(k, bs);
    if f.len() > 0 {
        lemma_fresh_in(k, bs, 0);
        let j = choose|j: int| 0 <= j < bs.len() && bs[j] == f[0];
        lemma_branch_names_has(bs, j);
    }
    let s2 = s.after_prs(repo, ps, w);
    let fp = fresh_prs(s2.known_prs(repo), ps);
    if fp.len() > 0 {
        lemma_fresh_prs_in(s2.known_prs(repo), ps, 0);
        let j = choose|j: int| 0 <= j < ps.len() && ps[j] == fp[0];
        lemma_pr_ids_has(ps, j);
    }
}

/// A pull request that appeared in one cycle is never new in a later one,
/// whatever its title or other fields have become; the identifiers known for
/// a repository only grow.
pub proof fn pr_dedup(
    s: EngineState,
    repo: Seq<char>,
    ps: Seq<PullRequest>,
    w: Option<Seq<char>>,
    later: Seq<PullRequest>,
    i: int,
)
    requires
        0 <= i < ps.len(),
    ensures
        s.known_prs(repo).subset_of(s.after_prs(repo, ps, w).known_prs(repo)),
        s.after_prs(repo, ps, w).known_prs(repo).contains(ps[i].id),
        forall|m: int|
            0 <= m < fresh_prs(s.after_prs(repo, ps, w).known_prs(repo), later).len() ==> (
            #[trigger] fresh_prs(s.after_prs(repo, ps, w).known_prs(repo), later)[m]).id != ps[i].id,
{
    let k = s.after_prs(repo, ps, w).known_prs(repo);
    lemma_pr_ids_has(ps, i);
    assert forall|m: int| 0 <= m < fresh_prs(k, later).len() implies (#[trigger] fresh_prs(
        k,
        later,
    )[m]).id != ps[i].id by {
        lemma_fresh_prs_in(k, later, m);
    }
}

/// The first sighting of a repository gives no new-branch events; in the next
/// cycle, exactly the branches whose names were not there before are new,
/// each name once.
pub proof fn new_branch_baseline(
    s: EngineState,
    repo: Seq<char>,
    bs: Seq<Branch>,
    v: Option<Seq<char>>,
    next: Seq<Branch>,
)
    requires
        !s.branches.contains_key(repo),
    ensures
        s.new_branches(repo, bs).len() == 0,
        forall|m: int|
            0 <= m < s.after_branches(repo, bs, v).new_branches(repo, next).len() ==> {
                &&& !branch_names(bs).contains(
                    (#[trigger] s.after_branches(repo, bs, v).new_branches(repo, next)[m]).name@,
                )
                &&& next.contains(s.after_branches(repo, bs, v).new_branches(repo, next)[m])
            },
        forall|j: int|
            0 <= j < next.len() && !branch_names(bs).contains(#[trigger] next[j].name@) ==> exists|m: int|
                0 <= m < s.after_branches(repo, bs, v).new_branches(repo, next).len()
                    && s.after_branches(repo, bs, v).new_branches(repo, next)[m].name@
                    == next[j].name@,
        forall|m1: int, m2: int|
            0 <= m1 < m2 < s.after_branches(repo, bs, v).new_branches(repo, next).len() ==> (
            #[trigger] s.after_branches(repo, bs, v).new_branches(repo, next)[m1]).name@ != (
            #[trigger] s.after_branches(repo, bs, v).new_branches(repo, next)[m2]).name@,
{
    let s1 = s.after_branches(repo, bs, v);
    assert(s1.branches[repo] =~= branch_names(bs));
    let f = s1.new_branches(repo, next);
    assert(f == fresh_branches(branch_names(bs), next));
    assert forall|m: int| 0 <= m < f.len() implies {
        &&& !branch_names(bs).contains((#[trigger] f[m]).name@)
        &&& next.contains(f[m])
    } by {
        lemma_fresh_in(branch_names(bs), next, m);
        let j = choose|j: int| 0 <= j < next.len() && next[j] == f[m];
    }
    assert forall|j: int| 0 <= j < next.len() && !branch_names(bs).contains(
        #[trigger] next[j].name@,
    ) implies exists|m: int| 0 <= m < f.len() && f[m].name@ == next[j].name@ by {
        lemma_fresh_covers(branch_names(bs), next, j);
    }
    assert forall|m1: int, m2: int| 0 <= m1 < m2 < f.len() implies (#[trigger] f[m1]).name@ != (
    #[trigger] f[m2]).name@ by {
        lemma_fresh_distinct(branch_names(bs), next, m1, m2);
    }
}

/// When resolving a moved head fails, no event names that branch, yet its
/// seen pointer is the new one, so the next cycle does not resolve it again.
pub proof fn failed_resolution_isolated(
    s: EngineState,
    repo: Seq<char>,
    bs: Seq<Branch>,
    v: Option<Seq<char>>,
    details: Seq<Option<FullCommit>>,
    m: int,
)
    requires
        distinct_names(bs),
        details.len() == moved_heads(s.commits, repo, bs).len(),
        0 <= m < details.len(),
        details[m] is None,
    ensures
        forall|e: int|
            0 <= e < commit_notices(repo, moved_heads(s.commits, repo, bs), details).len() ==> (
            #[trigger] commit_notices(repo, moved_heads(s.commits, repo, bs), details)[e])->NewCommit_branch
                != moved_heads(s.commits, repo, bs)[m].name@,
        s.after_branches(repo, bs, v).commits[branch_key_of(
            repo,
            moved_heads(s.commits, repo, bs)[m].name@,
        )] == moved_heads(s.commits, repo, bs)[m].commit.sha@,
        !moved_heads(s.after_branches(repo, bs, v).commits, repo, bs).contains(
            moved_heads(s.commits, repo, bs)[m],
        ),
{
    let mv = moved_heads(s.commits, repo, bs);
    let n = commit_notices(repo, mv, details);
    lemma_moved_in(s.commits, repo, bs, m);
    let j = choose|j: int| 0 <= j < bs.len() && bs[j] == mv[m];
    lemma_commits_at(s.commits, repo, bs, j);
    let s1 = s.after_branches(repo, bs, v);
    lemma_moved_iff(s1.commits, repo, bs, j);
    assert forall|e: int| 0 <= e < n.len() implies (#[trigger] n[e])->NewCommit_branch
        != mv[m].name@ by {
        lemma_commit_notice_from(repo, mv, details, e);
        let m2 = choose|m2: int|
            0 <= m2 < mv.len() && details[m2] is Some && n[e] == commit_notice(
                repo,
                mv[m2],
                details[m2]->Some_0,
            );
        if m2 < m {
            lemma_moved_distinct(s.commits, repo, bs, m2, m);
        } else if m < m2 {
            lemma_moved_distinct(s.commits, repo, bs, m, m2);
        }
    }
}


proof fn lemma_commit_notice_to(
    repo: Seq<char>,
    moved: Seq<Branch>,
    details: Seq<Option<FullCommit>>,
    m: int,
)
    requires
        moved.len() == details.len(),
        0 <= m < details.len(),
        details[m] is Some,
    ensures
        exists|e: int|
            0 <= e < commit_notices(repo, moved, details).len() && commit_notices(repo, moved, details)[e]
                == commit_notice(repo, moved[m], details[m]->Some_0),
    decreases details.len(),
{
    let md = moved.drop_last();
    let dd = details.drop_last();
    let n = commit_notices(repo, moved, details);
    let nd = commit_notices(repo, md, dd);
    if m < details.len() - 1 {
        assert(md[m] == moved[m] && dd[m] == details[m]);
        lemma_commit_notice_to(repo, md, dd, m);
        let e = choose|e: int|
            0 <= e < nd.len() && nd[e] == commit_notice(repo, md[m], dd[m]->Some_0);
        assert(n[e] == nd[e]);
    } else {
        assert(n[nd.len() as int] == commit_notice(repo, moved[m], details[m]->Some_0));
    }
}

proof fn lemma_commit_notices_distinct(
    repo: Seq<char>,
    moved: Seq<Branch>,
    details: Seq<Option<FullCommit>>,
    e1: int,
    e2: int,
)
    requires
        distinct_names(moved),
        moved.len() == details.len(),
        0 <= e1 < e2 < commit_notices(repo, moved, details).len(),
    ensures
        commit_notices(repo, moved, details)[e1]->NewCommit_branch != commit_notices(
            repo,
            moved,
            details,
        )[e2]->NewCommit_branch,
    decreases details.len(),
{
    let md = moved.drop_last();
    let dd = details.drop_last();
    let n = commit_notices(repo, moved, details);
    let nd = commit_notices(repo, md, dd);
    lemma_distinct_prefix(moved);
    assert(n[e1] == nd[e1]);
    if e2 < nd.len() {
        assert(n[e2] == nd[e2]);
        lemma_commit_notices_distinct(repo, md, dd, e1, e2);
    } else {
        let last = details.len() - 1;
        assert(n[e2] == commit_notice(repo, moved[last], details[last]->Some_0));
        lemma_commit_notice_from(repo, md, dd, e1);
        let m = choose|m: int|
            0 <= m < md.len() && dd[m] is Some && nd[e1] == commit_notice(repo, md[m], dd[m]->Some_0);
        assert(md[m] == moved[m]);
    }
}

/// Where the moved head of a branch resolves, the cycle gives exactly one
/// new-commit event for that branch, built from the detail of its new head.
pub proof fn single_commit_event(
    s: EngineState,
    repo: Seq<char>,
    bs: Seq<Branch>,
    j: int,
    details: Seq<Option<FullCommit>>,
)
    requires
        distinct_names(bs),
        0 <= j < bs.len(),
        s.commits.contains_key(branch_key_of(repo, bs[j].name@)),
        s.commits[branch_key_of(repo, bs[j].name@)] != bs[j].commit.sha@,
        details.len() == moved_heads(s.commits, repo, bs).len(),
        forall|m: int|
            0 <= m < details.len() && moved_heads(s.commits, repo, bs)[m] == bs[j] ==> (
            #[trigger] details[m]) is Some,
    ensures
        exists|m: int, e: int|
            {
                &&& 0 <= m < details.len()
                &&& moved_heads(s.commits, repo, bs)[m] == bs[j]
                &&& 0 <= e < commit_notices(repo, moved_heads(s.commits, repo, bs), details).len()
                &&& commit_notices(repo, moved_heads(s.commits, repo, bs), details)[e]
                    == commit_notice(repo, bs[j], details[m]->Some_0)
                &&& forall|e2: int|
                    0 <= e2 < commit_notices(repo, moved_heads(s.commits, repo, bs), details).len()
                        && (#[trigger] commit_notices(
                        repo,
                        moved_heads(s.commits, repo, bs),
                        details,
                    )[e2])->NewCommit_branch == bs[j].name@ ==> e2 == e
            },
{
    let mv = moved_heads(s.commits, repo, bs);
    let n = commit_notices(repo, mv, details);
    lemma_moved_iff(s.commits, repo, bs, j);
    assert(mv.contains(bs[j]));
    let m = choose|m: int| 0 <= m < mv.len() && mv[m] == bs[j];
    assert(details[m] is Some);
    assert forall|a: int, b: int| 0 <= a < b < mv.len() implies mv[a].name@ != mv[b].name@ by {
        lemma_moved_distinct(s.commits, repo, bs, a, b);
    }
    lemma_commit_notice_to(repo, mv, details, m);
    let e = choose|e: int| 0 <= e < n.len() && n[e] == commit_notice(repo, mv[m], details[m]->Some_0);
    assert forall|e2: int| 0 <= e2 < n.len() && (#[trigger] n[e2])->NewCommit_branch == bs[j].name@
        implies e2 == e by {
        if e2 < e {
            lemma_commit_notices_distinct(repo, mv, details, e2, e);
        } else if e < e2 {
            lemma_commit_notices_distinct(repo, mv, details, e, e2);
        }
    }
}

} // verus!
