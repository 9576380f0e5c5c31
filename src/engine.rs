//! The change-detection engine: dedup state, and how each freshly fetched
//! collection is diffed against it.

use crate::models::{Branch, PullRequest};
use crate::table::Table;
use crate::text::{split_commas, split_commas_of, string_views, branch_key, branch_key_of, branches_url, branches_url_of, pulls_url, pulls_url_of};
use vstd::prelude::*;

verus! {

/// What a conditional fetch of a collection reported.
pub enum Fetched<T> {
    /// The resource has not changed since the validator presented.
    Unchanged,
    /// The full collection, and the validator that came with it, if any.
    Fresh { items: Vec<T>, validator: Option<String> },
}

/// What the engine found in one branch collection: branches whose head moved
/// to another commit, and branches that were never seen before.
pub struct BranchPlan {
    pub moved: Vec<Branch>,
    pub created: Vec<Branch>,
}

/// The engine's dedup state as mathematical maps.
pub struct EngineState {
    /// Branch scope key to the last processed head pointer.
    pub commits: Map<Seq<char>, Seq<char>>,
    /// Repository to the branch names known to exist.
    pub branches: Map<Seq<char>, Set<Seq<char>>>,
    /// Repository to the pull-request identifiers already notified.
    pub prs: Map<Seq<char>, Set<u64>>,
    /// Resource URL to the latest cache validator.
    pub validators: Map<Seq<char>, Seq<char>>,
}

/// The view of an optional string.
pub open spec fn opt_view(o: Option<String>) -> Option<Seq<char>> {
    match o {
        Some(s) => Some(s@),
        None => None,
    }
}

/// The set of the views of a list of strings.
pub open spec fn string_set(s: Seq<String>) -> Set<Seq<char>>
    decreases s.len(),
{
    if s.len() == 0 {
        Set::empty()
    } else {
        string_set(s.drop_last()).insert(s.last()@)
    }
}

/// The seen-commit map after every branch of `bs`, in order, recorded its head.
pub open spec fn commits_after(
    seen: Map<Seq<char>, Seq<char>>,
    repo: Seq<char>,
    bs: Seq<Branch>,
) -> Map<Seq<char>, Seq<char>>
    decreases bs.len(),
{
    if bs.len() == 0 {
        seen
    } else {
        commits_after(seen, repo, bs.drop_last()).insert(
            branch_key_of(repo, bs.last().name@),
            bs.last().commit.sha@,
        )
    }
}

/// The branches of `bs` whose head differs from the pointer recorded for them
/// when they are reached; a branch with no recorded pointer is a baseline.
pub open spec fn moved_heads(seen: Map<Seq<char>, Seq<char>>, repo: Seq<char>, bs: Seq<Branch>) -> Seq<
    Branch,
>
    decreases bs.len(),
{
    if bs.len() == 0 {
        seq![]
    } else {
        let before = commits_after(seen, repo, bs.drop_last());
        let b = bs.last();
        let k = branch_key_of(repo, b.name@);
        let rest = moved_heads(seen, repo, bs.drop_last());
        if before.contains_key(k) && before[k] != b.commit.sha@ {
            rest.push(b)
        } else {
            rest
        }
    }
}

/// The names of the branches of `bs`.
pub open spec fn branch_names(bs: Seq<Branch>) -> Set<Seq<char>>
    decreases bs.len(),
{
    if bs.len() == 0 {
        Set::empty()
    } else {
        branch_names(bs.drop_last()).insert(bs.last().name@)
    }
}

/// The first branch of each name in `bs` that is not in `known`, in order.
pub open spec fn fresh_branches(known: Set<Seq<char>>, bs: Seq<Branch>) -> Seq<Branch>
    decreases bs.len(),
{
    if bs.len() == 0 {
        seq![]
    } else {
        let d = bs.drop_last();
        let b = bs.last();
        if known.contains(b.name@) || branch_names(d).contains(b.name@) {
            fresh_branches(known, d)
        } else {
            fresh_branches(known, d).push(b)
        }
    }
}

/// The identifiers of the pull requests of `ps`.
pub open spec fn pr_ids(ps: Seq<PullRequest>) -> Set<u64>
    decreases ps.len(),
{
    if ps.len() == 0 {
        Set::empty()
    } else {
        pr_ids(ps.drop_last()).insert(ps.last().id)
    }
}

/// The first pull request of each identifier in `ps` that is not in `known`, in order.
pub open spec fn fresh_prs(known: Set<u64>, ps: Seq<PullRequest>) -> Seq<PullRequest>
    decreases ps.len(),
{
    if ps.len() == 0 {
        seq![]
    } else {
        let d = ps.drop_last();
        let p = ps.last();
        if known.contains(p.id) || pr_ids(d).contains(p.id) {
            fresh_prs(known, d)
        } else {
            fresh_prs(known, d).push(p)
        }
    }
}

/// The validator table after a fetch of `url` that returned `v`.
pub open spec fn with_validator(
    t: Map<Seq<char>, Seq<char>>,
    url: Seq<char>,
    v: Option<Seq<char>>,
) -> Map<Seq<char>, Seq<char>> {
    match v {
        Some(x) => t.insert(url, x),
        None => t,
    }
}

impl EngineState {
    /// The state at process start.
    pub open spec fn empty() -> EngineState {
        EngineState {
            commits: Map::empty(),
            branches: Map::empty(),
            prs: Map::empty(),
            validators: Map::empty(),
        }
    }

    /// The branch names known for `repo`; none for a repository never seen.
    pub open spec fn known_branches(self, repo: Seq<char>) -> Set<Seq<char>> {
        if self.branches.contains_key(repo) {
            self.branches[repo]
        } else {
            Set::empty()
        }
    }

    /// The pull-request identifiers already notified for `repo`.
    pub open spec fn known_prs(self, repo: Seq<char>) -> Set<u64> {
        if self.prs.contains_key(repo) {
            self.prs[repo]
        } else {
            Set::empty()
        }
    }

    /// The branches of a fresh collection that get a new-branch event: none for
    /// a repository seen for the first time.
    pub open spec fn new_branches(self, repo: Seq<char>, bs: Seq<Branch>) -> Seq<Branch> {
        if self.branches.contains_key(repo) {
            fresh_branches(self.branches[repo], bs)
        } else {
            seq![]
        }
    }

    /// The state after a fresh branch collection `bs` of `repo` came with validator `v`.
    pub open spec fn after_branches(self, repo: Seq<char>, bs: Seq<Branch>, v: Option<Seq<char>>) -> EngineState {
        EngineState {
            commits: commits_after(self.commits, repo, bs),
            branches: self.branches.insert(repo, self.known_branches(repo).union(branch_names(bs))),
            prs: self.prs,
            validators: with_validator(self.validators, branches_url_of(repo), v),
        }
    }

    /// The state after a fresh pull-request collection `ps` of `repo` came with validator `v`.
    pub open spec fn after_prs(self, repo: Seq<char>, ps: Seq<PullRequest>, v: Option<Seq<char>>) -> EngineState {
        EngineState {
            commits: self.commits,
            branches: self.branches,
            prs: self.prs.insert(repo, self.known_prs(repo).union(pr_ids(ps))),
            validators: with_validator(self.validators, pulls_url_of(repo), v),
        }
    }
}

proof fn lemma_string_set(s: Seq<String>)
    ensures
        forall|x: Seq<char>|
            string_set(s).contains(x) <==> exists|i: int| 0 <= i < s.len() && s[i]@ == x,
    decreases s.len(),
{
    if s.len() > 0 {
        let d = s.drop_last();
        lemma_string_set(d);
        assert forall|x: Seq<char>|
            string_set(s).contains(x) <==> exists|i: int| 0 <= i < s.len() && s[i]@ == x by {
            assert(string_set(s) == string_set(d).insert(s.last()@));
            if string_set(s).contains(x) {
                if x == s.last()@ {
                    assert(s[s.len() - 1]@ == x);
                } else {
                    assert(string_set(d).contains(x));
                    let i = choose|i: int| 0 <= i < d.len() && d[i]@ == x;
                    assert(s[i] == d[i]);
                }
            }
            if exists|i: int| 0 <= i < s.len() && s[i]@ == x {
                let i = choose|i: int| 0 <= i < s.len() && s[i]@ == x;
                if i < s.len() - 1 {
                    assert(d[i] == s[i]);
                }
            }
        }
    }
}

fn contains_string(v: &Vec<String>, x: &String) -> (r: bool)
    ensures
        r == string_set(v@).contains(x@),
{
    proof {
        lemma_string_set(v@);
    }
    let mut j: usize = 0;
    while j < v.len()
        invariant
            j <= v@.len(),
            forall|k: int| 0 <= k < j ==> v@[k]@ != x@,
        decreases v@.len() - j,
    {
        if v[j] == *x {
            proof {
                lemma_string_set(v@);
                assert(v@[j as int]@ == x@);
                assert(exists|i: int| 0 <= i < v@.len() && v@[i]@ == x@);
                assert(string_set(v@).contains(x@));
            }
            return true;
        }
        j = j + 1;
    }
    false
}

fn copy_strings(v: &Vec<String>) -> (r: Vec<String>)
    ensures
        r@ == v@,
{
    let mut r: Vec<String> = Vec::new();
    let mut j: usize = 0;
    while j < v.len()
        invariant
            j <= v@.len(),
            r@ == v@.take(j as int),
        decreases v@.len() - j,
    {
        r.push(v[j].clone());
        assert(r@ =~= v@.take(j + 1));
        j = j + 1;
    }
    assert(v@.take(v@.len() as int) =~= v@);
    r
}

fn copy_ids(v: &Vec<u64>) -> (r: Vec<u64>)
    ensures
        r@ == v@,
{
    let mut r: Vec<u64> = Vec::new();
    let mut j: usize = 0;
    while j < v.len()
        invariant
            j <= v@.len(),
            r@ == v@.take(j as int),
        decreases v@.len() - j,
    {
        r.push(v[j]);
        assert(r@ =~= v@.take(j + 1));
        j = j + 1;
    }
    assert(v@.take(v@.len() as int) =~= v@);
    r
}

fn contains_id(v: &Vec<u64>, x: u64) -> (r: bool)
    ensures
        r == v@.to_set().contains(x),
{
    let mut j: usize = 0;
    while j < v.len()
        invariant
            j <= v@.len(),
            forall|k: int| 0 <= k < j ==> v@[k] != x,
        decreases v@.len() - j,
    {
        if v[j] == x {
            assert(v@.contains(x));
            return true;
        }
        j = j + 1;
    }
    false
}

/// The dedup state of the engine, and the organizations it polls.
pub struct GithubNotifier {
    orgs: Vec<String>,
    seen_commits: Table<String>,
    seen_prs: Table<Vec<u64>>,
    seen_branches: Table<Vec<String>>,
    validators: Table<String>,
}

impl View for GithubNotifier {
    type V = EngineState;

    closed spec fn view(&self) -> EngineState {
        EngineState {
            commits: self.seen_commits@.map_values(|s: String| s@),
            branches: self.seen_branches@.map_values(|v: Vec<String>| string_set(v@)),
            prs: self.seen_prs@.map_values(|v: Vec<u64>| v@.to_set()),
            validators: self.validators@.map_values(|s: String| s@),
        }
    }
}

impl GithubNotifier {
    /// The engine's internal invariant.
    pub closed spec fn wf(&self) -> bool {
        &&& self.seen_commits.wf()
        &&& self.seen_prs.wf()
        &&& self.seen_branches.wf()
        &&& self.validators.wf()
    }

    /// The organizations that the engine polls.
    pub closed spec fn orgs_view(&self) -> Seq<String> {
        self.orgs@
    }

    /// The organizations that the engine polls.
    pub fn orgs(&self) -> (r: &Vec<String>)
        ensures
            r@ == self.orgs_view(),
    {
        &self.orgs
    }

    /// An engine that has seen nothing yet, for the comma-separated
    /// organization names `orgs`.
    pub fn new(orgs: &str) -> (r: GithubNotifier)
        ensures
            r.wf(),
            r@ == EngineState::empty(),
            string_views(r.orgs_view()) == split_commas(orgs@),
    {
        let r = GithubNotifier {
            orgs: split_commas_of(orgs),
            seen_commits: Table::new(),
            seen_prs: Table::new(),
            seen_branches: Table::new(),
            validators: Table::new(),
        };
        assert(r@.commits =~= Map::empty());
        assert(r@.branches =~= Map::empty());
        assert(r@.prs =~= Map::empty());
        assert(r@.validators =~= Map::empty());
        r
    }

    /// The validator stored for `url`, to present on its next fetch.
    pub fn validator(&self, url: &String) -> (r: Option<String>)
        requires
            self.wf(),
        ensures
            match r {
                Some(v) => self@.validators.contains_key(url@) && self@.validators[url@] == v@,
                None => !self@.validators.contains_key(url@),
            },
    {
        match self.validators.get(url) {
            Some(v) => Some(v.clone()),
            None => None,
        }
    }

    fn store_validator(&mut self, url: String, v: Option<String>)
        requires
            old(self).wf(),
        ensures
            final(self).wf(),
            final(self).orgs_view() == old(self).orgs_view(),
            final(self)@ == (EngineState {
                validators: with_validator(old(self)@.validators, url@, opt_view(v)),
                ..old(self)@
            }),
    {
        if let Some(x) = v {
            self.validators.insert(url, x);
            assert(self@.validators =~= old(self)@.validators.insert(url@, x@));
        }
    }

    fn record_heads(&mut self, repo: &String, bs: &Vec<Branch>) -> (moved: Vec<Branch>)
        requires
            old(self).wf(),
        ensures
            final(self).wf(),
            final(self).orgs_view() == old(self).orgs_view(),
            final(self)@ == (EngineState {
                commits: commits_after(old(self)@.commits, repo@, bs@),
                ..old(self)@
            }),
            moved@ == moved_heads(old(self)@.commits, repo@, bs@),
    {
        let ghost seen0 = self@.commits;
        let mut moved: Vec<Branch> = Vec::new();
        let mut i: usize = 0;
        while i < bs.len()
            invariant
                i <= bs@.len(),
                self.wf(),
                self.orgs == old(self).orgs,
                self@ == (EngineState { commits: commits_after(seen0, repo@, bs@.take(i as int)), ..old(self)@ }),
                moved@ == moved_heads(seen0, repo@, bs@.take(i as int)),
            decreases bs@.len() - i,
        {
            let b = &bs[i];
            let key = branch_key(repo, &b.name);
            proof {
                assert(bs@.take(i + 1).drop_last() =~= bs@.take(i as int));
                assert(bs@.take(i + 1).last() == bs@[i as int]);
            }
            let moved_here = match self.seen_commits.get(&key) {
                Some(seen) => !(*seen == b.commit.sha),
                None => false,
            };
            if moved_here {
                moved.push(b.duplicate());
            }
            let ghost before = self.seen_commits@;
            self.seen_commits.insert(key, b.commit.sha.clone());
            proof {
                assert(self@.commits =~= before.map_values(|s: String| s@).insert(key@, b.commit.sha@));
            }
            i = i + 1;
        }
        proof {
            assert(bs@.take(bs@.len() as int) =~= bs@);
        }
        moved
    }

    fn record_branch_names(&mut self, repo: &String, bs: &Vec<Branch>) -> (created: Vec<Branch>)
        requires
            old(self).wf(),
        ensures
            final(self).wf(),
            final(self).orgs_view() == old(self).orgs_view(),
            final(self)@ == (EngineState {
                branches: old(self)@.branches.insert(
                    repo@,
                    old(self)@.known_branches(repo@).union(branch_names(bs@)),
                ),
                ..old(self)@
            }),
            created@ == old(self)@.new_branches(repo@, bs@),
    {
        let ghost known = old(self)@.known_branches(repo@);
        let is_known = self.seen_branches.contains_key(repo);
        let mut all: Vec<String> = match self.seen_branches.get(repo) {
            Some(v) => copy_strings(v),
            None => Vec::new(),
        };
        let mut created: Vec<Branch> = Vec::new();
        let mut i: usize = 0;
        while i < bs.len()
            invariant
                i <= bs@.len(),
                self == old(self),
                string_set(all@) == known.union(branch_names(bs@.take(i as int))),
                created@ == fresh_branches(known, bs@.take(i as int)),
            decreases bs@.len() - i,
        {
            let b = &bs[i];
            proof {
                assert(bs@.take(i + 1).drop_last() =~= bs@.take(i as int));
                assert(bs@.take(i + 1).last() == bs@[i as int]);
            }
            if !contains_string(&all, &b.name) {
                let ghost prev = all@;
                all.push(b.name.clone());
                assert(all@.drop_last() =~= prev);
                created.push(b.duplicate());
            }
            assert(string_set(all@) =~= known.union(branch_names(bs@.take(i + 1))));
            i = i + 1;
        }
        proof {
            assert(bs@.take(bs@.len() as int) =~= bs@);
        }
        let ghost before = self.seen_branches@;
        self.seen_branches.insert(repo.clone(), all);
        assert(self@.branches =~= old(self)@.branches.insert(
            repo@,
            known.union(branch_names(bs@)),
        ));
        if is_known {
            created
        } else {
            Vec::new()
        }
    }

    fn record_prs(&mut self, repo: &String, ps: &Vec<PullRequest>) -> (fresh: Vec<PullRequest>)
        requires
            old(self).wf(),
        ensures
            final(self).wf(),
            final(self).orgs_view() == old(self).orgs_view(),
            final(self)@ == (EngineState {
                prs: old(self)@.prs.insert(repo@, old(self)@.known_prs(repo@).union(pr_ids(ps@))),
                ..old(self)@
            }),
            fresh@ == fresh_prs(old(self)@.known_prs(repo@), ps@),
    {
        let ghost known = old(self)@.known_prs(repo@);
        let mut ids: Vec<u64> = match self.seen_prs.get(repo) {
            Some(v) => copy_ids(v),
            None => Vec::new(),
        };
        assert(ids@.to_set() =~= known);
        let mut fresh: Vec<PullRequest> = Vec::new();
        let mut i: usize = 0;
        while i < ps.len()
            invariant
                i <= ps@.len(),
                self == old(self),
                ids@.to_set() == known.union(pr_ids(ps@.take(i as int))),
                fresh@ == fresh_prs(known, ps@.take(i as int)),
            decreases ps@.len() - i,
        {
            let p = &ps[i];
            proof {
                assert(ps@.take(i + 1).drop_last() =~= ps@.take(i as int));
                assert(ps@.take(i + 1).last() == ps@[i as int]);
            }
            assert(pr_ids(ps@.take(i + 1)) == pr_ids(ps@.take(i as int)).insert(p.id));
            let ghost prev = ids@;
            if !contains_id(&ids, p.id) {
                ids.push(p.id);
                assert forall|x: u64| ids@.contains(x) <==> prev.contains(x) || x == p.id by {
                    if prev.contains(x) {
                        let k = choose|k: int| 0 <= k < prev.len() && prev[k] == x;
                        assert(ids@[k] == x);
                    }
                    if x == p.id {
                        assert(ids@[prev.len() as int] == x);
                    }
                    if ids@.contains(x) {
                        let k = choose|k: int| 0 <= k < ids@.len() && ids@[k] == x;
                        if k < prev.len() {
                            assert(prev[k] == x);
                        }
                    }
                }
                fresh.push(p.duplicate());
            }
            assert forall|x: u64|
                ids@.to_set().contains(x) <==> known.union(pr_ids(ps@.take(i + 1))).contains(x) by {
                assert(ids@.to_set().contains(x) == ids@.contains(x));
                assert(prev.to_set().contains(x) == prev.contains(x));
                if x == p.id {
                    assert(ids@.contains(x));
                } else {
                    assert(ids@.contains(x) <==> prev.contains(x));
                }
            }
            assert(ids@.to_set() =~= known.union(pr_ids(ps@.take(i + 1))));
            i = i + 1;
        }
        proof {
            assert(ps@.take(ps@.len() as int) =~= ps@);
        }
        self.seen_prs.insert(repo.clone(), ids);
        assert(self@.prs =~= old(self)@.prs.insert(repo@, known.union(pr_ids(ps@))));
        fresh
    }

    /// Diffs the branch collection of `repo` against the dedup state and
    /// records it. An unchanged collection changes nothing and asks for no
    /// commit details.
    pub fn observe_branches(&mut self, repo: &String, fetched: Fetched<Branch>) -> (plan: BranchPlan)
        requires
            old(self).wf(),
        ensures
            final(self).wf(),
            final(self).orgs_view() == old(self).orgs_view(),
            match fetched {
                Fetched::Unchanged => {
                    &&& final(self)@ == old(self)@
                    &&& plan.moved@.len() == 0
                    &&& plan.created@.len() == 0
                },
                Fetched::Fresh { items, validator } => {
                    &&& final(self)@ == old(self)@.after_branches(repo@, items@, opt_view(validator))
                    &&& plan.moved@ == moved_heads(old(self)@.commits, repo@, items@)
                    &&& plan.created@ == old(self)@.new_branches(repo@, items@)
                },
            },
    {
        match fetched {
            Fetched::Unchanged => BranchPlan { moved: Vec::new(), created: Vec::new() },
            Fetched::Fresh { items, validator } => {
                let moved = self.record_heads(repo, &items);
                let created = self.record_branch_names(repo, &items);
                self.store_validator(branches_url(repo), validator);
                BranchPlan { moved, created }
            },
        }
    }

    /// Diffs the pull-request collection of `repo` against the dedup state,
    /// marks every new identifier as seen, and returns the new pull requests.
    /// Unlike branches, a repository seen for the first time has no baseline:
    /// all of its open pull requests are new. An unchanged collection changes
    /// nothing.
    pub fn observe_pull_requests(&mut self, repo: &String, fetched: Fetched<PullRequest>) -> (fresh:
        Vec<PullRequest>)
        requires
            old(self).wf(),
        ensures
            final(self).wf(),
            final(self).orgs_view() == old(self).orgs_view(),
            match fetched {
                Fetched::Unchanged => final(self)@ == old(self)@ && fresh@.len() == 0,
                Fetched::Fresh { items, validator } => {
                    &&& final(self)@ == old(self)@.after_prs(repo@, items@, opt_view(validator))
                    &&& fresh@ == fresh_prs(old(self)@.known_prs(repo@), items@)
                },
            },
    {
        match fetched {
            Fetched::Unchanged => Vec::new(),
            Fetched::Fresh { items, validator } => {
                let fresh = self.record_prs(repo, &items);
                self.store_validator(pulls_url(repo), validator);
                fresh
            },
        }
    }

    /// The head pointer last processed for `branch` of `repo`, if any.
    pub fn seen_commit(&self, repo: &String, branch: &String) -> (r: Option<String>)
        requires
            self.wf(),
        ensures
            match r {
                Some(sha) => {
                    &&& self@.commits.contains_key(branch_key_of(repo@, branch@))
                    &&& self@.commits[branch_key_of(repo@, branch@)] == sha@
                },
                None => !self@.commits.contains_key(branch_key_of(repo@, branch@)),
            },
    {
        let key = branch_key(repo, branch);
        match self.seen_commits.get(&key) {
            Some(sha) => Some(sha.clone()),
            None => None,
        }
    }

    /// Whether `name` is a known branch of `repo`.
    pub fn knows_branch(&self, repo: &String, name: &String) -> (r: bool)
        requires
            self.wf(),
        ensures
            r == self@.known_branches(repo@).contains(name@),
    {
        match self.seen_branches.get(repo) {
            Some(v) => contains_string(v, name),
            None => false,
        }
    }

    /// Whether the pull request `id` of `repo` was already notified.
    pub fn has_seen_pr(&self, repo: &String, id: u64) -> (r: bool)
        requires
            self.wf(),
        ensures
            r == self@.known_prs(repo@).contains(id),
    {
        match self.seen_prs.get(repo) {
            Some(v) => contains_id(v, id),
            None => false,
        }
    }
}

} // verus!
