use github_commit_notifier::engine::{Fetched, GithubNotifier};
use github_commit_notifier::events::{commit_events, pr_events, Notification};
use github_commit_notifier::models::{
    Branch, Commit, CommitAuthor, CommitDetails, FullCommit, PullRequest, User,
};
use github_commit_notifier::text::branches_url;

fn branch(name: &str, sha: &str) -> Branch {
    Branch { name: name.to_string(), commit: Commit { sha: sha.to_string() } }
}

fn fresh<T>(items: Vec<T>) -> Fetched<T> {
    Fetched::Fresh { items, validator: None }
}

fn pr(id: u64, title: &str, login: &str) -> PullRequest {
    PullRequest {
        id,
        html_url: format!("https://github.com/acme/app/pull/{}", id),
        title: title.to_string(),
        user: User { login: login.to_string(), name: None },
    }
}

fn detail(author: &str, message: &str) -> FullCommit {
    FullCommit {
        html_url: "https://github.com/acme/app/commit/b2".to_string(),
        commit: CommitDetails {
            message: message.to_string(),
            author: CommitAuthor { name: author.to_string() },
        },
    }
}

fn repo() -> String {
    "acme/app".to_string()
}

#[test]
fn first_sighting_is_a_baseline() {
    let mut n = GithubNotifier::new("acme");
    let plan = n.observe_branches(&repo(), fresh(vec![branch("main", "a1")]));
    assert!(plan.moved.is_empty());
    assert!(plan.created.is_empty());
    assert_eq!(n.seen_commit(&repo(), &"main".to_string()), Some("a1".to_string()));
}

#[test]
fn moved_head_gives_one_commit_event() {
    let mut n = GithubNotifier::new("acme");
    n.observe_branches(&repo(), fresh(vec![branch("main", "a1"), branch("dev", "d1")]));
    let plan = n.observe_branches(&repo(), fresh(vec![branch("main", "b2"), branch("dev", "d1")]));
    assert_eq!(plan.moved.len(), 1);
    assert_eq!(plan.moved[0].name, "main");
    assert_eq!(plan.moved[0].commit.sha, "b2");
    assert!(plan.created.is_empty());
    assert_eq!(n.seen_commit(&repo(), &"main".to_string()), Some("b2".to_string()));
    let events = commit_events(&repo(), &plan.moved, &vec![Some(detail("Ada", "fix it"))]);
    assert_eq!(events.len(), 1);
    match &events[0] {
        Notification::NewCommit { repo, branch, author, message, url } => {
            assert_eq!(repo, "acme/app");
            assert_eq!(branch, "main");
            assert_eq!(author, "Ada");
            assert_eq!(message, "fix it");
            assert_eq!(url, "https://github.com/acme/app/commit/b2");
        }
        _ => panic!("expected a new-commit event"),
    }
}

#[test]
fn force_push_backwards_still_counts_as_moved() {
    let mut n = GithubNotifier::new("acme");
    n.observe_branches(&repo(), fresh(vec![branch("main", "a1")]));
    n.observe_branches(&repo(), fresh(vec![branch("main", "b2")]));
    let plan = n.observe_branches(&repo(), fresh(vec![branch("main", "a1")]));
    assert_eq!(plan.moved.len(), 1);
    assert_eq!(plan.moved[0].commit.sha, "a1");
}

#[test]
fn same_collections_twice_give_nothing_new() {
    let mut n = GithubNotifier::new("acme");
    let bs = vec![branch("main", "a1"), branch("dev", "d1")];
    n.observe_branches(&repo(), fresh(bs.clone()));
    n.observe_branches(&repo(), fresh(vec![branch("main", "a1"), branch("dev", "d1"), branch("x", "x1")]));
    let again = vec![branch("main", "a1"), branch("dev", "d1"), branch("x", "x1")];
    let plan = n.observe_branches(&repo(), fresh(again));
    assert!(plan.moved.is_empty());
    assert!(plan.created.is_empty());
    let prs = vec![pr(1, "one", "ann"), pr(2, "two", "bob")];
    assert_eq!(n.observe_pull_requests(&repo(), fresh(prs.clone())).len(), 2);
    assert!(n.observe_pull_requests(&repo(), fresh(prs)).is_empty());
}

#[test]
fn pull_request_is_notified_once_even_after_edits() {
    let mut n = GithubNotifier::new("acme");
    let first = n.observe_pull_requests(&repo(), fresh(vec![pr(42, "Add feature", "ann")]));
    assert_eq!(first.len(), 1);
    assert_eq!(first[0].id, 42);
    assert!(n.has_seen_pr(&repo(), 42));
    let later = n.observe_pull_requests(&repo(), fresh(vec![pr(42, "Add feature (v2)", "ann")]));
    assert!(later.is_empty());
}

#[test]
fn first_cycle_pull_requests_are_new() {
    let mut n = GithubNotifier::new("acme");
    let got = n.observe_pull_requests(&repo(), fresh(vec![pr(7, "a", "ann"), pr(7, "dup", "ann"), pr(9, "b", "bob")]));
    let ids: Vec<u64> = got.iter().map(|p| p.id).collect();
    assert_eq!(ids, vec![7, 9]);
    assert_eq!(got[0].title, "a");
}

#[test]
fn new_branch_baseline_then_one_new_branch() {
    let mut n = GithubNotifier::new("acme");
    let plan = n.observe_branches(&repo(), fresh(vec![branch("main", "a1"), branch("dev", "d1")]));
    assert!(plan.created.is_empty());
    assert!(n.knows_branch(&repo(), &"main".to_string()));
    assert!(n.knows_branch(&repo(), &"dev".to_string()));
    let plan = n.observe_branches(
        &repo(),
        fresh(vec![branch("main", "a1"), branch("dev", "d1"), branch("feature-x", "f1")]),
    );
    assert_eq!(plan.created.len(), 1);
    assert_eq!(plan.created[0].name, "feature-x");
    assert_eq!(plan.created[0].commit.sha, "f1");
    assert!(plan.moved.is_empty());
    assert!(n.knows_branch(&repo(), &"feature-x".to_string()));
}

#[test]
fn empty_first_listing_is_still_a_baseline_for_the_repository() {
    let mut n = GithubNotifier::new("acme");
    let plan = n.observe_branches(&repo(), fresh(vec![]));
    assert!(plan.created.is_empty());
    let plan = n.observe_branches(&repo(), fresh(vec![branch("main", "a1")]));
    assert_eq!(plan.created.len(), 1);
    assert!(plan.moved.is_empty());
}

#[test]
fn unchanged_fetch_touches_nothing() {
    let mut n = GithubNotifier::new("acme");
    let url = branches_url(&repo());
    n.observe_branches(
        &repo(),
        Fetched::Fresh { items: vec![branch("main", "a1")], validator: Some("W/\"v1\"".to_string()) },
    );
    assert_eq!(n.validator(&url), Some("W/\"v1\"".to_string()));
    let plan = n.observe_branches(&repo(), Fetched::Unchanged);
    assert!(plan.moved.is_empty());
    assert!(plan.created.is_empty());
    assert_eq!(n.validator(&url), Some("W/\"v1\"".to_string()));
    assert_eq!(n.seen_commit(&repo(), &"main".to_string()), Some("a1".to_string()));
    assert!(n.observe_pull_requests(&repo(), Fetched::Unchanged).is_empty());
    assert!(!n.has_seen_pr(&repo(), 1));
    let plan = n.observe_branches(&repo(), fresh(vec![branch("main", "a1")]));
    assert!(plan.moved.is_empty());
}

#[test]
fn validator_kept_when_response_has_none() {
    let mut n = GithubNotifier::new("acme");
    let url = branches_url(&repo());
    assert_eq!(n.validator(&url), None);
    n.observe_branches(&repo(), Fetched::Fresh { items: vec![], validator: Some("e1".to_string()) });
    n.observe_branches(&repo(), Fetched::Fresh { items: vec![], validator: None });
    assert_eq!(n.validator(&url), Some("e1".to_string()));
    n.observe_branches(&repo(), Fetched::Fresh { items: vec![], validator: Some("e2".to_string()) });
    assert_eq!(n.validator(&url), Some("e2".to_string()));
    assert_eq!(n.validator(&"https://api.github.com/repos/acme/app/pulls".to_string()), None);
}

#[test]
fn failed_resolution_records_pointer_and_emits_nothing() {
    let mut n = GithubNotifier::new("acme");
    n.observe_branches(&repo(), fresh(vec![branch("main", "a1")]));
    let plan = n.observe_branches(&repo(), fresh(vec![branch("main", "b2")]));
    assert_eq!(plan.moved.len(), 1);
    let events = commit_events(&repo(), &plan.moved, &vec![None]);
    assert!(events.is_empty());
    assert_eq!(n.seen_commit(&repo(), &"main".to_string()), Some("b2".to_string()));
    let plan = n.observe_branches(&repo(), fresh(vec![branch("main", "b2")]));
    assert!(plan.moved.is_empty());
}

#[test]
fn repositories_are_kept_apart() {
    let mut n = GithubNotifier::new("acme");
    n.observe_branches(&repo(), fresh(vec![branch("main", "a1")]));
    let other = "acme/lib".to_string();
    let plan = n.observe_branches(&other, fresh(vec![branch("main", "zz")]));
    assert!(plan.moved.is_empty());
    assert_eq!(n.seen_commit(&repo(), &"main".to_string()), Some("a1".to_string()));
    assert_eq!(n.seen_commit(&other, &"main".to_string()), Some("zz".to_string()));
    n.observe_pull_requests(&repo(), fresh(vec![pr(5, "x", "ann")]));
    assert!(!n.has_seen_pr(&other, 5));
}

#[test]
fn organizations_split_on_commas() {
    let n = GithubNotifier::new("acme,widgets");
    assert_eq!(n.orgs(), &vec!["acme".to_string(), "widgets".to_string()]);
    let n = GithubNotifier::new("solo");
    assert_eq!(n.orgs(), &vec!["solo".to_string()]);
}

#[test]
fn pr_events_fall_back_to_the_login() {
    let prs = vec![pr(3, "t", "ann")];
    let resolved = User { login: "ann".to_string(), name: Some("Ann Lee".to_string()) };
    let with_name = pr_events(&repo(), &prs, &vec![Some(resolved)]);
    let without = pr_events(&repo(), &prs, &vec![None]);
    match (&with_name[0], &without[0]) {
        (
            Notification::NewPullRequest { author: a, id, .. },
            Notification::NewPullRequest { author: b, .. },
        ) => {
            assert_eq!(a, "Ann Lee");
            assert_eq!(*id, 3);
            assert_eq!(b, "ann");
        }
        _ => panic!("expected pull-request events"),
    }
}
