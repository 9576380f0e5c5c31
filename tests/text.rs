use github_commit_notifier::events::{branch_event, commit_event, pr_event, Notification};
use github_commit_notifier::models::{
    Branch, Commit, CommitAuthor, CommitDetails, FullCommit, PullRequest, Repo, User,
};
use github_commit_notifier::schedule::{collect_repos, PollError, CONCURRENT_REQUESTS};
use github_commit_notifier::text::{
    branch_key, branches_url, commit_url, decimal, pulls_url, repos_url, split_commas_of,
    tree_url, user_url,
};

fn s(x: &str) -> String {
    x.to_string()
}

fn full(author: &str, message: &str, url: &str) -> FullCommit {
    FullCommit {
        html_url: s(url),
        commit: CommitDetails { message: s(message), author: CommitAuthor { name: s(author) } },
    }
}

#[test]
fn urls_and_keys() {
    assert_eq!(branch_key(&s("acme/app"), &s("main")), "acme/app/main");
    assert_eq!(repos_url(&s("acme")), "https://api.github.com/orgs/acme/repos");
    assert_eq!(branches_url(&s("acme/app")), "https://api.github.com/repos/acme/app/branches");
    assert_eq!(pulls_url(&s("acme/app")), "https://api.github.com/repos/acme/app/pulls");
    assert_eq!(
        commit_url(&s("acme/app"), &s("abc123")),
        "https://api.github.com/repos/acme/app/commits/abc123"
    );
    assert_eq!(user_url(&s("ann")), "https://api.github.com/users/ann");
    assert_eq!(tree_url(&s("acme/app"), &s("dev")), "https://github.com/acme/app/tree/dev");
}

#[test]
fn decimal_rendering() {
    assert_eq!(decimal(0), "0");
    assert_eq!(decimal(7), "7");
    assert_eq!(decimal(42), "42");
    assert_eq!(decimal(1005), "1005");
    assert_eq!(decimal(u64::MAX), u64::MAX.to_string());
}

#[test]
fn comma_split_keeps_empty_pieces() {
    assert_eq!(split_commas_of(""), vec![s("")]);
    assert_eq!(split_commas_of("a,,b"), vec![s("a"), s(""), s("b")]);
    assert_eq!(split_commas_of("a,"), vec![s("a"), s("")]);
}

#[test]
fn commit_notification_text() {
    let b = Branch { name: s("main"), commit: Commit { sha: s("b2") } };
    let e = commit_event(&s("acme/app"), &b, &full("Ada", "fix it", "https://x/c/b2"));
    assert_eq!(e.title(), "New Commit on acme/app/main");
    assert_eq!(e.body(), "By Ada: fix it\nURL: https://x/c/b2");
}

#[test]
fn branch_notification_text() {
    let b = Branch { name: s("feature-x"), commit: Commit { sha: s("f1") } };
    let e = branch_event(&s("acme/app"), &b, &full("Bo", "start", "https://x/c/f1"));
    assert_eq!(e.title(), "New Branch in acme/app");
    assert_eq!(
        e.body(),
        "Branch: feature-x\nBy: Bo\nURL: https://github.com/acme/app/tree/feature-x"
    );
    match e {
        Notification::NewBranch { author, .. } => assert_eq!(author, "Bo"),
        _ => panic!("expected a new-branch event"),
    }
}

#[test]
fn pr_notification_text() {
    let p = PullRequest {
        id: 42,
        html_url: s("https://github.com/acme/app/pull/42"),
        title: s("Add feature"),
        user: User { login: s("ann"), name: None },
    };
    let e = pr_event(&s("acme/app"), &p, &None);
    assert_eq!(e.title(), "New PR in acme/app");
    assert_eq!(e.body(), "#42 Add feature\nBy: ann\nURL: https://github.com/acme/app/pull/42");
    let listed = PullRequest { user: User { login: s("ann"), name: Some(s("Ann")) }, ..p.clone() };
    let e = pr_event(&s("acme/app"), &listed, &None);
    assert_eq!(e.body(), "#42 Add feature\nBy: Ann\nURL: https://github.com/acme/app/pull/42");
    let resolved = Some(User { login: s("ann"), name: None });
    let e = pr_event(&s("acme/app"), &listed, &resolved);
    assert_eq!(e.body(), "#42 Add feature\nBy: ann\nURL: https://github.com/acme/app/pull/42");
}

#[test]
fn repositories_of_listed_organizations_are_gathered() {
    let a = vec![Repo { full_name: s("acme/app") }, Repo { full_name: s("acme/lib") }];
    let b = vec![Repo { full_name: s("widgets/core") }];
    let got = collect_repos(&vec![Some(a), None, Some(b)]).unwrap();
    let names: Vec<String> = got.into_iter().map(|r| r.full_name).collect();
    assert_eq!(names, vec![s("acme/app"), s("acme/lib"), s("widgets/core")]);
    assert!(collect_repos(&vec![]).unwrap().is_empty());
}

#[test]
fn cycle_fails_only_when_no_organization_is_listed() {
    assert_eq!(collect_repos(&vec![None, None]).err(), Some(PollError::NoOrganizationListed));
    assert!(collect_repos(&vec![None, Some(vec![])]).is_ok());
    assert_eq!(CONCURRENT_REQUESTS, 10);
}
