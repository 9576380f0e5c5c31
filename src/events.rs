//! Notification events, built from the engine's findings and the details
//! that were resolved for them, and their rendering as title and body.

use crate::models::{Branch, FullCommit, PullRequest, User};
use crate::text::{decimal, decimal_of, tree_url, tree_url_of};
use vstd::prelude::*;
use vstd::string::StringExecFns;

verus! {

/// An immutable notification event.
pub enum Notification {
    NewCommit { repo: String, branch: String, author: String, message: String, url: String },
    NewBranch { repo: String, branch: String, author: String, url: String },
    NewPullRequest { repo: String, id: u64, title: String, author: String, url: String },
}

/// A notification event as plain text values.
pub enum NotificationView {
    NewCommit {
        repo: Seq<char>,
        branch: Seq<char>,
        author: Seq<char>,
        message: Seq<char>,
        url: Seq<char>,
    },
    NewBranch { repo: Seq<char>, branch: Seq<char>, author: Seq<char>, url: Seq<char> },
    NewPullRequest { repo: Seq<char>, id: u64, title: Seq<char>, author: Seq<char>, url: Seq<char> },
}

impl View for Notification {
    type V = NotificationView;

    open spec fn view(&self) -> NotificationView {
        match self {
            Notification::NewCommit { repo, branch, author, message, url } => NotificationView::NewCommit {
                repo: repo@,
                branch: branch@,
                author: author@,
                message: message@,
                url: url@,
            },
            Notification::NewBranch { repo, branch, author, url } => NotificationView::NewBranch {
                repo: repo@,
                branch: branch@,
                author: author@,
                url: url@,
            },
            Notification::NewPullRequest { repo, id, title, author, url } => NotificationView::NewPullRequest {
                repo: repo@,
                id: *id,
                title: title@,
                author: author@,
                url: url@,
            },
        }
    }
}

impl NotificationView {
    /// The notification's title.
    pub open spec fn title(self) -> Seq<char> {
        match self {
            NotificationView::NewCommit { repo, branch, .. } => "New Commit on "@ + repo + "/"@ + branch,
            NotificationView::NewBranch { repo, .. } => "New Branch in "@ + repo,
            NotificationView::NewPullRequest { repo, .. } => "New PR in "@ + repo,
        }
    }

    /// The notification's body.
    pub open spec fn body(self) -> Seq<char> {
        match self {
            NotificationView::NewCommit { author, message, url, .. } => "By "@ + author + ": "@
                + message + "\nURL: "@ + url,
            NotificationView::NewBranch { branch, author, url, .. } => "Branch: "@ + branch
                + "\nBy: "@ + author + "\nURL: "@ + url,
            NotificationView::NewPullRequest { id, title, author, url, .. } => "#"@ + decimal_of(
                id as nat,
            ) + " "@ + title + "\nBy: "@ + author + "\nURL: "@ + url,
        }
    }
}

/// The views of a list of notifications.
pub open spec fn views(s: Seq<Notification>) -> Seq<NotificationView> {
    s.map_values(|n: Notification| n@)
}

/// The new-commit event for a branch whose head moved to `detail`.
pub open spec fn commit_notice(repo: Seq<char>, b: Branch, detail: FullCommit) -> NotificationView {
    NotificationView::NewCommit {
        repo,
        branch: b.name@,
        author: detail.commit.author.name@,
        message: detail.commit.message@,
        url: detail.html_url@,
    }
}

/// The new-branch event for a branch whose head commit is `detail`.
pub open spec fn branch_notice(repo: Seq<char>, b: Branch, detail: FullCommit) -> NotificationView {
    NotificationView::NewBranch {
        repo,
        branch: b.name@,
        author: detail.commit.author.name@,
        url: tree_url_of(repo, b.name@),
    }
}

/// The name shown for the author of `pr`: the display name of the resolved
/// profile, else of the listed one, else the login.
pub open spec fn author_of(pr: PullRequest, user: Option<User>) -> Seq<char> {
    let u = match user {
        Some(u) => u,
        None => pr.user,
    };
    match u.name {
        Some(n) => n@,
        None => u.login@,
    }
}

/// The new-pull-request event for `pr`, whose author resolved to `user`.
pub open spec fn pr_notice(repo: Seq<char>, pr: PullRequest, user: Option<User>) -> NotificationView {
    NotificationView::NewPullRequest {
        repo,
        id: pr.id,
        title: pr.title@,
        author: author_of(pr, user),
        url: pr.html_url@,
    }
}

/// One new-commit event for each moved branch whose detail resolved, in order;
/// none for a branch whose detail could not be resolved.
pub open spec fn commit_notices(
    repo: Seq<char>,
    moved: Seq<Branch>,
    details: Seq<Option<FullCommit>>,
) -> Seq<NotificationView>
    decreases details.len(),
{
    if moved.len() == 0 || details.len() == 0 {
        seq![]
    } else {
        let rest = commit_notices(repo, moved.drop_last(), details.drop_last());
        match details.last() {
            Some(d) => rest.push(commit_notice(repo, moved.last(), d)),
            None => rest,
        }
    }
}

/// One new-branch event for each new branch whose head commit resolved, in order.
pub open spec fn branch_notices(
    repo: Seq<char>,
    created: Seq<Branch>,
    details: Seq<Option<FullCommit>>,
) -> Seq<NotificationView>
    decreases details.len(),
{
    if created.len() == 0 || details.len() == 0 {
        seq![]
    } else {
        let rest = branch_notices(repo, created.drop_last(), details.drop_last());
        match details.last() {
            Some(d) => rest.push(branch_notice(repo, created.last(), d)),
            None => rest,
        }
    }
}

/// One new-pull-request event for each new pull request, in order.
pub open spec fn pr_notices(repo: Seq<char>, prs: Seq<PullRequest>, users: Seq<Option<User>>) -> Seq<
    NotificationView,
>
    decreases users.len(),
{
    if prs.len() == 0 || users.len() == 0 {
        seq![]
    } else {
        pr_notices(repo, prs.drop_last(), users.drop_last()).push(
            pr_notice(repo, prs.last(), users.last()),
        )
    }
}

/// The new-commit event of `repo` for branch `b`, whose head resolved to `detail`.
pub fn commit_event(repo: &String, b: &Branch, detail: &FullCommit) -> (r: Notification)
    ensures
        r@ == commit_notice(repo@, *b, *detail),
{
    Notification::NewCommit {
        repo: repo.clone(),
        branch: b.name.clone(),
        author: detail.commit.author.name.clone(),
        message: detail.commit.message.clone(),
        url: detail.html_url.clone(),
    }
}

/// The new-branch event of `repo` for branch `b`, whose head resolved to `detail`.
pub fn branch_event(repo: &String, b: &Branch, detail: &FullCommit) -> (r: Notification)
    ensures
        r@ == branch_notice(repo@, *b, *detail),
{
    Notification::NewBranch {
        repo: repo.clone(),
        branch: b.name.clone(),
        author: detail.commit.author.name.clone(),
        url: tree_url(repo, &b.name),
    }
}

/// The new-pull-request event of `repo` for `pr`; `user` is its author's
/// profile, or `None` where resolving it failed.
pub fn pr_event(repo: &String, pr: &PullRequest, user: &Option<User>) -> (r: Notification)
    ensures
        r@ == pr_notice(repo@, *pr, *user),
{
    let u = match user {
        Some(u) => u,
        None => &pr.user,
    };
    let author = match &u.name {
        Some(n) => n.clone(),
        None => u.login.clone(),
    };
    Notification::NewPullRequest {
        repo: repo.clone(),
        id: pr.id,
        title: pr.title.clone(),
        author,
        url: pr.html_url.clone(),
    }
}

/// The new-commit events for the moved branches of `repo`; `details[i]` is the
/// resolved head of `moved[i]`, or `None` where resolving it failed.
pub fn commit_events(repo: &String, moved: &Vec<Branch>, details: &Vec<Option<FullCommit>>) -> (r: Vec<
    Notification,
>)
    requires
        moved@.len() == details@.len(),
    ensures
        views(r@) == commit_notices(repo@, moved@, details@),
{
    let mut r: Vec<Notification> = Vec::new();
    let mut i: usize = 0;
    while i < moved.len()
        invariant
            i <= moved@.len(),
            moved@.len() == details@.len(),
            views(r@) == commit_notices(repo@, moved@.take(i as int), details@.take(i as int)),
        decreases moved@.len() - i,
    {
        proof {
            assert(moved@.take(i + 1).drop_last() =~= moved@.take(i as int));
            assert(details@.take(i + 1).drop_last() =~= details@.take(i as int));
            assert(moved@.take(i + 1).last() == moved@[i as int]);
            assert(details@.take(i + 1).last() == details@[i as int]);
        }
        let ghost before = r@;
        if let Some(d) = &details[i] {
            r.push(commit_event(repo, &moved[i], d));
            assert(views(r@) =~= views(before).push(r@.last()@));
        }
        i = i + 1;
    }
    proof {
        assert(moved@.take(moved@.len() as int) =~= moved@);
        assert(details@.take(details@.len() as int) =~= details@);
    }
    r
}

/// The new-branch events for the new branches of `repo`; `details[i]` is the
/// resolved head of `created[i]`, or `None` where resolving it failed.
pub fn branch_events(repo: &String, created: &Vec<Branch>, details: &Vec<Option<FullCommit>>) -> (r: Vec<
    Notification,
>)
    requires
        created@.len() == details@.len(),
    ensures
        views(r@) == branch_notices(repo@, created@, details@),
{
    let mut r: Vec<Notification> = Vec::new();
    let mut i: usize = 0;
    while i < created.len()
        invariant
            i <= created@.len(),
            created@.len() == details@.len(),
            views(r@) == branch_notices(repo@, created@.take(i as int), details@.take(i as int)),
        decreases created@.len() - i,
    {
        proof {
            assert(created@.take(i + 1).drop_last() =~= created@.take(i as int));
            assert(details@.take(i + 1).drop_last() =~= details@.take(i as int));
            assert(created@.take(i + 1).last() == created@[i as int]);
            assert(details@.take(i + 1).last() == details@[i as int]);
        }
        let ghost before = r@;
        if let Some(d) = &details[i] {
            r.push(branch_event(repo, &created[i], d));
            assert(views(r@) =~= views(before).push(r@.last()@));
        }
        i = i + 1;
    }
    proof {
        assert(created@.take(created@.len() as int) =~= created@);
        assert(details@.take(details@.len() as int) =~= details@);
    }
    r
}

/// The new-pull-request events for the new pull requests of `repo`; `users[i]`
/// is the profile of the author of `prs[i]`, or `None` where resolving it failed.
pub fn pr_events(repo: &String, prs: &Vec<PullRequest>, users: &Vec<Option<User>>) -> (r: Vec<
    Notification,
>)
    requires
        prs@.len() == users@.len(),
    ensures
        views(r@) == pr_notices(repo@, prs@, users@),
{
    let mut r: Vec<Notification> = Vec::new();
    let mut i: usize = 0;
    while i < prs.len()
        invariant
            i <= prs@.len(),
            prs@.len() == users@.len(),
            views(r@) == pr_notices(repo@, prs@.take(i as int), users@.take(i as int)),
        decreases prs@.len() - i,
    {
        proof {
            assert(prs@.take(i + 1).drop_last() =~= prs@.take(i as int));
            assert(users@.take(i + 1).drop_last() =~= users@.take(i as int));
            assert(prs@.take(i + 1).last() == prs@[i as int]);
            assert(users@.take(i + 1).last() == users@[i as int]);
        }
        let ghost before = r@;
        r.push(pr_event(repo, &prs[i], &users[i]));
        assert(views(r@) =~= views(before).push(r@.last()@));
        i = i + 1;
    }
    proof {
        assert(prs@.take(prs@.len() as int) =~= prs@);
        assert(users@.take(users@.len() as int) =~= users@);
    }
    r
}

impl Notification {
    /// The title under which the notification is delivered.
    pub fn title(&self) -> (r: String)
        ensures
            r@ == self@.title(),
    {
        match self {
            Notification::NewCommit { repo, branch, .. } => {
                let mut s = String::from_str("New Commit on ");
                s.append(repo.as_str());
                s.append("/");
                s.append(branch.as_str());
                s
            },
            Notification::NewBranch { repo, .. } => {
                let mut s = String::from_str("New Branch in ");
                s.append(repo.as_str());
                s
            },
            Notification::NewPullRequest { repo, .. } => {
                let mut s = String::from_str("New PR in ");
                s.append(repo.as_str());
                s
            },
        }
    }

    /// The body under which the notification is delivered.
    pub fn body(&self) -> (r: String)
        ensures
            r@ == self@.body(),
    {
        match self {
            Notification::NewCommit { author, message, url, .. } => {
                let mut s = String::from_str("By ");
                s.append(author.as_str());
                s.append(": ");
                s.append(message.as_str());
                s.append("\nURL: ");
                s.append(url.as_str());
                s
            },
            Notification::NewBranch { branch, author, url, .. } => {
                let mut s = String::from_str("Branch: ");
                s.append(branch.as_str());
                s.append("\nBy: ");
                s.append(author.as_str());
                s.append("\nURL: ");
                s.append(url.as_str());
                s
            },
            Notification::NewPullRequest { id, title, author, url, .. } => {
                let mut s = String::from_str("#");
                let digits = decimal(*id);
                s.append(digits.as_str());
                s.append(" ");
                s.append(title.as_str());
                s.append("\nBy: ");
                s.append(author.as_str());
                s.append("\nURL: ");
                s.append(url.as_str());
                s
            },
        }
    }
}

} // verus!
