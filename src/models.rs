//! The records that the remote API hands out, as plain values.

use vstd::prelude::*;

verus! {

/// A repository, identified by its `owner/name` full name.
#[derive(Debug, Clone)]
pub struct Repo {
    pub full_name: String,
}

/// A branch and the commit its head points at.
#[derive(Debug, Clone)]
pub struct Branch {
    pub name: String,
    pub commit: Commit,
}

/// A lightweight commit pointer.
#[derive(Debug, Clone)]
pub struct Commit {
    pub sha: String,
}

/// The full detail of one commit.
#[derive(Debug, Clone)]
pub struct FullCommit {
    pub html_url: String,
    pub commit: CommitDetails,
}

#[derive(Debug, Clone)]
pub struct CommitDetails {
    pub message: String,
    pub author: CommitAuthor,
}

#[derive(Debug, Clone)]
pub struct CommitAuthor {
    pub name: String,
}

/// An open pull request; `id` is its immutable identifier.
#[derive(Debug, Clone)]
pub struct PullRequest {
    pub id: u64,
    pub html_url: String,
    pub title: String,
    pub user: User,
}

/// A user profile; `name` is the display name, when the profile has one.
#[derive(Debug, Clone)]
pub struct User {
    pub login: String,
    pub name: Option<String>,
}

fn copy_option_string(s: &Option<String>) -> (r: Option<String>)
    ensures
        r == *s,
{
    match s {
        Some(t) => Some(t.clone()),
        None => None,
    }
}

impl Repo {
    /// A copy equal to `self`.
    pub fn duplicate(&self) -> (r: Repo)
        ensures
            r == *self,
    {
        Repo { full_name: self.full_name.clone() }
    }
}

impl Branch {
    /// A copy equal to `self`.
    pub fn duplicate(&self) -> (r: Branch)
        ensures
            r == *self,
    {
        Branch { name: self.name.clone(), commit: Commit { sha: self.commit.sha.clone() } }
    }
}

impl User {
    /// A copy equal to `self`.
    pub fn duplicate(&self) -> (r: User)
        ensures
            r == *self,
    {
        User { login: self.login.clone(), name: copy_option_string(&self.name) }
    }
}

impl PullRequest {
    /// A copy equal to `self`.
    pub fn duplicate(&self) -> (r: PullRequest)
        ensures
            r == *self,
    {
        PullRequest {
            id: self.id,
            html_url: self.html_url.clone(),
            title: self.title.clone(),
            user: self.user.duplicate(),
        }
    }
}

} // verus!
