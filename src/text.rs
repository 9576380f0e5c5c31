//! Scope keys, resource URLs and decimal rendering.

use vstd::prelude::*;
use vstd::string::{StrSliceExecFns, StringExecFns};

verus! {

/// The scope key of a branch: `{repo}/{branch}`.
pub open spec fn branch_key_of(repo: Seq<char>, branch: Seq<char>) -> Seq<char> {
    repo + "/"@ + branch
}

/// The URL that lists an organization's repositories.
pub open spec fn repos_url_of(org: Seq<char>) -> Seq<char> {
    "https://api.github.com/orgs/"@ + org + "/repos"@
}

/// The URL that lists a repository's branches.
pub open spec fn branches_url_of(repo: Seq<char>) -> Seq<char> {
    "https://api.github.com/repos/"@ + repo + "/branches"@
}

/// The URL that lists a repository's pull requests.
pub open spec fn pulls_url_of(repo: Seq<char>) -> Seq<char> {
    "https://api.github.com/repos/"@ + repo + "/pulls"@
}

/// The URL of one commit's detail.
pub open spec fn commit_url_of(repo: Seq<char>, sha: Seq<char>) -> Seq<char> {
    "https://api.github.com/repos/"@ + repo + "/commits/"@ + sha
}

/// The URL of one user's profile.
pub open spec fn user_url_of(login: Seq<char>) -> Seq<char> {
    "https://api.github.com/users/"@ + login
}

/// The web page of a branch.
pub open spec fn tree_url_of(repo: Seq<char>, branch: Seq<char>) -> Seq<char> {
    "https://github.com/"@ + repo + "/tree/"@ + branch
}

/// Keys of one repository's branches differ when the branch names differ.
pub proof fn lemma_branch_key_injective(repo: Seq<char>, a: Seq<char>, b: Seq<char>)
    requires
        branch_key_of(repo, a) == branch_key_of(repo, b),
    ensures
        a == b,
{
    let p = repo + "/"@;
    assert(branch_key_of(repo, a) == p + a);
    assert(branch_key_of(repo, b) == p + b);
    assert(a =~= (p + a).subrange(p.len() as int, (p + a).len() as int));
    assert(b =~= (p + b).subrange(p.len() as int, (p + b).len() as int));
}

fn join(a: &str, b: &str, c: &str) -> (r: String)
    ensures
        r@ == a@ + b@ + c@,
{
    let mut s = String::from_str(a);
    s.append(b);
    s.append(c);
    s
}

/// The scope key of a branch of `repo`.
pub fn branch_key(repo: &String, branch: &String) -> (r: String)
    ensures
        r@ == branch_key_of(repo@, branch@),
{
    join(repo.as_str(), "/", branch.as_str())
}

/// The URL that lists the repositories of `org`.
pub fn repos_url(org: &String) -> (r: String)
    ensures
        r@ == repos_url_of(org@),
{
    join("https://api.github.com/orgs/", org.as_str(), "/repos")
}

/// The URL that lists the branches of `repo`.
pub fn branches_url(repo: &String) -> (r: String)
    ensures
        r@ == branches_url_of(repo@),
{
    join("https://api.github.com/repos/", repo.as_str(), "/branches")
}

/// The URL that lists the pull requests of `repo`.
pub fn pulls_url(repo: &String) -> (r: String)
    ensures
        r@ == pulls_url_of(repo@),
{
    join("https://api.github.com/repos/", repo.as_str(), "/pulls")
}

/// The URL of the commit `sha` of `repo`.
pub fn commit_url(repo: &String, sha: &String) -> (r: String)
    ensures
        r@ == commit_url_of(repo@, sha@),
{
    let mut s = join("https://api.github.com/repos/", repo.as_str(), "/commits/");
    s.append(sha.as_str());
    s
}

/// The URL of the profile of `login`.
pub fn user_url(login: &String) -> (r: String)
    ensures
        r@ == user_url_of(login@),
{
    let mut s = String::from_str("https://api.github.com/users/");
    s.append(login.as_str());
    s
}

/// The web page of `branch` of `repo`.
pub fn tree_url(repo: &String, branch: &String) -> (r: String)
    ensures
        r@ == tree_url_of(repo@, branch@),
{
    let mut s = join("https://github.com/", repo.as_str(), "/tree/");
    s.append(branch.as_str());
    s
}

/// The character of a decimal digit.
pub open spec fn digit_char(d: nat) -> char {
    if d == 0 {
        '0'
    } else if d == 1 {
        '1'
    } else if d == 2 {
        '2'
    } else if d == 3 {
        '3'
    } else if d == 4 {
        '4'
    } else if d == 5 {
        '5'
    } else if d == 6 {
        '6'
    } else if d == 7 {
        '7'
    } else if d == 8 {
        '8'
    } else {
        '9'
    }
}

/// The decimal digits of `n`, most significant first, without leading zeros.
pub open spec fn decimal_of(n: nat) -> Seq<char>
    decreases n,
{
    if n < 10 {
        seq![digit_char(n)]
    } else {
        decimal_of(n / 10).push(digit_char(n % 10))
    }
}

fn digit_str(d: u64) -> (r: &'static str)
    requires
        d < 10,
    ensures
        r@ == seq![digit_char(d as nat)],
{
    proof {
        reveal_strlit("0");
        reveal_strlit("1");
        reveal_strlit("2");
        reveal_strlit("3");
        reveal_strlit("4");
        reveal_strlit("5");
        reveal_strlit("6");
        reveal_strlit("7");
        reveal_strlit("8");
        reveal_strlit("9");
    }
    if d == 0 {
        "0"
    } else if d == 1 {
        "1"
    } else if d == 2 {
        "2"
    } else if d == 3 {
        "3"
    } else if d == 4 {
        "4"
    } else if d == 5 {
        "5"
    } else if d == 6 {
        "6"
    } else if d == 7 {
        "7"
    } else if d == 8 {
        "8"
    } else {
        "9"
    }
}

/// `n` written in decimal.
pub fn decimal(n: u64) -> (r: String)
    ensures
        r@ == decimal_of(n as nat),
    decreases n,
{
    if n < 10 {
        let mut s = String::new();
        s.append(digit_str(n));
        assert(s@ =~= decimal_of(n as nat));
        s
    } else {
        let mut s = decimal(n / 10);
        s.append(digit_str(n % 10));
        assert(s@ =~= decimal_of(n as nat));
        s
    }
}

} // verus!

verus! {

/// The views of a list of strings.
pub open spec fn string_views(s: Seq<String>) -> Seq<Seq<char>> {
    s.map_values(|x: String| x@)
}

/// The pieces of `s` between commas, empty pieces included; there is one more
/// piece than there are commas.
pub open spec fn split_commas(s: Seq<char>) -> Seq<Seq<char>>
    decreases s.len(),
{
    if s.len() == 0 {
        seq![seq![]]
    } else {
        let r = split_commas(s.drop_last());
        if s.last() == ',' {
            r.push(seq![])
        } else {
            r.update(r.len() - 1, r.last().push(s.last()))
        }
    }
}

/// The pieces of `s` between commas.
pub fn split_commas_of(s: &str) -> (r: Vec<String>)
    ensures
        string_views(r@) == split_commas(s@),
{
    let n = s.unicode_len();
    let mut pieces: Vec<String> = Vec::new();
    let mut start: usize = 0;
    let mut i: usize = 0;
    assert(string_views(pieces@).push(s@.subrange(0, 0)) =~~= split_commas(s@.take(0)));
    while i < n
        invariant
            n == s@.len(),
            start <= i <= n,
            string_views(pieces@).push(s@.subrange(start as int, i as int)) == split_commas(
                s@.take(i as int),
            ),
        decreases n - i,
    {
        let c = s.get_char(i);
        let ghost before = pieces@;
        proof {
            assert(s@.take(i + 1).drop_last() =~= s@.take(i as int));
            assert(s@.take(i + 1).last() == c);
        }
        if c == ',' {
            pieces.push(String::from_str(s.substring_char(start, i)));
            assert(string_views(pieces@) =~= string_views(before).push(
                s@.subrange(start as int, i as int),
            ));
            start = i + 1;
            assert(split_commas(s@.take(i + 1)) == split_commas(s@.take(i as int)).push(seq![]));
            assert(string_views(pieces@).push(s@.subrange(start as int, i + 1)) =~~= split_commas(
                s@.take(i + 1),
            ));
        } else {
            let ghost r = split_commas(s@.take(i as int));
            assert(split_commas(s@.take(i + 1)) == r.update(r.len() - 1, r.last().push(c)));
            assert(s@.subrange(start as int, i + 1) =~= s@.subrange(start as int, i as int).push(c));
            assert(string_views(pieces@).push(s@.subrange(start as int, i + 1)) =~~= split_commas(
                s@.take(i + 1),
            ));
        }
        i = i + 1;
    }
    let ghost before = pieces@;
    pieces.push(String::from_str(s.substring_char(start, n)));
    proof {
        assert(s@.take(n as int) =~= s@);
        assert(string_views(pieces@) =~= string_views(before).push(s@.subrange(start as int, n as int)));
    }
    pieces
}

} // verus!
