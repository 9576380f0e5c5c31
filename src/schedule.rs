//! Cycle-level decisions of the fan-out scheduler.

use crate::models::Repo;
use vstd::prelude::*;

verus! {

/// The most repositories processed at once.
pub const CONCURRENT_REQUESTS: usize = 10;

/// A failure of a whole poll cycle.
#[derive(Debug, Clone, Copy, PartialEq, Eq, Structural)]
pub enum PollError {
    /// No organization's repositories could be enumerated.
    NoOrganizationListed,
}

/// The repositories of the organizations whose listing succeeded, in order.
pub open spec fn listed_repos(ls: Seq<Option<Vec<Repo>>>) -> Seq<Repo>
    decreases ls.len(),
{
    if ls.len() == 0 {
        seq![]
    } else {
        match ls.last() {
            Some(v) => listed_repos(ls.drop_last()) + v@,
            None => listed_repos(ls.drop_last()),
        }
    }
}

/// Every organization's listing failed, and there was at least one.
pub open spec fn all_failed(ls: Seq<Option<Vec<Repo>>>) -> bool {
    ls.len() > 0 && forall|i: int| 0 <= i < ls.len() ==> ls[i] is None
}

/// Gathers the repositories of one cycle from the listings of each
/// organization (`None` where listing one failed). The cycle fails only when
/// no organization could be listed.
pub fn collect_repos(listings: &Vec<Option<Vec<Repo>>>) -> (r: Result<Vec<Repo>, PollError>)
    ensures
        match r {
            Ok(v) => !all_failed(listings@) && v@ == listed_repos(listings@),
            Err(e) => all_failed(listings@) && e == PollError::NoOrganizationListed,
        },
{
    let mut out: Vec<Repo> = Vec::new();
    let mut any_listed = false;
    let mut i: usize = 0;
    while i < listings.len()
        invariant
            i <= listings@.len(),
            out@ == listed_repos(listings@.take(i as int)),
            any_listed == exists|k: int| 0 <= k < i && listings@[k] is Some,
        decreases listings@.len() - i,
    {
        proof {
            assert(listings@.take(i + 1).drop_last() =~= listings@.take(i as int));
            assert(listings@.take(i + 1).last() == listings@[i as int]);
        }
        if let Some(v) = &listings[i] {
            let ghost base = out@;
            let mut j: usize = 0;
            while j < v.len()
                invariant
                    j <= v@.len(),
                    out@ == base + v@.take(j as int),
                decreases v@.len() - j,
            {
                out.push(v[j].duplicate());
                assert(out@ =~= base + v@.take(j + 1));
                j = j + 1;
            }
            assert(v@.take(v@.len() as int) =~= v@);
            any_listed = true;
        }
        i = i + 1;
    }
    proof {
        assert(listings@.take(listings@.len() as int) =~= listings@);
    }
    if any_listed || listings.len() == 0 {
        Ok(out)
    } else {
        Err(PollError::NoOrganizationListed)
    }
}

} // verus!
