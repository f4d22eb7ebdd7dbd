//! The bounded redirect-following fetch protocol: the decision at each
//! response, and what a whole chain of responses resolves to. The network
//! itself stays outside; a caller performs each step and feeds the next
//! response back in.

use vstd::prelude::*;

verus! {

/// How many redirects one fetch may follow.
pub const REDIRECT_LIMIT: u8 = 3;

/// The response body is read up to this many bytes; the rest is discarded.
pub const BODY_CAP: usize = 1048576;

/// What to do with one upstream response.
pub enum FetchStep {
    /// A success status: read the body and parse it.
    ReadBody,
    /// A redirect with a budget left: fetch this location next.
    Follow { url: String },
    /// A redirect past the budget: fail with the redirect-limit error.
    RedirectLimit,
    /// A redirect without a location: fail at once.
    MissingLocation,
    /// Any other status is echoed to the caller with an empty body.
    Echo { status: u16 },
}

/// The redirect budget of one fetch: how many redirects were followed so
/// far, and how many may be.
pub struct RedirectTracker {
    pub followed: u8,
    pub limit: u8,
}

impl RedirectTracker {
    pub fn new(limit: u8) -> (t: RedirectTracker)
        ensures
            t.followed == 0,
            t.limit == limit,
    {
        RedirectTracker { followed: 0, limit }
    }

    /// Decides what one response calls for. A success delivers; a
    /// redirect follows its location while the budget lasts, with the
    /// budget checked before the location; anything else is echoed.
    pub fn next_fetch_step(&mut self, status: u16, location: Option<String>) -> (r: FetchStep)
        ensures
            final(self).limit == old(self).limit,
            (200 <= status < 300) ==> r is ReadBody && final(self).followed == old(self).followed,
            (300 <= status < 400 && old(self).followed >= old(self).limit) ==> r is RedirectLimit
                && final(self).followed == old(self).followed,
            (300 <= status < 400 && old(self).followed < old(self).limit && location is Some)
                ==> (r matches FetchStep::Follow { url } && Some(url) == location)
                && final(self).followed == old(self).followed + 1,
            (300 <= status < 400 && old(self).followed < old(self).limit && location is None)
                ==> r is MissingLocation && final(self).followed == old(self).followed,
            !(200 <= status < 400) ==> (r matches FetchStep::Echo { status: s } && s == status)
                && final(self).followed == old(self).followed,
    {
        if 200 <= status && status < 300 {
            return FetchStep::ReadBody;
        }
        if 300 <= status && status < 400 {
            if self.followed >= self.limit {
                return FetchStep::RedirectLimit;
            }
            match location {
                Some(url) => {
                    self.followed = self.followed + 1;
                    return FetchStep::Follow { url };
                },
                None => {
                    return FetchStep::MissingLocation;
                },
            }
        }
        FetchStep::Echo { status }
    }
}

/// How a whole chain of upstream responses resolves. `at` is the index of
/// the response that settled it.
pub enum FetchOutcome {
    Delivered { at: int },
    EchoedStatus { status: u16, at: int },
    FailedRedirectLimit { at: int },
    FailedMissingLocation { at: int },
    Exhausted,
}

/// Resolves the chain from response `i` on, `followed` redirects already
/// taken: the spec-level fold of `next_fetch_step`. A response is the
/// pair of its status and whether it carries a location.
pub open spec fn chain_result_from(
    chain: Seq<(u16, bool)>,
    i: int,
    followed: int,
    limit: int,
) -> FetchOutcome
    decreases chain.len() - i,
{
    if i < 0 || i >= chain.len() {
        FetchOutcome::Exhausted
    } else {
        let status = chain[i].0;
        let has_location = chain[i].1;
        if 200 <= status < 300 {
            FetchOutcome::Delivered { at: i }
        } else if 300 <= status < 400 {
            if followed >= limit {
                FetchOutcome::FailedRedirectLimit { at: i }
            } else if has_location {
                chain_result_from(chain, i + 1, followed + 1, limit)
            } else {
                FetchOutcome::FailedMissingLocation { at: i }
            }
        } else {
            FetchOutcome::EchoedStatus { status: status, at: i }
        }
    }
}

/// Resolves a fresh fetch against the chain of responses it would see.
pub open spec fn chain_result(chain: Seq<(u16, bool)>, limit: int) -> FetchOutcome {
    chain_result_from(chain, 0, 0, limit)
}

proof fn lemma_delivered_from(chain: Seq<(u16, bool)>, i: int, followed: int, limit: int, k: int)
    requires
        0 <= i <= k < chain.len(),
        followed + (k - i) <= limit,
        forall|j: int| i <= j < k ==> 300 <= (#[trigger] chain[j]).0 < 400 && chain[j].1,
        200 <= chain[k].0 < 300,
    ensures
        chain_result_from(chain, i, followed, limit) == (FetchOutcome::Delivered { at: k }),
    decreases k - i,
{
    if i < k {
        lemma_delivered_from(chain, i + 1, followed + 1, limit, k);
    }
}

/// A chain of `k` redirects within the budget followed by a success
/// delivers the body of the final response.
pub proof fn lemma_redirects_within_budget(chain: Seq<(u16, bool)>, k: int, limit: int)
    requires
        0 <= k <= limit,
        k < chain.len(),
        forall|j: int| 0 <= j < k ==> 300 <= (#[trigger] chain[j]).0 < 400 && chain[j].1,
        200 <= chain[k].0 < 300,
    ensures
        chain_result(chain, limit) == (FetchOutcome::Delivered { at: k }),
{
    lemma_delivered_from(chain, 0, 0, limit, k);
}

proof fn lemma_limit_from(chain: Seq<(u16, bool)>, i: int, followed: int, limit: int, k: int)
    requires
        0 <= i <= k < chain.len(),
        followed == limit - (k - i),
        forall|j: int| i <= j <= k ==> 300 <= (#[trigger] chain[j]).0 < 400 && chain[j].1,
    ensures
        chain_result_from(chain, i, followed, limit) == (FetchOutcome::FailedRedirectLimit {
            at: k,
        }),
    decreases k - i,
{
    if i < k {
        lemma_limit_from(chain, i + 1, followed + 1, limit, k);
    }
}

/// A chain of more redirects than the budget allows fails with the
/// redirect-limit error at the first redirect past the budget.
pub proof fn lemma_redirect_limit_exceeded(chain: Seq<(u16, bool)>, limit: int)
    requires
        0 <= limit < chain.len(),
        forall|j: int| 0 <= j <= limit ==> 300 <= (#[trigger] chain[j]).0 < 400 && chain[j].1,
    ensures
        chain_result(chain, limit) == (FetchOutcome::FailedRedirectLimit { at: limit }),
{
    lemma_limit_from(chain, 0, 0, limit, limit);
}

proof fn lemma_missing_from(chain: Seq<(u16, bool)>, i: int, followed: int, limit: int, k: int)
    requires
        0 <= i <= k < chain.len(),
        followed + (k - i) < limit,
        forall|j: int| i <= j < k ==> 300 <= (#[trigger] chain[j]).0 < 400 && chain[j].1,
        300 <= chain[k].0 < 400,
        !chain[k].1,
    ensures
        chain_result_from(chain, i, followed, limit) == (FetchOutcome::FailedMissingLocation {
            at: k,
        }),
    decreases k - i,
{
    if i < k {
        lemma_missing_from(chain, i + 1, followed + 1, limit, k);
    }
}

/// A redirect without a location fails at once while any budget remains,
/// whatever responses would have followed.
pub proof fn lemma_missing_location_fails(chain: Seq<(u16, bool)>, k: int, limit: int)
    requires
        0 <= k < chain.len(),
        k < limit,
        forall|j: int| 0 <= j < k ==> 300 <= (#[trigger] chain[j]).0 < 400 && chain[j].1,
        300 <= chain[k].0 < 400,
        !chain[k].1,
    ensures
        chain_result(chain, limit) == (FetchOutcome::FailedMissingLocation { at: k }),
{
    lemma_missing_from(chain, 0, 0, limit, k);
}

} // verus!
