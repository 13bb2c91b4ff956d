use vstd::prelude::*;
use crate::aggregate::{pooled, reduce, Entry, RepoResult};
use crate::error::EngineError;
use crate::score::{placed_of, ranked, scored, scores_fit};
use crate::record::PullRequestRecord;
use crate::tally::{credits, lines_fit, tallied, volume, Line};
use crate::tally_laws::lemma_aggregate_conserves;

verus! {

/// The weight of a run over the pull requests `prs`: the lines that an
/// average pull request adds and removes, rounded down.
pub open spec fn run_weight(prs: Seq<PullRequestRecord>) -> nat {
    volume(prs) / prs.len()
}

/// From the results of all repositories to the ranking of the contributors:
/// reduces the results to one aggregate, derives the weight from it, scores
/// every contributor and ranks them. Fails with `DivisionByZero` where no
/// pull request is left to count, and with `Overflow` where a counter, a
/// total or a score cannot be held in 64 bits.
pub fn summarize(results: &Vec<RepoResult>) -> (r: Result<Vec<Entry>, EngineError>)
    ensures
        pooled(results@).len() == 0 ==> r == Err::<Vec<Entry>, EngineError>(
            EngineError::DivisionByZero,
        ),
        ({
            let prs = pooled(results@);
            let lines = tallied(credits(prs));
            if !lines_fit(lines) {
                r == Err::<Vec<Entry>, EngineError>(EngineError::Overflow)
            } else if prs.len() == 0 {
                r == Err::<Vec<Entry>, EngineError>(EngineError::DivisionByZero)
            } else if prs.len() > u64::MAX || volume(prs) > u64::MAX {
                r == Err::<Vec<Entry>, EngineError>(EngineError::Overflow)
            } else if !scores_fit(lines, run_weight(prs)) {
                r == Err::<Vec<Entry>, EngineError>(EngineError::Overflow)
            } else {
                r matches Ok(ranking) && placed_of(ranking@) == ranked(
                    scored(lines, run_weight(prs)),
                )
            }
        }),
{
    proof {
        lemma_aggregate_conserves(pooled(results@));
        if pooled(results@).len() == 0 {
            assert(tallied(credits(pooled(results@))) =~= Seq::<Line>::empty());
        }
    }
    let aggregate = match reduce(results) {
        Ok(a) => a,
        Err(e) => {
            return Err(e);
        },
    };
    let weight = match aggregate.weight() {
        Ok(w) => w,
        Err(e) => {
            return Err(e);
        },
    };
    aggregate.finalize(weight)
}

} // verus!
