use vstd::prelude::*;
use crate::aggregate::{lines_of, Aggregate, Entry, UserStats};
use crate::error::EngineError;
use crate::tally::{summed, Line, Tally};

verus! {

/// The pull requests of all lines together.
pub open spec fn total_pull_requests(lines: Seq<Line>) -> nat {
    summed(lines).pull_requests
}

/// The added and removed lines of all lines together.
pub open spec fn total_lines(lines: Seq<Line>) -> nat {
    summed(lines).lines()
}

/// The weight of a run: the added and removed lines of an average pull
/// request, rounded down.
pub open spec fn weight_of(lines: Seq<Line>) -> nat {
    total_lines(lines) / total_pull_requests(lines)
}

/// The score of a contributor under a weight.
pub open spec fn score_of(t: Tally, weight: nat) -> nat {
    weight * t.approvals + weight * t.comments + 2 * (weight * t.requested_changes) + t.additions
        + (weight / 10) * t.deletions
}

/// `total + x`, as long as it can be held in 64 bits.
fn add_within(total: Option<u64>, x: u64, Ghost(exact): Ghost<nat>) -> (sum: Option<u64>)
    requires
        total matches Some(t) ==> t == exact,
        total is None ==> exact > u64::MAX,
    ensures
        sum matches Some(s) ==> s == exact + x,
        sum is None ==> exact + x > u64::MAX,
{
    match total {
        Some(t) => t.checked_add(x),
        None => None,
    }
}

impl Aggregate {
    /// The weight of the run. Fails with `DivisionByZero` where no pull
    /// request was counted, and with `Overflow` where the number of pull
    /// requests or of lines cannot be held in 64 bits.
    pub fn weight(&self) -> (r: Result<u64, EngineError>)
        ensures
            r == if total_pull_requests(self@) == 0 {
                Err::<u64, EngineError>(EngineError::DivisionByZero)
            } else if total_pull_requests(self@) > u64::MAX || total_lines(self@) > u64::MAX {
                Err::<u64, EngineError>(EngineError::Overflow)
            } else {
                Ok::<u64, EngineError>(weight_of(self@) as u64)
            },
    {
        let entries = self.entries();
        let n = entries.len();
        let mut pull_requests: Option<u64> = Some(0);
        let mut lines: Option<u64> = Some(0);
        let mut k: usize = 0;
        while k < n
            invariant
                n == entries@.len(),
                k <= n,
                lines_of(entries@) == self@,
                pull_requests matches Some(p) ==> p == total_pull_requests(self@.take(k as int)),
                pull_requests is None ==> total_pull_requests(self@.take(k as int)) > u64::MAX,
                lines matches Some(l) ==> l == total_lines(self@.take(k as int)),
                lines is None ==> total_lines(self@.take(k as int)) > u64::MAX,
            decreases n - k,
        {
            let ghost head = self@.take(k as int);
            proof {
                assert(self@.take(k + 1).drop_last() == head);
                assert(self@.take(k + 1).last() == entries@[k as int]@);
            }
            let stats = &entries[k].stats;
            let ghost written = total_pull_requests(head);
            let ghost changed = total_lines(head);
            pull_requests = add_within(pull_requests, stats.pull_requests, Ghost(written));
            lines = add_within(lines, stats.additions, Ghost(changed));
            lines = add_within(lines, stats.deletions, Ghost(changed + stats.additions as nat));
            k += 1;
        }
        assert(self@.take(n as int) == self@);
        match pull_requests {
            Some(0) => Err(EngineError::DivisionByZero),
            Some(p) => match lines {
                Some(l) => Ok(l / p),
                None => Err(EngineError::Overflow),
            },
            None => Err(EngineError::Overflow),
        }
    }
}

/// The score of `stats` under `weight`. Fails with `Overflow`, and only then,
/// where the score cannot be held in 64 bits.
pub fn score(stats: &UserStats, weight: u64) -> (r: Result<u64, EngineError>)
    ensures
        r == if score_of(stats@, weight as nat) <= u64::MAX {
            Ok::<u64, EngineError>(score_of(stats@, weight as nat) as u64)
        } else {
            Err::<u64, EngineError>(EngineError::Overflow)
        },
{
    let ghost w = weight as nat;
    let ghost t = stats@;
    proof {
        assert(w * t.approvals >= 0) by (nonlinear_arith);
        assert(w * t.comments >= 0) by (nonlinear_arith);
        assert(w * t.requested_changes >= 0) by (nonlinear_arith);
        assert((w / 10) * t.deletions >= 0) by (nonlinear_arith);
    }
    let approvals = match weight.checked_mul(stats.approvals) {
        Some(x) => x,
        None => {
            return Err(EngineError::Overflow);
        },
    };
    let comments = match weight.checked_mul(stats.comments) {
        Some(x) => x,
        None => {
            return Err(EngineError::Overflow);
        },
    };
    let requested_once = match weight.checked_mul(stats.requested_changes) {
        Some(x) => x,
        None => {
            return Err(EngineError::Overflow);
        },
    };
    let requested = match requested_once.checked_mul(2) {
        Some(x) => x,
        None => {
            return Err(EngineError::Overflow);
        },
    };
    let deletions = match (weight / 10).checked_mul(stats.deletions) {
        Some(x) => x,
        None => {
            return Err(EngineError::Overflow);
        },
    };
    let sum = match approvals.checked_add(comments) {
        Some(x) => x,
        None => {
            return Err(EngineError::Overflow);
        },
    };
    let sum = match sum.checked_add(requested) {
        Some(x) => x,
        None => {
            return Err(EngineError::Overflow);
        },
    };
    let sum = match sum.checked_add(stats.additions) {
        Some(x) => x,
        None => {
            return Err(EngineError::Overflow);
        },
    };
    match sum.checked_add(deletions) {
        Some(x) => Ok(x),
        None => Err(EngineError::Overflow),
    }
}

/// A contributor with the counters and the score under that login.
pub struct Placed {
    pub login: Seq<char>,
    pub tally: Tally,
    pub score: nat,
}

/// What a list of entries stands for, their scores included.
pub open spec fn placed_of(entries: Seq<Entry>) -> Seq<Placed> {
    Seq::new(
        entries.len(),
        |i: int|
            Placed {
                login: entries[i].login@,
                tally: entries[i].stats@,
                score: entries[i].stats.score as nat,
            },
    )
}

/// The lines of an aggregate, each with its score under `weight`.
pub open spec fn scored(lines: Seq<Line>, weight: nat) -> Seq<Placed> {
    Seq::new(
        lines.len(),
        |i: int|
            Placed {
                login: lines[i].login,
                tally: lines[i].tally,
                score: score_of(lines[i].tally, weight),
            },
    )
}

/// Whether the score of every line under `weight` can be held in 64 bits.
pub open spec fn scores_fit(lines: Seq<Line>, weight: nat) -> bool {
    forall|i: int| 0 <= i < lines.len() ==> score_of((#[trigger] lines[i]).tally, weight) <= u64::MAX
}

/// Where a contributor with `score` goes into `list`: behind the last one
/// whose score is at least as high.
pub open spec fn place(list: Seq<Placed>, score: nat) -> int
    decreases list.len(),
{
    if list.len() == 0 {
        0
    } else if list.last().score >= score {
        list.len() as int
    } else {
        place(list.drop_last(), score)
    }
}

/// The ranking of `list`: by score, highest first; contributors with the
/// same score stay in the order in which `list` has them.
pub open spec fn ranked(list: Seq<Placed>) -> Seq<Placed>
    decreases list.len(),
{
    if list.len() == 0 {
        Seq::empty()
    } else {
        let front = ranked(list.drop_last());
        front.insert(place(front, list.last().score), list.last())
    }
}

impl Aggregate {
    /// Ends the aggregation: scores every contributor under `weight` and
    /// ranks them, by score, highest first, and among equal scores in the
    /// order in which the logins were first met. Fails with `Overflow`, and
    /// only then, where a score cannot be held in 64 bits.
    pub fn finalize(self, weight: u64) -> (r: Result<Vec<Entry>, EngineError>)
        ensures
            r is Ok <==> scores_fit(self@, weight as nat),
            r matches Ok(v) ==> placed_of(v@) == ranked(scored(self@, weight as nat)),
            r matches Err(e) ==> e == EngineError::Overflow,
    {
        let entries = self.entries();
        let ghost all = scored(self@, weight as nat);
        let n = entries.len();
        let mut out: Vec<Entry> = Vec::new();
        let mut k: usize = 0;
        assert(placed_of(out@) =~= ranked(all.take(0)));
        while k < n
            invariant
                n == entries@.len(),
                k <= n,
                lines_of(entries@) == self@,
                all == scored(self@, weight as nat),
                placed_of(out@) == ranked(all.take(k as int)),
                forall|i: int|
                    0 <= i < k ==> score_of((#[trigger] self@[i]).tally, weight as nat) <= u64::MAX,
            decreases n - k,
        {
            assert(self@[k as int] == entries@[k as int]@);
            let mut stats = entries[k].stats;
            stats.score = match score(&stats, weight) {
                Ok(x) => x,
                Err(e) => {
                    return Err(e);
                },
            };
            let entry = Entry { login: entries[k].login.clone(), stats };
            let ghost front = placed_of(out@);
            let ghost next = all[k as int];
            proof {
                assert(all.take(k + 1).drop_last() == all.take(k as int));
                assert(all.take(k + 1).last() == next);
            }
            let mut p: usize = out.len();
            assert(front.take(p as int) == front);
            while p > 0 && out[p - 1].stats.score < stats.score
                invariant
                    p <= out@.len(),
                    front == placed_of(out@),
                    place(front, stats.score as nat) == place(front.take(p as int), stats.score as nat),
                decreases p,
            {
                proof {
                    assert(front.take(p as int).drop_last() == front.take(p - 1));
                    assert(front.take(p as int).last() == front[p - 1]);
                }
                p -= 1;
            }
            proof {
                if p > 0 {
                    assert(front.take(p as int).last() == front[p - 1]);
                }
                assert(place(front, stats.score as nat) == p);
            }
            out.insert(p, entry);
            assert(placed_of(out@) =~= front.insert(p as int, next));
            k += 1;
        }
        assert(all.take(n as int) == all);
        Ok(out)
    }
}

/// The contributors of `list` that have exactly `score`, in their order.
pub open spec fn with_score(list: Seq<Placed>, score: nat) -> Seq<Placed>
    decreases list.len(),
{
    if list.len() == 0 {
        Seq::empty()
    } else if list.last().score == score {
        with_score(list.drop_last(), score).push(list.last())
    } else {
        with_score(list.drop_last(), score)
    }
}

/// The place for `score` lies inside the list; everybody from there on has
/// a lower score, and the one just before has one at least as high.
pub proof fn lemma_place(list: Seq<Placed>, score: nat)
    ensures
        0 <= place(list, score) <= list.len(),
        forall|i: int| place(list, score) <= i < list.len() ==> (#[trigger] list[i]).score < score,
        place(list, score) > 0 ==> list[place(list, score) - 1].score >= score,
    decreases list.len(),
{
    if list.len() > 0 && list.last().score < score {
        let front = list.drop_last();
        lemma_place(front, score);
        assert forall|i: int| place(list, score) <= i < list.len() implies (#[trigger] list[i]).score
            < score by {
            if i < front.len() {
                assert(list[i] == front[i]);
            }
        }
    }
}

/// A ranking holds as many contributors as the list it was made of.
pub proof fn lemma_ranked_len(list: Seq<Placed>)
    ensures
        ranked(list).len() == list.len(),
    decreases list.len(),
{
    if list.len() > 0 {
        lemma_ranked_len(list.drop_last());
        lemma_place(ranked(list.drop_last()), list.last().score);
    }
}

/// A ranking goes from the highest score down.
pub proof fn lemma_ranked_sorted(list: Seq<Placed>)
    ensures
        forall|i: int, j: int|
            0 <= i < j < ranked(list).len() ==> (#[trigger] ranked(list)[i]).score >= (
            #[trigger] ranked(list)[j]).score,
    decreases list.len(),
{
    if list.len() > 0 {
        let front = ranked(list.drop_last());
        let x = list.last();
        let p = place(front, x.score);
        let out = ranked(list);
        lemma_ranked_sorted(list.drop_last());
        lemma_place(front, x.score);
        assert forall|i: int, j: int| 0 <= i < j < out.len() implies (#[trigger] out[i]).score >= (
        #[trigger] out[j]).score by {
            if j < p {
                assert(out[i] == front[i] && out[j] == front[j]);
            } else if j == p {
                assert(out[i] == front[i]);
                if i < p - 1 {
                    assert(front[i].score >= front[p - 1].score);
                }
            } else if i < p {
                assert(out[i] == front[i] && out[j] == front[j - 1]);
            } else if i == p {
                assert(out[j] == front[j - 1]);
            } else {
                assert(out[i] == front[i - 1] && out[j] == front[j - 1]);
            }
        }
    }
}

/// A ranking holds the contributors of its list, each as often as the list does.
pub proof fn lemma_ranked_permutation(list: Seq<Placed>)
    ensures
        ranked(list).to_multiset() == list.to_multiset(),
    decreases list.len(),
{
    if list.len() > 0 {
        let front = ranked(list.drop_last());
        lemma_ranked_permutation(list.drop_last());
        lemma_place(front, list.last().score);
        vstd::seq_lib::to_multiset_insert(front, place(front, list.last().score), list.last());
        vstd::seq_lib::to_multiset_build(list.drop_last(), list.last());
        assert(list.drop_last().push(list.last()) == list);
    } else {
        assert(list =~= Seq::<Placed>::empty());
    }
}

/// The contributors with one score in two lists, one after the other.
proof fn lemma_with_score_concat(a: Seq<Placed>, b: Seq<Placed>, score: nat)
    ensures
        with_score(a + b, score) == with_score(a, score) + with_score(b, score),
    decreases b.len(),
{
    if b.len() == 0 {
        assert(a + b == a);
        assert(with_score(a, score) + with_score(b, score) == with_score(a, score));
    } else {
        assert((a + b).drop_last() == a + b.drop_last());
        assert((a + b).last() == b.last());
        lemma_with_score_concat(a, b.drop_last(), score);
        if b.last().score == score {
            assert((with_score(a, score) + with_score(b.drop_last(), score)).push(b.last())
                == with_score(a, score) + with_score(b.drop_last(), score).push(b.last()));
        }
    }
}

/// Nobody has a score that nobody has.
proof fn lemma_with_score_none(list: Seq<Placed>, score: nat)
    requires
        forall|i: int| 0 <= i < list.len() ==> (#[trigger] list[i]).score != score,
    ensures
        with_score(list, score) == Seq::<Placed>::empty(),
    decreases list.len(),
{
    if list.len() > 0 {
        let front = list.drop_last();
        assert forall|i: int| 0 <= i < front.len() implies (#[trigger] front[i]).score != score by {
            assert(front[i] == list[i]);
        }
        lemma_with_score_none(front, score);
        assert(list[list.len() - 1].score != score);
    }
}

/// Ranking is stable: contributors with the same score stand in the ranking
/// in the order in which the list has them.
pub proof fn lemma_ranked_stable(list: Seq<Placed>, score: nat)
    ensures
        with_score(ranked(list), score) == with_score(list, score),
    decreases list.len(),
{
    if list.len() > 0 {
        let front = ranked(list.drop_last());
        let x = list.last();
        let p = place(front, x.score);
        lemma_ranked_stable(list.drop_last(), score);
        lemma_place(front, x.score);
        let head = front.take(p);
        let tail = front.skip(p);
        assert(front == head + tail);
        assert(front.insert(p, x) =~= head + seq![x] + tail);
        lemma_with_score_concat(head, tail, score);
        lemma_with_score_concat(head + seq![x], tail, score);
        lemma_with_score_concat(head, seq![x], score);
        assert(seq![x].drop_last() =~= Seq::<Placed>::empty());
        assert(with_score(seq![x].drop_last(), score) == Seq::<Placed>::empty());
        if x.score == score {
            assert forall|i: int| 0 <= i < tail.len() implies (#[trigger] tail[i]).score != score by {
                assert(tail[i] == front[p + i]);
            }
            lemma_with_score_none(tail, score);
            assert(with_score(seq![x], score) == seq![x]);
            assert(with_score(head, score) + seq![x] + Seq::<Placed>::empty() == with_score(
                head,
                score,
            ).push(x));
            assert(with_score(head, score) + Seq::<Placed>::empty() == with_score(head, score));
        } else {
            assert(with_score(seq![x], score) == Seq::<Placed>::empty());
            assert(with_score(head, score) + Seq::<Placed>::empty() == with_score(head, score));
        }
    }
}

} // verus!
