use vstd::prelude::*;
use crate::error::EngineError;
use crate::record::{Disposition, PullRequestRecord};
use crate::tally::{
    absorbed, authorship, comment_credits, commenting, credited, credits, credits_of,
    distinct_logins, has_line, line_of, lines_fit, review_credits, reviewing, summed, tallied,
    volume, Credit, Line, Tally,
};
use crate::tally_laws::{
    lemma_absorbed_concat, lemma_aggregate_conserves, lemma_absorbed_grows, lemma_absorbed_tallied, lemma_credited_distinct,
    lemma_credits_concat, lemma_overflow_is_final,
};

verus! {

/// The counters of one contributor. `score` stays 0 until the ranking fills it.
#[derive(Clone, Copy, Debug, PartialEq, Eq)]
pub struct UserStats {
    pub approvals: u64,
    pub requested_changes: u64,
    pub comments: u64,
    pub pull_requests: u64,
    pub additions: u64,
    pub deletions: u64,
    pub changed_files: u64,
    pub score: u64,
}

impl View for UserStats {
    type V = Tally;

    open spec fn view(&self) -> Tally {
        Tally {
            approvals: self.approvals as nat,
            requested_changes: self.requested_changes as nat,
            comments: self.comments as nat,
            pull_requests: self.pull_requests as nat,
            additions: self.additions as nat,
            deletions: self.deletions as nat,
            changed_files: self.changed_files as nat,
        }
    }
}

impl UserStats {
    /// Counters that are all zero.
    pub fn new() -> (s: UserStats)
        ensures
            s@ == Tally::zero(),
            s.score == 0,
    {
        UserStats {
            approvals: 0,
            requested_changes: 0,
            comments: 0,
            pull_requests: 0,
            additions: 0,
            deletions: 0,
            changed_files: 0,
            score: 0,
        }
    }

    /// These counters raised by those of `delta`, unless one of them would
    /// leave the range of 64 bits. The score is kept.
    pub fn plus(&self, delta: &UserStats) -> (sum: Option<UserStats>)
        ensures
            sum is Some <==> self@.plus(delta@).fits(),
            sum matches Some(s) ==> s@ == self@.plus(delta@) && s.score == self.score,
    {
        let approvals = self.approvals.checked_add(delta.approvals);
        let requested_changes = self.requested_changes.checked_add(delta.requested_changes);
        let comments = self.comments.checked_add(delta.comments);
        let pull_requests = self.pull_requests.checked_add(delta.pull_requests);
        let additions = self.additions.checked_add(delta.additions);
        let deletions = self.deletions.checked_add(delta.deletions);
        let changed_files = self.changed_files.checked_add(delta.changed_files);
        match (
            approvals,
            requested_changes,
            comments,
            pull_requests,
            additions,
            deletions,
            changed_files,
        ) {
            (Some(a), Some(r), Some(c), Some(p), Some(add), Some(del), Some(f)) => Some(
                UserStats {
                    approvals: a,
                    requested_changes: r,
                    comments: c,
                    pull_requests: p,
                    additions: add,
                    deletions: del,
                    changed_files: f,
                    score: self.score,
                },
            ),
            _ => None,
        }
    }

    /// What writing `pr` adds to its author's counters.
    pub fn for_authoring(pr: &PullRequestRecord) -> (s: UserStats)
        ensures
            s@ == authorship(*pr),
            s.score == 0,
    {
        UserStats {
            approvals: 0,
            requested_changes: 0,
            comments: 0,
            pull_requests: 1,
            additions: pr.additions,
            deletions: pr.deletions,
            changed_files: pr.changed_files,
            score: 0,
        }
    }

    /// What a review of the given disposition adds to the counters of its author.
    pub fn for_reviewing(disposition: Disposition) -> (s: UserStats)
        ensures
            s@ == reviewing(disposition),
            s.score == 0,
    {
        let mut s = UserStats::new();
        match disposition {
            Disposition::Approved => {
                s.approvals = 1;
            },
            Disposition::Commented => {
                s.comments = 1;
            },
            Disposition::ChangesRequested => {
                s.requested_changes = 1;
            },
            Disposition::Other => {},
        }
        s
    }

    /// What one comment adds to its writer's counters.
    pub fn for_commenting() -> (s: UserStats)
        ensures
            s@ == commenting(),
            s.score == 0,
    {
        let mut s = UserStats::new();
        s.comments = 1;
        s
    }
}

/// A contributor with the counters under that login.
#[derive(Clone, Debug, PartialEq, Eq)]
pub struct Entry {
    pub login: String,
    pub stats: UserStats,
}

impl View for Entry {
    type V = Line;

    open spec fn view(&self) -> Line {
        Line { login: self.login@, tally: self.stats@ }
    }
}

/// The lines that a list of entries stands for.
pub open spec fn lines_of(entries: Seq<Entry>) -> Seq<Line> {
    Seq::new(entries.len(), |i: int| entries[i]@)
}

/// The statistics of all contributors, one entry for each login, in the order
/// in which the logins were first met. Whatever role a login appears in, it is
/// counted in the same entry.
pub struct Aggregate {
    entries: Vec<Entry>,
}

impl View for Aggregate {
    type V = Seq<Line>;

    closed spec fn view(&self) -> Seq<Line> {
        lines_of(self.entries@)
    }
}

impl Aggregate {
    #[verifier::type_invariant]
    spec fn well_formed(self) -> bool {
        &&& distinct_logins(lines_of(self.entries@))
        &&& forall|i: int| 0 <= i < self.entries@.len() ==> (#[trigger] self.entries@[i]).stats.score == 0
    }

    /// An aggregate without any contributor.
    pub fn new() -> (a: Aggregate)
        ensures
            a@ == Seq::<Line>::empty(),
    {
        let a = Aggregate { entries: Vec::new() };
        assert(a@ =~= Seq::<Line>::empty());
        a
    }

    /// The number of contributors.
    pub fn len(&self) -> (n: usize)
        ensures
            n == self@.len(),
    {
        self.entries.len()
    }

    /// The entries, in the order in which the logins were first met.
    pub fn entries(&self) -> (entries: &Vec<Entry>)
        ensures
            lines_of(entries@) == self@,
            distinct_logins(self@),
            lines_fit(self@),
            forall|i: int| 0 <= i < entries@.len() ==> (#[trigger] entries@[i]).stats.score == 0,
    {
        proof {
            use_type_invariant(self);
        }
        &self.entries
    }

    /// The counters under `login`, if the login has an entry.
    pub fn get(&self, login: &String) -> (found: Option<UserStats>)
        ensures
            found is Some <==> has_line(self@, login@),
            found matches Some(s) ==> s@ == self@[line_of(self@, login@)].tally && s.score == 0,
    {
        proof {
            use_type_invariant(self);
        }
        let mut i: usize = 0;
        while i < self.entries.len()
            invariant
                i <= self.entries@.len(),
                forall|j: int| 0 <= j < i ==> (#[trigger] self@[j]).login != login@,
                self@ == lines_of(self.entries@),
                distinct_logins(self@),
                forall|j: int|
                    0 <= j < self.entries@.len() ==> (#[trigger] self.entries@[j]).stats.score == 0,
            decreases self.entries@.len() - i,
        {
            if self.entries[i].login == *login {
                assert(self@[i as int].login == login@);
                assert(line_of(self@, login@) == i);
                return Some(self.entries[i].stats);
            }
            i += 1;
        }
        None
    }

    /// Counts `delta` under `login`: in the entry of that login, or in a new
    /// entry behind all others where the login has none. Fails with
    /// `Overflow`, and only then, where a counter would leave the range of 64 bits.
    pub fn credit(self, login: String, delta: &UserStats) -> (r: Result<Aggregate, EngineError>)
        ensures
            r is Ok <==> lines_fit(credited(self@, Credit { login: login@, delta: delta@ })),
            r matches Ok(a) ==> a@ == credited(self@, Credit { login: login@, delta: delta@ })
                && distinct_logins(a@),
            r matches Err(e) ==> e == EngineError::Overflow,
            distinct_logins(self@),
            lines_fit(self@),
    {
        proof {
            use_type_invariant(&self);
        }
        let ghost before = self@;
        let ghost c = Credit { login: login@, delta: delta@ };
        proof {
            lemma_credited_distinct(before, c);
        }
        let mut entries = self.entries;
        let n = entries.len();
        let mut i: usize = 0;
        while i < n
            invariant
                n == entries@.len(),
                i <= n,
                before == lines_of(entries@),
                before == self@,
                distinct_logins(before),
                distinct_logins(credited(before, c)),
                c == (Credit { login: login@, delta: delta@ }),
                forall|j: int| 0 <= j < i ==> (#[trigger] before[j]).login != login@,
                forall|j: int| 0 <= j < n ==> (#[trigger] entries@[j]).stats.score == 0,
            decreases n - i,
        {
            if entries[i].login == login {
                assert(before[i as int].login == login@);
                assert(line_of(before, login@) == i);
                let ghost after = credited(before, c);
                assert(before[i as int].tally == entries@[i as int].stats@);
                assert(after[i as int].tally == entries@[i as int].stats@.plus(delta@));
                match entries[i].stats.plus(delta) {
                    Some(stats) => {
                        entries.set(i, Entry { login, stats });
                        assert(lines_of(entries@) =~= after);
                        assert(lines_fit(after));
                        return Ok(Aggregate { entries });
                    },
                    None => {
                        return Err(EngineError::Overflow);
                    },
                }
            }
            i += 1;
        }
        assert(!has_line(before, login@));
        let mut stats = *delta;
        stats.score = 0;
        entries.push(Entry { login, stats });
        assert(lines_of(entries@) =~= credited(before, c));
        assert(lines_fit(credited(before, c)));
        Ok(Aggregate { entries })
    }

    /// Counts one pull request: the author's pull request, lines and files,
    /// then each review under its author, then each comment under its author.
    pub fn absorb(self, pr: &PullRequestRecord) -> (r: Result<Aggregate, EngineError>)
        ensures
            r is Ok <==> lines_fit(absorbed(self@, credits_of(*pr))),
            r matches Ok(a) ==> a@ == absorbed(self@, credits_of(*pr)) && distinct_logins(a@),
            r matches Err(e) ==> e == EngineError::Overflow,
    {
        let ghost before = self@;
        let ghost cs = credits_of(*pr);
        let delta = UserStats::for_authoring(pr);
        let mut cur = match self.credit(pr.author.login(), &delta) {
            Ok(next) => next,
            Err(e) => {
                proof {
                    lemma_overflow_stays(before, cs, 0);
                }
                return Err(e);
            },
        };
        proof {
            lemma_take_next(before, cs, 0);
        }
        let reviews = pr.reviews.len();
        let mut j: usize = 0;
        while j < reviews
            invariant
                cs == credits_of(*pr),
                before == self@,
                reviews == pr.reviews@.len(),
                j <= reviews,
                cur@ == absorbed(before, cs.take(1 + j)),
            decreases reviews - j,
        {
            let delta = UserStats::for_reviewing(pr.reviews[j].disposition);
            proof {
                lemma_take_next(before, cs, 1 + j);
                assert(cs[1 + j] == review_credits(pr.reviews@)[j as int]);
            }
            match cur.credit(pr.reviews[j].author.login(), &delta) {
                Ok(next) => {
                    cur = next;
                },
                Err(e) => {
                    proof {
                        lemma_overflow_stays(before, cs, 1 + j);
                    }
                    return Err(e);
                },
            }
            j += 1;
        }
        let comments = pr.comments.len();
        let mut k: usize = 0;
        while k < comments
            invariant
                cs == credits_of(*pr),
                before == self@,
                reviews == pr.reviews@.len(),
                comments == pr.comments@.len(),
                k <= comments,
                cur@ == absorbed(before, cs.take(1 + reviews + k)),
            decreases comments - k,
        {
            let delta = UserStats::for_commenting();
            proof {
                lemma_take_next(before, cs, 1 + reviews + k);
                assert(cs[1 + reviews + k] == comment_credits(pr.comments@)[k as int]);
            }
            match cur.credit(pr.comments[k].author.login(), &delta) {
                Ok(next) => {
                    cur = next;
                },
                Err(e) => {
                    proof {
                        lemma_overflow_stays(before, cs, 1 + reviews + k);
                    }
                    return Err(e);
                },
            }
            k += 1;
        }
        assert(cs.take(cs.len() as int) == cs);
        proof {
            use_type_invariant(&cur);
        }
        Ok(cur)
    }

    /// Counts a list of pull requests, one after the other.
    pub fn absorb_all(self, prs: &Vec<PullRequestRecord>) -> (r: Result<Aggregate, EngineError>)
        ensures
            r is Ok <==> lines_fit(absorbed(self@, credits(prs@))),
            r matches Ok(a) ==> a@ == absorbed(self@, credits(prs@)) && distinct_logins(a@),
            r matches Err(e) ==> e == EngineError::Overflow,
    {
        let ghost before = self@;
        let mut cur = self;
        let n = prs.len();
        let mut k: usize = 0;
        while k < n
            invariant
                n == prs@.len(),
                k <= n,
                before == self@,
                cur@ == absorbed(before, credits(prs@.take(k as int))),
            decreases n - k,
        {
            proof {
                let head = prs@.take(k as int);
                assert(prs@.take(k + 1).drop_last() == head);
                assert(prs@.take(k + 1).last() == prs@[k as int]);
                lemma_absorbed_concat(before, credits(head), credits_of(prs@[k as int]));
            }
            match cur.absorb(&prs[k]) {
                Ok(next) => {
                    cur = next;
                },
                Err(e) => {
                    proof {
                        assert(prs@ == prs@.take(k + 1) + prs@.skip(k + 1));
                        lemma_credits_concat(prs@.take(k + 1), prs@.skip(k + 1));
                        lemma_overflow_is_final(
                            before,
                            credits(prs@.take(k + 1)),
                            credits(prs@.skip(k + 1)),
                        );
                    }
                    return Err(e);
                },
            }
            k += 1;
        }
        assert(prs@.take(n as int) == prs@);
        proof {
            use_type_invariant(&cur);
        }
        Ok(cur)
    }
}

/// What one repository came back with: its merged pull requests inside the
/// date window. A repository whose fetch failed has none.
#[derive(Clone, Debug, PartialEq, Eq)]
pub struct RepoResult {
    pub repo: String,
    pub pull_requests: Vec<PullRequestRecord>,
}

/// The pull requests of all repositories, in the order of the results.
pub open spec fn pooled(results: Seq<RepoResult>) -> Seq<PullRequestRecord>
    decreases results.len(),
{
    if results.len() == 0 {
        Seq::empty()
    } else {
        pooled(results.drop_last()) + results.last().pull_requests@
    }
}

/// Folds the results of all repositories into one aggregate: one entry for
/// each login that wrote, reviewed or commented, holding all that the login
/// did in any role and any repository. Over all entries, the pull requests
/// and the lines are those of the results, each counted once. Fails with
/// `Overflow`, and only then, where a counter would leave the range of 64 bits.
pub fn reduce(results: &Vec<RepoResult>) -> (r: Result<Aggregate, EngineError>)
    ensures
        r is Ok <==> lines_fit(tallied(credits(pooled(results@)))),
        r matches Ok(a) ==> a@ == tallied(credits(pooled(results@))) && distinct_logins(a@),
        r matches Ok(a) ==> summed(a@).pull_requests == pooled(results@).len() && summed(a@).lines()
            == volume(pooled(results@)),
        r matches Err(e) ==> e == EngineError::Overflow,
{
    proof {
        lemma_aggregate_conserves(pooled(results@));
    }
    let ghost none = Seq::<Line>::empty();
    let mut cur = Aggregate::new();
    let n = results.len();
    let mut k: usize = 0;
    proof {
        assert(tallied(Seq::<Credit>::empty()) =~= none);
        lemma_absorbed_tallied(Seq::<Credit>::empty(), credits(pooled(results@)));
        assert(Seq::<Credit>::empty() + credits(pooled(results@)) == credits(pooled(results@)));
    }
    while k < n
        invariant
            n == results@.len(),
            k <= n,
            none == Seq::<Line>::empty(),
            cur@ == absorbed(none, credits(pooled(results@.take(k as int)))),
            absorbed(none, credits(pooled(results@))) == tallied(credits(pooled(results@))),
        decreases n - k,
    {
        proof {
            let head = results@.take(k as int);
            let prs = results@[k as int].pull_requests@;
            assert(results@.take(k + 1).drop_last() == head);
            assert(results@.take(k + 1).last() == results@[k as int]);
            lemma_credits_concat(pooled(head), prs);
            lemma_absorbed_concat(none, credits(pooled(head)), credits(prs));
        }
        match cur.absorb_all(&results[k].pull_requests) {
            Ok(next) => {
                cur = next;
            },
            Err(e) => {
                proof {
                    assert(results@ == results@.take(k + 1) + results@.skip(k + 1));
                    lemma_pooled_concat(results@.take(k + 1), results@.skip(k + 1));
                    lemma_credits_concat(
                        pooled(results@.take(k + 1)),
                        pooled(results@.skip(k + 1)),
                    );
                    lemma_overflow_is_final(
                        none,
                        credits(pooled(results@.take(k + 1))),
                        credits(pooled(results@.skip(k + 1))),
                    );
                }
                return Err(e);
            },
        }
        k += 1;
    }
    assert(results@.take(n as int) == results@);
    proof {
        use_type_invariant(&cur);
    }
    Ok(cur)
}

/// The pull requests of two lists of results, one after the other, are those
/// of their concatenation.
pub proof fn lemma_pooled_concat(a: Seq<RepoResult>, b: Seq<RepoResult>)
    ensures
        pooled(a + b) == pooled(a) + pooled(b),
    decreases b.len(),
{
    if b.len() == 0 {
        assert(a + b == a);
        assert(pooled(a) + pooled(b) == pooled(a));
    } else {
        assert((a + b).drop_last() == a + b.drop_last());
        assert((a + b).last() == b.last());
        lemma_pooled_concat(a, b.drop_last());
        assert((pooled(a) + pooled(b.drop_last())) + b.last().pull_requests@ == pooled(a) + (pooled(
            b.drop_last(),
        ) + b.last().pull_requests@));
    }
}

/// Taking in one credit more: the aggregate after the first `k + 1` credits
/// is the one after the first `k`, credited with the next.
proof fn lemma_take_next(lines: Seq<Line>, cs: Seq<Credit>, k: int)
    requires
        0 <= k < cs.len(),
    ensures
        absorbed(lines, cs.take(k + 1)) == credited(absorbed(lines, cs.take(k)), cs[k]),
{
    assert(cs.take(k + 1).drop_last() == cs.take(k));
    assert(cs.take(k + 1).last() == cs[k]);
}

/// Once the first `k + 1` credits have taken a counter out of range, the
/// rest cannot bring it back.
proof fn lemma_overflow_stays(lines: Seq<Line>, cs: Seq<Credit>, k: int)
    requires
        0 <= k < cs.len(),
        !lines_fit(credited(absorbed(lines, cs.take(k)), cs[k])),
    ensures
        !lines_fit(absorbed(lines, cs)),
{
    lemma_take_next(lines, cs, k);
    assert(cs == cs.take(k + 1) + cs.skip(k + 1));
    lemma_absorbed_concat(lines, cs.take(k + 1), cs.skip(k + 1));
    lemma_absorbed_grows(absorbed(lines, cs.take(k + 1)), cs.skip(k + 1));
}

} // verus!
