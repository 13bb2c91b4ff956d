use vstd::prelude::*;
use crate::record::{CommentRecord, Disposition, PullRequestRecord, ReviewRecord};

verus! {

/// The counters of one contributor, as natural numbers.
pub struct Tally {
    pub approvals: nat,
    pub requested_changes: nat,
    pub comments: nat,
    pub pull_requests: nat,
    pub additions: nat,
    pub deletions: nat,
    pub changed_files: nat,
}

impl Tally {
    /// The tally of somebody who has done nothing yet.
    pub open spec fn zero() -> Tally {
        Tally {
            approvals: 0,
            requested_changes: 0,
            comments: 0,
            pull_requests: 0,
            additions: 0,
            deletions: 0,
            changed_files: 0,
        }
    }

    /// Counter by counter, the sum of two tallies.
    pub open spec fn plus(self, other: Tally) -> Tally {
        Tally {
            approvals: self.approvals + other.approvals,
            requested_changes: self.requested_changes + other.requested_changes,
            comments: self.comments + other.comments,
            pull_requests: self.pull_requests + other.pull_requests,
            additions: self.additions + other.additions,
            deletions: self.deletions + other.deletions,
            changed_files: self.changed_files + other.changed_files,
        }
    }

    /// Whether every counter can be held in 64 bits.
    pub open spec fn fits(self) -> bool {
        &&& self.approvals <= u64::MAX
        &&& self.requested_changes <= u64::MAX
        &&& self.comments <= u64::MAX
        &&& self.pull_requests <= u64::MAX
        &&& self.additions <= u64::MAX
        &&& self.deletions <= u64::MAX
        &&& self.changed_files <= u64::MAX
    }

    /// Whether no counter of `self` exceeds the same counter of `other`.
    pub open spec fn le(self, other: Tally) -> bool {
        &&& self.approvals <= other.approvals
        &&& self.requested_changes <= other.requested_changes
        &&& self.comments <= other.comments
        &&& self.pull_requests <= other.pull_requests
        &&& self.additions <= other.additions
        &&& self.deletions <= other.deletions
        &&& self.changed_files <= other.changed_files
    }

    /// Lines added and removed together.
    pub open spec fn lines(self) -> nat {
        self.additions + self.deletions
    }
}

/// One thing that one contributor did, as the counters it adds.
pub struct Credit {
    pub login: Seq<char>,
    pub delta: Tally,
}

/// What writing the pull request `pr` adds to its author's counters.
pub open spec fn authorship(pr: PullRequestRecord) -> Tally {
    Tally {
        approvals: 0,
        requested_changes: 0,
        comments: 0,
        pull_requests: 1,
        additions: pr.additions as nat,
        deletions: pr.deletions as nat,
        changed_files: pr.changed_files as nat,
    }
}

/// What a review of the given disposition adds to the counters of its author.
pub open spec fn reviewing(disposition: Disposition) -> Tally {
    match disposition {
        Disposition::Approved => Tally { approvals: 1, ..Tally::zero() },
        Disposition::Commented => Tally { comments: 1, ..Tally::zero() },
        Disposition::ChangesRequested => Tally { requested_changes: 1, ..Tally::zero() },
        Disposition::Other => Tally::zero(),
    }
}

/// What one comment adds to its writer's counters.
pub open spec fn commenting() -> Tally {
    Tally { comments: 1, ..Tally::zero() }
}

/// The credits of a list of reviews, in their order.
pub open spec fn review_credits(reviews: Seq<ReviewRecord>) -> Seq<Credit> {
    Seq::new(
        reviews.len(),
        |i: int| Credit { login: reviews[i].author.login_view(), delta: reviewing(reviews[i].disposition) },
    )
}

/// The credits of a list of comments, in their order.
pub open spec fn comment_credits(comments: Seq<CommentRecord>) -> Seq<Credit> {
    Seq::new(
        comments.len(),
        |i: int| Credit { login: comments[i].author.login_view(), delta: commenting() },
    )
}

/// The credits of one pull request: its author first, then the authors of its reviews,
/// then those of its comments.
pub open spec fn credits_of(pr: PullRequestRecord) -> Seq<Credit> {
    seq![Credit { login: pr.author.login_view(), delta: authorship(pr) }] + review_credits(
        pr.reviews@,
    ) + comment_credits(pr.comments@)
}

/// The credits of a list of pull requests, in their order.
pub open spec fn credits(prs: Seq<PullRequestRecord>) -> Seq<Credit>
    decreases prs.len(),
{
    if prs.len() == 0 {
        Seq::empty()
    } else {
        credits(prs.drop_last()) + credits_of(prs.last())
    }
}

/// Everything that `login` is credited with in `cs`, summed.
pub open spec fn total_for(cs: Seq<Credit>, login: Seq<char>) -> Tally
    decreases cs.len(),
{
    if cs.len() == 0 {
        Tally::zero()
    } else if cs.last().login == login {
        total_for(cs.drop_last(), login).plus(cs.last().delta)
    } else {
        total_for(cs.drop_last(), login)
    }
}

/// The logins that occur in `cs`, each once, in the order of their first credit.
pub open spec fn roster(cs: Seq<Credit>) -> Seq<Seq<char>>
    decreases cs.len(),
{
    if cs.len() == 0 {
        Seq::empty()
    } else if roster(cs.drop_last()).contains(cs.last().login) {
        roster(cs.drop_last())
    } else {
        roster(cs.drop_last()).push(cs.last().login)
    }
}

/// One line of an aggregate: a contributor and the counters under that login.
pub struct Line {
    pub login: Seq<char>,
    pub tally: Tally,
}

/// The aggregate of a list of credits: one line for each login of the roster,
/// holding all that the login is credited with.
pub open spec fn tallied(cs: Seq<Credit>) -> Seq<Line> {
    Seq::new(
        roster(cs).len(),
        |i: int| Line { login: roster(cs)[i], tally: total_for(cs, roster(cs)[i]) },
    )
}

/// Whether some line of `lines` belongs to `login`.
pub open spec fn has_line(lines: Seq<Line>, login: Seq<char>) -> bool {
    exists|i: int| 0 <= i < lines.len() && (#[trigger] lines[i]).login == login
}

/// The place of a line of `login` in `lines`, where there is one.
pub open spec fn line_of(lines: Seq<Line>, login: Seq<char>) -> int {
    choose|i: int| 0 <= i < lines.len() && (#[trigger] lines[i]).login == login
}

/// Whether no login has two lines.
pub open spec fn distinct_logins(lines: Seq<Line>) -> bool {
    forall|i: int, j: int|
        0 <= i < j < lines.len() ==> (#[trigger] lines[i]).login != (#[trigger] lines[j]).login
}

/// Whether every counter of every line can be held in 64 bits.
pub open spec fn lines_fit(lines: Seq<Line>) -> bool {
    forall|i: int| 0 <= i < lines.len() ==> (#[trigger] lines[i]).tally.fits()
}

/// The aggregate after one more credit: the line of the login grows by the
/// credit, and a login without a line gets a new one at the end.
pub open spec fn credited(lines: Seq<Line>, c: Credit) -> Seq<Line> {
    if has_line(lines, c.login) {
        let i = line_of(lines, c.login);
        lines.update(i, Line { login: c.login, tally: lines[i].tally.plus(c.delta) })
    } else {
        lines.push(Line { login: c.login, tally: c.delta })
    }
}

/// The aggregate after the credits `cs`, taken in their order.
pub open spec fn absorbed(lines: Seq<Line>, cs: Seq<Credit>) -> Seq<Line>
    decreases cs.len(),
{
    if cs.len() == 0 {
        lines
    } else {
        credited(absorbed(lines, cs.drop_last()), cs.last())
    }
}

/// The counters of all lines, summed.
pub open spec fn summed(lines: Seq<Line>) -> Tally
    decreases lines.len(),
{
    if lines.len() == 0 {
        Tally::zero()
    } else {
        summed(lines.drop_last()).plus(lines.last().tally)
    }
}

/// The counters of all credits, summed.
pub open spec fn credit_sum(cs: Seq<Credit>) -> Tally
    decreases cs.len(),
{
    if cs.len() == 0 {
        Tally::zero()
    } else {
        credit_sum(cs.drop_last()).plus(cs.last().delta)
    }
}

/// The lines that a list of pull requests adds and removes, all together.
pub open spec fn volume(prs: Seq<PullRequestRecord>) -> nat
    decreases prs.len(),
{
    if prs.len() == 0 {
        0
    } else {
        volume(prs.drop_last()) + prs.last().additions as nat + prs.last().deletions as nat
    }
}

/// What `login` has written among `prs`: pull requests, lines and files.
pub open spec fn authored(prs: Seq<PullRequestRecord>, login: Seq<char>) -> Tally
    decreases prs.len(),
{
    if prs.len() == 0 {
        Tally::zero()
    } else if prs.last().author.login_view() == login {
        authored(prs.drop_last(), login).plus(authorship(prs.last()))
    } else {
        authored(prs.drop_last(), login)
    }
}

/// What `login` has done on the pull requests `prs` by reviewing and commenting.
pub open spec fn responded(prs: Seq<PullRequestRecord>, login: Seq<char>) -> Tally
    decreases prs.len(),
{
    if prs.len() == 0 {
        Tally::zero()
    } else {
        responded(prs.drop_last(), login).plus(
            total_for(review_credits(prs.last().reviews@), login),
        ).plus(total_for(comment_credits(prs.last().comments@), login))
    }
}

} // verus!
