use vstd::prelude::*;
use crate::record::{CommentRecord, PullRequestRecord, ReviewRecord};
use crate::tally::{
    absorbed, authored, authorship, comment_credits, credit_sum, credited, credits, credits_of,
    distinct_logins, has_line, line_of, lines_fit, responded, review_credits, roster, summed,
    tallied, total_for, volume, Credit, Line, Tally,
};

verus! {

/// Every login of the roster has a credit, and every credit's login is in the roster.
pub proof fn lemma_roster_members(cs: Seq<Credit>)
    ensures
        forall|k: int| 0 <= k < cs.len() ==> roster(cs).contains((#[trigger] cs[k]).login),
        forall|i: int|
            0 <= i < roster(cs).len() ==> exists|k: int|
                0 <= k < cs.len() && (#[trigger] cs[k]).login == #[trigger] roster(cs)[i],
    decreases cs.len(),
{
    if cs.len() > 0 {
        let front = cs.drop_last();
        lemma_roster_members(front);
        let r = roster(front);
        let r2 = roster(cs);
        assert forall|k: int| 0 <= k < cs.len() implies r2.contains((#[trigger] cs[k]).login) by {
            if k < front.len() {
                assert(front[k] == cs[k]);
                let w = choose|w: int| 0 <= w < r.len() && r[w] == front[k].login;
                assert(r2[w] == cs[k].login);
            } else {
                if r.contains(cs.last().login) {
                } else {
                    assert(r2[r.len() as int] == cs[k].login);
                }
            }
        }
        assert forall|i: int| 0 <= i < r2.len() implies exists|k: int|
            0 <= k < cs.len() && (#[trigger] cs[k]).login == #[trigger] r2[i] by {
            if i < r.len() {
                assert(r2[i] == r[i]);
                let k = choose|k: int| 0 <= k < front.len() && (#[trigger] front[k]).login == r[i];
                assert(cs[k] == front[k]);
            } else {
                assert(cs[cs.len() - 1].login == r2[i]);
            }
        }
    }
}

/// No login occurs twice in the roster.
pub proof fn lemma_roster_distinct(cs: Seq<Credit>)
    ensures
        forall|i: int, j: int|
            0 <= i < j < roster(cs).len() ==> #[trigger] roster(cs)[i] != #[trigger] roster(cs)[j],
    decreases cs.len(),
{
    if cs.len() > 0 {
        let r = roster(cs.drop_last());
        let r2 = roster(cs);
        lemma_roster_distinct(cs.drop_last());
        assert forall|i: int, j: int| 0 <= i < j < r2.len() implies #[trigger] r2[i] != #[trigger] r2[j] by {
            if j < r.len() {
                assert(r2[i] == r[i] && r2[j] == r[j]);
            } else {
                assert(!r.contains(cs.last().login));
                assert(r2[i] == r[i]);
                assert(r.contains(r[i]));
            }
        }
    }
}

/// A login outside the roster is credited with nothing.
pub proof fn lemma_total_outside_roster(cs: Seq<Credit>, login: Seq<char>)
    requires
        !roster(cs).contains(login),
    ensures
        total_for(cs, login) == Tally::zero(),
    decreases cs.len(),
{
    if cs.len() > 0 {
        let front = cs.drop_last();
        let r = roster(front);
        if r.contains(cs.last().login) {
            lemma_total_outside_roster(front, login);
        } else {
            assert(roster(cs)[r.len() as int] == cs.last().login);
            assert forall|i: int| 0 <= i < r.len() implies r[i] != login by {
                assert(roster(cs)[i] == r[i]);
            }
            lemma_total_outside_roster(front, login);
        }
    }
}

/// The lines of an aggregate are those of its roster: no login has two.
pub proof fn lemma_tallied_distinct(cs: Seq<Credit>)
    ensures
        distinct_logins(tallied(cs)),
{
    lemma_roster_distinct(cs);
}

/// Taking one more credit into the aggregate of `cs` gives the aggregate of
/// `cs` with that credit at its end.
pub proof fn lemma_tallied_push(cs: Seq<Credit>, c: Credit)
    ensures
        tallied(cs.push(c)) == credited(tallied(cs), c),
{
    let cs2 = cs.push(c);
    assert(cs2.drop_last() == cs);
    assert(cs2.last() == c);
    let r = roster(cs);
    let lines = tallied(cs);
    lemma_roster_distinct(cs);
    if r.contains(c.login) {
        let k = choose|k: int| 0 <= k < r.len() && r[k] == c.login;
        assert(lines[k].login == c.login);
        let i = line_of(lines, c.login);
        assert(r[i] == c.login);
        assert(tallied(cs2) =~= credited(lines, c));
    } else {
        assert(!has_line(lines, c.login)) by {
            if has_line(lines, c.login) {
                let i = line_of(lines, c.login);
                assert(r[i] == c.login);
            }
        }
        lemma_total_outside_roster(cs, c.login);
        assert forall|j: int| 0 <= j < r.len() implies r[j] != c.login by {
        }
        assert(tallied(cs2) =~= credited(lines, c));
    }
}

/// Crediting keeps the logins apart.
pub proof fn lemma_credited_distinct(lines: Seq<Line>, c: Credit)
    requires
        distinct_logins(lines),
    ensures
        distinct_logins(credited(lines, c)),
{
    if has_line(lines, c.login) {
    } else {
        assert forall|i: int| 0 <= i < lines.len() implies (#[trigger] lines[i]).login != c.login by {
        }
    }
}

/// Crediting never takes a line away nor lowers a counter.
pub proof fn lemma_credited_grows(lines: Seq<Line>, c: Credit)
    ensures
        lines.len() <= credited(lines, c).len(),
        forall|i: int|
            0 <= i < lines.len() ==> (#[trigger] credited(lines, c)[i]).login == lines[i].login
                && lines[i].tally.le(credited(lines, c)[i].tally),
{
}

/// Taking credits in never takes a line away nor lowers a counter.
pub proof fn lemma_absorbed_grows(lines: Seq<Line>, cs: Seq<Credit>)
    ensures
        lines.len() <= absorbed(lines, cs).len(),
        forall|i: int|
            0 <= i < lines.len() ==> (#[trigger] absorbed(lines, cs)[i]).login == lines[i].login
                && lines[i].tally.le(absorbed(lines, cs)[i].tally),
        !lines_fit(lines) ==> !lines_fit(absorbed(lines, cs)),
        distinct_logins(lines) ==> distinct_logins(absorbed(lines, cs)),
    decreases cs.len(),
{
    if cs.len() > 0 {
        let mid = absorbed(lines, cs.drop_last());
        lemma_absorbed_grows(lines, cs.drop_last());
        lemma_credited_grows(mid, cs.last());
        if distinct_logins(lines) {
            lemma_credited_distinct(mid, cs.last());
        }
    }
    let out = absorbed(lines, cs);
    if !lines_fit(lines) {
        let i = choose|i: int| 0 <= i < lines.len() && !(#[trigger] lines[i]).tally.fits();
        assert(lines[i].tally.le(out[i].tally));
        assert(!out[i].tally.fits());
    }
}

/// Taking in two lists of credits one after the other is taking in their concatenation.
pub proof fn lemma_absorbed_concat(lines: Seq<Line>, a: Seq<Credit>, b: Seq<Credit>)
    ensures
        absorbed(lines, a + b) == absorbed(absorbed(lines, a), b),
    decreases b.len(),
{
    if b.len() == 0 {
        assert(a + b == a);
    } else {
        assert((a + b).drop_last() == a + b.drop_last());
        assert((a + b).last() == b.last());
        lemma_absorbed_concat(lines, a, b.drop_last());
    }
}

/// Taking the credits `b` into the aggregate of `a` gives the aggregate of `a`
/// followed by `b`.
pub proof fn lemma_absorbed_tallied(a: Seq<Credit>, b: Seq<Credit>)
    ensures
        absorbed(tallied(a), b) == tallied(a + b),
    decreases b.len(),
{
    if b.len() == 0 {
        assert(a + b == a);
    } else {
        lemma_absorbed_tallied(a, b.drop_last());
        lemma_tallied_push(a + b.drop_last(), b.last());
        assert((a + b.drop_last()).push(b.last()) == a + b);
    }
}

/// The credits of two lists of pull requests, one after the other, are the
/// credits of their concatenation.
pub proof fn lemma_credits_concat(a: Seq<PullRequestRecord>, b: Seq<PullRequestRecord>)
    ensures
        credits(a + b) == credits(a) + credits(b),
    decreases b.len(),
{
    if b.len() == 0 {
        assert(a + b == a);
        assert(credits(a) + credits(b) == credits(a));
    } else {
        assert((a + b).drop_last() == a + b.drop_last());
        assert((a + b).last() == b.last());
        lemma_credits_concat(a, b.drop_last());
        assert((credits(a) + credits(b.drop_last())) + credits_of(b.last()) == credits(a) + (credits(
            b.drop_last(),
        ) + credits_of(b.last())));
    }
}

/// A counter that the credits `a` have taken out of range stays out of range
/// whatever follows.
pub proof fn lemma_overflow_is_final(lines: Seq<Line>, a: Seq<Credit>, b: Seq<Credit>)
    requires
        !lines_fit(absorbed(lines, a)),
    ensures
        !lines_fit(absorbed(lines, a + b)),
{
    lemma_absorbed_concat(lines, a, b);
    lemma_absorbed_grows(absorbed(lines, a), b);
}

/// Raising one line by `delta` raises the sum by `delta`.
proof fn lemma_summed_update(lines: Seq<Line>, i: int, delta: Tally)
    requires
        0 <= i < lines.len(),
    ensures
        summed(lines.update(i, Line { login: lines[i].login, tally: lines[i].tally.plus(delta) }))
            == summed(lines).plus(delta),
    decreases lines.len(),
{
    let raised = lines.update(i, Line { login: lines[i].login, tally: lines[i].tally.plus(delta) });
    if i == lines.len() - 1 {
        assert(raised.drop_last() == lines.drop_last());
    } else {
        lemma_summed_update(lines.drop_last(), i, delta);
        assert(raised.drop_last() == lines.drop_last().update(
            i,
            Line { login: lines[i].login, tally: lines[i].tally.plus(delta) },
        ));
    }
}

/// A credit raises the sum of all lines by what it counts.
pub proof fn lemma_summed_credited(lines: Seq<Line>, c: Credit)
    ensures
        summed(credited(lines, c)) == summed(lines).plus(c.delta),
{
    if has_line(lines, c.login) {
        lemma_summed_update(lines, line_of(lines, c.login), c.delta);
    } else {
        assert(lines.push(Line { login: c.login, tally: c.delta }).drop_last() == lines);
    }
}

/// Nothing is lost and nothing is counted twice: the lines of an aggregate
/// sum up to the sum of the credits that it was made of.
pub proof fn lemma_summed_tallied(cs: Seq<Credit>)
    ensures
        summed(tallied(cs)) == credit_sum(cs),
    decreases cs.len(),
{
    if cs.len() == 0 {
        assert(tallied(cs) =~= Seq::<Line>::empty());
    } else {
        lemma_summed_tallied(cs.drop_last());
        lemma_tallied_push(cs.drop_last(), cs.last());
        assert(cs.drop_last().push(cs.last()) == cs);
        lemma_summed_credited(tallied(cs.drop_last()), cs.last());
    }
}

/// The sum of two lists of credits, one after the other.
pub proof fn lemma_credit_sum_concat(a: Seq<Credit>, b: Seq<Credit>)
    ensures
        credit_sum(a + b) == credit_sum(a).plus(credit_sum(b)),
    decreases b.len(),
{
    if b.len() == 0 {
        assert(a + b == a);
    } else {
        assert((a + b).drop_last() == a + b.drop_last());
        assert((a + b).last() == b.last());
        lemma_credit_sum_concat(a, b.drop_last());
    }
}

/// What one login is credited with in two lists of credits, one after the other.
pub proof fn lemma_total_concat(a: Seq<Credit>, b: Seq<Credit>, login: Seq<char>)
    ensures
        total_for(a + b, login) == total_for(a, login).plus(total_for(b, login)),
    decreases b.len(),
{
    if b.len() == 0 {
        assert(a + b == a);
    } else {
        assert((a + b).drop_last() == a + b.drop_last());
        assert((a + b).last() == b.last());
        lemma_total_concat(a, b.drop_last(), login);
    }
}

/// A single credit sums up to itself, and counts for its login only.
proof fn lemma_single_credit(c: Credit, login: Seq<char>)
    ensures
        credit_sum(seq![c]) == c.delta,
        total_for(seq![c], login) == if c.login == login {
            c.delta
        } else {
            Tally::zero()
        },
{
    let one = seq![c];
    assert(one.drop_last() =~= Seq::<Credit>::empty());
    assert(one.last() == c);
    assert(credit_sum(one.drop_last()) == Tally::zero());
    assert(total_for(one.drop_last(), login) == Tally::zero());
}

/// Reviews count approvals, comments and requested changes, at most one for
/// each review, and no pull request, line or file.
proof fn lemma_review_sum(reviews: Seq<ReviewRecord>)
    ensures
        credit_sum(review_credits(reviews)).pull_requests == 0,
        credit_sum(review_credits(reviews)).additions == 0,
        credit_sum(review_credits(reviews)).deletions == 0,
        credit_sum(review_credits(reviews)).changed_files == 0,
    decreases reviews.len(),
{
    if reviews.len() > 0 {
        lemma_review_sum(reviews.drop_last());
        assert(review_credits(reviews).drop_last() == review_credits(reviews.drop_last()));
    }
}

/// Comments count comments, one for each, and nothing else.
proof fn lemma_comment_sum(comments: Seq<CommentRecord>)
    ensures
        credit_sum(comment_credits(comments)) == (Tally {
            comments: comments.len(),
            ..Tally::zero()
        }),
    decreases comments.len(),
{
    if comments.len() > 0 {
        lemma_comment_sum(comments.drop_last());
        assert(comment_credits(comments).drop_last() == comment_credits(comments.drop_last()));
    }
}

/// The credits of a list of pull requests count every pull request once and
/// every added or removed line once.
pub proof fn lemma_credit_sum_of_pull_requests(prs: Seq<PullRequestRecord>)
    ensures
        credit_sum(credits(prs)).pull_requests == prs.len(),
        credit_sum(credits(prs)).lines() == volume(prs),
    decreases prs.len(),
{
    if prs.len() > 0 {
        let pr = prs.last();
        lemma_credit_sum_of_pull_requests(prs.drop_last());
        lemma_credit_sum_concat(credits(prs.drop_last()), credits_of(pr));
        let first = seq![Credit { login: pr.author.login_view(), delta: authorship(pr) }];
        lemma_credit_sum_concat(first + review_credits(pr.reviews@), comment_credits(pr.comments@));
        lemma_credit_sum_concat(first, review_credits(pr.reviews@));
        lemma_review_sum(pr.reviews@);
        lemma_comment_sum(pr.comments@);
        lemma_single_credit(first[0], pr.author.login_view());
    }
}

/// Over all contributors of the aggregate of `prs`, the pull requests sum
/// up to the number of `prs`, and the added and removed lines to the lines
/// that `prs` add and remove.
pub proof fn lemma_aggregate_conserves(prs: Seq<PullRequestRecord>)
    ensures
        summed(tallied(credits(prs))).pull_requests == prs.len(),
        summed(tallied(credits(prs))).lines() == volume(prs),
{
    lemma_summed_tallied(credits(prs));
    lemma_credit_sum_of_pull_requests(prs);
}

/// A login that writes pull requests and also reviews or comments is credited
/// with all of it together.
pub proof fn lemma_roles_add_up(prs: Seq<PullRequestRecord>, login: Seq<char>)
    ensures
        total_for(credits(prs), login) == authored(prs, login).plus(responded(prs, login)),
    decreases prs.len(),
{
    if prs.len() > 0 {
        let pr = prs.last();
        lemma_roles_add_up(prs.drop_last(), login);
        lemma_total_concat(credits(prs.drop_last()), credits_of(pr), login);
        let first = seq![Credit { login: pr.author.login_view(), delta: authorship(pr) }];
        lemma_total_concat(first + review_credits(pr.reviews@), comment_credits(pr.comments@), login);
        lemma_total_concat(first, review_credits(pr.reviews@), login);
        lemma_single_credit(first[0], login);
    }
}

/// A login that occurs among `prs` in any role has one line in their
/// aggregate, and no more; the line holds what the login wrote together with
/// what it reviewed and commented.
pub proof fn lemma_one_line_for_all_roles(prs: Seq<PullRequestRecord>, login: Seq<char>)
    requires
        roster(credits(prs)).contains(login),
    ensures
        has_line(tallied(credits(prs)), login),
        forall|i: int|
            0 <= i < tallied(credits(prs)).len() && (#[trigger] tallied(credits(prs))[i]).login
                == login ==> i == line_of(tallied(credits(prs)), login),
        tallied(credits(prs))[line_of(tallied(credits(prs)), login)].tally == authored(
            prs,
            login,
        ).plus(responded(prs, login)),
{
    let cs = credits(prs);
    let lines = tallied(cs);
    lemma_roster_distinct(cs);
    lemma_roles_add_up(prs, login);
    let k = choose|k: int| 0 <= k < roster(cs).len() && roster(cs)[k] == login;
    assert(lines[k].login == login);
    let at = line_of(lines, login);
    assert(roster(cs)[at] == login);
    assert forall|i: int| 0 <= i < lines.len() && (#[trigger] lines[i]).login == login implies i
        == at by {
        assert(roster(cs)[i] == login);
    }
}

/// A login has a line in the aggregate of `cs` exactly if it has a credit in `cs`.
pub proof fn lemma_roster_contains(cs: Seq<Credit>, login: Seq<char>)
    ensures
        roster(cs).contains(login) <==> exists|k: int|
            0 <= k < cs.len() && (#[trigger] cs[k]).login == login,
{
    lemma_roster_members(cs);
    if roster(cs).contains(login) {
        let i = choose|i: int| 0 <= i < roster(cs).len() && roster(cs)[i] == login;
        let k = choose|k: int| 0 <= k < cs.len() && (#[trigger] cs[k]).login == roster(cs)[i];
        assert(cs[k].login == login);
    }
}

/// The order in which the repositories come back does not change what
/// anybody is credited with, nor who has a line.
pub proof fn lemma_order_of_results_is_irrelevant(
    a: Seq<PullRequestRecord>,
    b: Seq<PullRequestRecord>,
    login: Seq<char>,
)
    ensures
        total_for(credits(a + b), login) == total_for(credits(b + a), login),
        roster(credits(a + b)).contains(login) <==> roster(credits(b + a)).contains(login),
        summed(tallied(credits(a + b))) == summed(tallied(credits(b + a))),
{
    let ca = credits(a);
    let cb = credits(b);
    lemma_credits_concat(a, b);
    lemma_credits_concat(b, a);
    lemma_total_concat(ca, cb, login);
    lemma_total_concat(cb, ca, login);
    lemma_summed_tallied(ca + cb);
    lemma_summed_tallied(cb + ca);
    lemma_credit_sum_concat(ca, cb);
    lemma_credit_sum_concat(cb, ca);
    lemma_roster_contains(ca + cb, login);
    lemma_roster_contains(cb + ca, login);
    if exists|k: int| 0 <= k < (ca + cb).len() && (#[trigger] (ca + cb)[k]).login == login {
        let k = choose|k: int| 0 <= k < (ca + cb).len() && (#[trigger] (ca + cb)[k]).login == login;
        if k < ca.len() {
            assert((cb + ca)[cb.len() + k].login == login);
        } else {
            assert((cb + ca)[k - ca.len()].login == login);
        }
    }
    if exists|k: int| 0 <= k < (cb + ca).len() && (#[trigger] (cb + ca)[k]).login == login {
        let k = choose|k: int| 0 <= k < (cb + ca).len() && (#[trigger] (cb + ca)[k]).login == login;
        if k < cb.len() {
            assert((ca + cb)[ca.len() + k].login == login);
        } else {
            assert((ca + cb)[k - cb.len()].login == login);
        }
    }
}

} // verus!
