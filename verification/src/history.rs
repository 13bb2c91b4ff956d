use vstd::prelude::*;
use crate::error::EngineError;
use crate::page::{reversed, Page, PagerState, Paginator};
use crate::record::PullRequestRecord;
use crate::time::{utc_day, Date};

verus! {

/// The UTC calendar day on which `pr` was merged, in days since January 1, 1970.
pub open spec fn merge_day(pr: PullRequestRecord) -> int {
    utc_day(pr.merged_at@)
}

/// Whether `pr` was merged strictly after the cutoff date. Without a cutoff
/// every pull request is.
pub open spec fn in_window(pr: PullRequestRecord, cutoff: Option<Date>) -> bool {
    match cutoff {
        Some(date) => merge_day(pr) > date@,
        None => true,
    }
}

/// Whether a page with these items ends the walk early: its last item was
/// merged on or before the cutoff date.
pub open spec fn reached_cutoff(items: Seq<PullRequestRecord>, cutoff: Option<Date>) -> bool {
    items.len() > 0 && !in_window(items.last(), cutoff)
}

/// The items that were merged strictly after the cutoff date, in their order.
pub open spec fn trimmed(items: Seq<PullRequestRecord>, cutoff: Option<Date>) -> Seq<
    PullRequestRecord,
>
    decreases items.len(),
{
    if items.len() == 0 {
        Seq::empty()
    } else if in_window(items.last(), cutoff) {
        trimmed(items.drop_last(), cutoff).push(items.last())
    } else {
        trimmed(items.drop_last(), cutoff)
    }
}

/// Whether `pr` was merged strictly after the cutoff date.
pub fn is_in_window(pr: &PullRequestRecord, cutoff: &Option<Date>) -> (inside: bool)
    ensures
        inside == in_window(*pr, *cutoff),
{
    match cutoff {
        Some(date) => pr.merged_at.date().is_after(date),
        None => true,
    }
}

/// Whether a page with these items ends the walk early.
pub fn has_reached_cutoff(items: &Vec<PullRequestRecord>, cutoff: &Option<Date>) -> (reached: bool)
    ensures
        reached == reached_cutoff(items@, *cutoff),
{
    let n = items.len();
    if n == 0 {
        false
    } else {
        !is_in_window(&items[n - 1], cutoff)
    }
}

/// Drops every item that was merged on or before the cutoff date and keeps
/// the others in their order.
pub fn trim(items: Vec<PullRequestRecord>, cutoff: &Option<Date>) -> (kept: Vec<PullRequestRecord>)
    ensures
        kept@ == trimmed(items@, *cutoff),
        forall|i: int| 0 <= i < kept@.len() ==> in_window(#[trigger] kept@[i], *cutoff),
{
    let ghost all = items@;
    proof {
        lemma_trimmed_inside(all, *cutoff);
    }
    let n = items.len();
    let mut reversed = reversed(items);
    let mut kept: Vec<PullRequestRecord> = Vec::new();
    let mut k: usize = 0;
    assert(all.take(0) == Seq::<PullRequestRecord>::empty());
    while reversed.len() > 0
        invariant
            n == all.len(),
            k + reversed@.len() == n,
            forall|i: int| 0 <= i < reversed@.len() ==> reversed@[i] == all[n - 1 - i],
            kept@ == trimmed(all.take(k as int), *cutoff),
        decreases reversed@.len(),
    {
        proof {
            assert(all.take(k + 1).drop_last() == all.take(k as int));
            assert(all.take(k + 1).last() == all[k as int]);
        }
        match reversed.pop() {
            Some(pr) => {
                if is_in_window(&pr, cutoff) {
                    kept.push(pr);
                }
            },
            None => {},
        }
        k += 1;
    }
    assert(all.take(n as int) == all);
    kept
}

impl Page<PullRequestRecord> {
    /// Whether another page should be asked for: more items follow, and the
    /// last item of this page was merged strictly after the cutoff date.
    pub fn continues(&self, cutoff: &Option<Date>) -> (go_on: bool)
        ensures
            go_on == (self.has_next_page && !reached_cutoff(self.items@, *cutoff)),
    {
        !has_reached_cutoff(&self.items, cutoff) && self.has_next_page
    }

    /// Drops every item that was merged on or before the cutoff date.
    pub fn trim(&mut self, cutoff: &Option<Date>)
        ensures
            final(self).items@ == trimmed(old(self).items@, *cutoff),
            final(self).end_cursor == old(self).end_cursor,
            final(self).has_next_page == old(self).has_next_page,
    {
        let mut items: Vec<PullRequestRecord> = Vec::new();
        std::mem::swap(&mut self.items, &mut items);
        self.items = trim(items, cutoff);
    }
}

/// What a fetch hands back where it failed: nothing more is known of the
/// listing, so the page is empty and nothing follows it.
pub fn page_or_empty(outcome: Result<Page<PullRequestRecord>, EngineError>) -> (page: Page<
    PullRequestRecord,
>)
    ensures
        outcome matches Ok(p) ==> page == p,
        outcome is Err ==> page.items@ == Seq::<PullRequestRecord>::empty() && page.end_cursor@
            == Seq::<char>::empty() && !page.has_next_page,
{
    match outcome {
        Ok(page) => page,
        Err(_) => Page::empty(),
    }
}

/// The state of a walk after the answers `answers` have come in one after
/// the other, under the cutoff date `cutoff`.
pub open spec fn answered(
    state: PagerState<PullRequestRecord>,
    answers: Seq<Result<Page<PullRequestRecord>, EngineError>>,
    cutoff: Option<Date>,
) -> PagerState<PullRequestRecord>
    decreases answers.len(),
{
    if answers.len() == 0 {
        state
    } else {
        let before = answered(state, answers.drop_last(), cutoff);
        match answers.last() {
            Ok(page) => before.accept(page, reached_cutoff(page.items@, cutoff)),
            Err(_) => before.fail(),
        }
    }
}

/// The walk through the merged pull requests of one repository, newest
/// first. It stops asking once a page ends on or before the cutoff date, and
/// hands out only what was merged strictly after it.
pub struct HistoryFetcher {
    pub pager: Paginator<PullRequestRecord>,
    pub cutoff: Option<Date>,
}

impl HistoryFetcher {
    /// A walk that has not asked for anything yet.
    pub fn new(cutoff: Option<Date>) -> (f: HistoryFetcher)
        ensures
            f.pager@ == PagerState::<PullRequestRecord>::start(),
            f.cutoff == cutoff,
    {
        HistoryFetcher { pager: Paginator::new(), cutoff }
    }

    /// The cursor to ask the next page with, or `None` when the walk is over.
    pub fn next_request(&self) -> (cursor: Option<String>)
        ensures
            cursor is None <==> self.pager@.done,
            cursor matches Some(c) ==> c@ == self.pager@.cursor,
    {
        self.pager.next_request()
    }

    /// Takes in the answer to the last request. A page is put behind those
    /// already here; a failure ends the walk and keeps them.
    pub fn accept(&mut self, outcome: Result<Page<PullRequestRecord>, EngineError>)
        ensures
            final(self).cutoff == old(self).cutoff,
            final(self).pager@ == match outcome {
                Ok(page) => old(self).pager@.accept(
                    page,
                    reached_cutoff(page.items@, old(self).cutoff),
                ),
                Err(_) => old(self).pager@.fail(),
            },
            outcome is Err ==> final(self).pager@.items == old(self).pager@.items,
            outcome is Err ==> final(self).pager@.done,
    {
        match outcome {
            Ok(page) => {
                let stop = has_reached_cutoff(&page.items, &self.cutoff);
                self.pager.accept(page, stop);
            },
            Err(_) => {
                self.pager.fail();
            },
        }
    }

    /// Takes in the answers of `answers` one after the other. Answers behind
    /// the end of the walk are left out.
    pub fn feed(&mut self, answers: Vec<Result<Page<PullRequestRecord>, EngineError>>)
        ensures
            final(self).cutoff == old(self).cutoff,
            final(self).pager@ == answered(old(self).pager@, answers@, old(self).cutoff),
    {
        let ghost all = answers@;
        let n = answers.len();
        let mut waiting = reversed(answers);
        let mut k: usize = 0;
        assert(all.take(0) =~= Seq::<Result<Page<PullRequestRecord>, EngineError>>::empty());
        while waiting.len() > 0
            invariant
                n == all.len(),
                k + waiting@.len() == n,
                forall|i: int| 0 <= i < waiting@.len() ==> waiting@[i] == all[all.len() - 1 - i],
                self.cutoff == old(self).cutoff,
                self.pager@ == answered(old(self).pager@, all.take(k as int), old(self).cutoff),
            decreases waiting@.len(),
        {
            proof {
                assert(all.take(k + 1).drop_last() == all.take(k as int));
                assert(all.take(k + 1).last() == all[k as int]);
            }
            match waiting.pop() {
                Some(answer) => {
                    self.accept(answer);
                },
                None => {},
            }
            k += 1;
        }
        assert(all.take(k as int) == all);
    }

    /// Ends the walk and hands out the pull requests that were merged
    /// strictly after the cutoff date, in the order of their arrival.
    pub fn finish(self) -> (kept: Vec<PullRequestRecord>)
        ensures
            kept@ == trimmed(self.pager@.items, self.cutoff),
            forall|i: int| 0 <= i < kept@.len() ==> in_window(#[trigger] kept@[i], self.cutoff),
    {
        let cutoff = self.cutoff;
        trim(self.pager.into_items(), &cutoff)
    }
}

/// Trimming keeps only what was merged strictly after the cutoff date.
pub proof fn lemma_trimmed_inside(items: Seq<PullRequestRecord>, cutoff: Option<Date>)
    ensures
        forall|i: int|
            0 <= i < trimmed(items, cutoff).len() ==> in_window(
                #[trigger] trimmed(items, cutoff)[i],
                cutoff,
            ),
    decreases items.len(),
{
    if items.len() > 0 {
        let front = trimmed(items.drop_last(), cutoff);
        let kept = trimmed(items, cutoff);
        lemma_trimmed_inside(items.drop_last(), cutoff);
        assert forall|i: int| 0 <= i < kept.len() implies in_window(#[trigger] kept[i], cutoff) by {
            if i < front.len() {
                assert(kept[i] == front[i]);
            }
        }
    }
}

/// Trimming changes nothing where every item was merged strictly after the
/// cutoff date.
pub proof fn lemma_trimmed_keeps(items: Seq<PullRequestRecord>, cutoff: Option<Date>)
    requires
        forall|i: int| 0 <= i < items.len() ==> in_window(#[trigger] items[i], cutoff),
    ensures
        trimmed(items, cutoff) == items,
    decreases items.len(),
{
    if items.len() > 0 {
        let front = items.drop_last();
        assert forall|i: int| 0 <= i < front.len() implies in_window(#[trigger] front[i], cutoff) by {
            assert(front[i] == items[i]);
        }
        lemma_trimmed_keeps(front, cutoff);
        assert(in_window(items[items.len() - 1], cutoff));
        assert(front.push(items.last()) == items);
    }
}

/// Trimming a second time with the same cutoff date changes nothing.
pub proof fn lemma_trim_idempotent(items: Seq<PullRequestRecord>, cutoff: Option<Date>)
    ensures
        trimmed(trimmed(items, cutoff), cutoff) == trimmed(items, cutoff),
{
    lemma_trimmed_inside(items, cutoff);
    lemma_trimmed_keeps(trimmed(items, cutoff), cutoff);
}

/// Trimming keeps the order: trimming two lists, one after the other, is
/// trimming their concatenation.
pub proof fn lemma_trimmed_concat(
    a: Seq<PullRequestRecord>,
    b: Seq<PullRequestRecord>,
    cutoff: Option<Date>,
)
    ensures
        trimmed(a + b, cutoff) == trimmed(a, cutoff) + trimmed(b, cutoff),
    decreases b.len(),
{
    if b.len() == 0 {
        assert(a + b == a);
        assert(trimmed(a, cutoff) + trimmed(b, cutoff) == trimmed(a, cutoff));
    } else {
        assert((a + b).drop_last() == a + b.drop_last());
        assert((a + b).last() == b.last());
        lemma_trimmed_concat(a, b.drop_last(), cutoff);
        if in_window(b.last(), cutoff) {
            assert((trimmed(a, cutoff) + trimmed(b.drop_last(), cutoff)).push(b.last())
                == trimmed(a, cutoff) + trimmed(b.drop_last(), cutoff).push(b.last()));
        }
    }
}

/// An answer that comes in after the end of a walk changes nothing.
pub proof fn lemma_answers_behind_the_end(
    state: PagerState<PullRequestRecord>,
    answers: Seq<Result<Page<PullRequestRecord>, EngineError>>,
    cutoff: Option<Date>,
)
    requires
        state.done,
    ensures
        answered(state, answers, cutoff) == state,
    decreases answers.len(),
{
    if answers.len() > 0 {
        lemma_answers_behind_the_end(state, answers.drop_last(), cutoff);
    }
}

/// Taking in two runs of answers one after the other is taking in their
/// concatenation.
pub proof fn lemma_answered_concat(
    state: PagerState<PullRequestRecord>,
    a: Seq<Result<Page<PullRequestRecord>, EngineError>>,
    b: Seq<Result<Page<PullRequestRecord>, EngineError>>,
    cutoff: Option<Date>,
)
    ensures
        answered(state, a + b, cutoff) == answered(answered(state, a, cutoff), b, cutoff),
    decreases b.len(),
{
    if b.len() == 0 {
        assert(a + b == a);
    } else {
        assert((a + b).drop_last() == a + b.drop_last());
        assert((a + b).last() == b.last());
        lemma_answered_concat(state, a, b.drop_last(), cutoff);
    }
}

/// The walk ends with the first page whose last item was merged on or
/// before the cutoff date; what the remote side would have answered behind it
/// does not matter.
pub proof fn lemma_walk_stops_at_cutoff(
    state: PagerState<PullRequestRecord>,
    page: Page<PullRequestRecord>,
    behind: Seq<Result<Page<PullRequestRecord>, EngineError>>,
    cutoff: Option<Date>,
)
    requires
        !state.done,
        reached_cutoff(page.items@, cutoff),
    ensures
        answered(
            state,
            seq![Ok::<Page<PullRequestRecord>, EngineError>(page)] + behind,
            cutoff,
        ).items == state.items + page.items@,
        answered(
            state,
            seq![Ok::<Page<PullRequestRecord>, EngineError>(page)] + behind,
            cutoff,
        ).done,
{
    let first = seq![Ok::<Page<PullRequestRecord>, EngineError>(page)];
    assert(first.drop_last() =~= Seq::<Result<Page<PullRequestRecord>, EngineError>>::empty());
    assert(first.last() == Ok::<Page<PullRequestRecord>, EngineError>(page));
    assert(answered(state, first.drop_last(), cutoff) == state);
    lemma_answered_concat(state, first, behind, cutoff);
    lemma_answers_behind_the_end(answered(state, first, cutoff), behind, cutoff);
}

/// A failed request in the middle of a walk ends it with all that the pages
/// before it have brought.
pub proof fn lemma_failure_keeps_earlier_pages(
    state: PagerState<PullRequestRecord>,
    failure: EngineError,
    behind: Seq<Result<Page<PullRequestRecord>, EngineError>>,
    cutoff: Option<Date>,
)
    ensures
        answered(
            state,
            seq![Err::<Page<PullRequestRecord>, EngineError>(failure)] + behind,
            cutoff,
        ).items == state.items,
        answered(
            state,
            seq![Err::<Page<PullRequestRecord>, EngineError>(failure)] + behind,
            cutoff,
        ).done,
{
    let first = seq![Err::<Page<PullRequestRecord>, EngineError>(failure)];
    assert(first.drop_last() =~= Seq::<Result<Page<PullRequestRecord>, EngineError>>::empty());
    assert(first.last() == Err::<Page<PullRequestRecord>, EngineError>(failure));
    assert(answered(state, first.drop_last(), cutoff) == state);
    assert(state.items + Seq::<PullRequestRecord>::empty() == state.items);
    lemma_answered_concat(state, first, behind, cutoff);
    lemma_answers_behind_the_end(answered(state, first, cutoff), behind, cutoff);
}

} // verus!
