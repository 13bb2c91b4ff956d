use vstd::prelude::*;
use crate::error::EngineError;
use crate::page::{texts, Page, PagerState, Paginator};

verus! {

/// The names of `names`, each once, in the order of their first occurrence.
pub open spec fn unique(names: Seq<Seq<char>>) -> Seq<Seq<char>>
    decreases names.len(),
{
    if names.len() == 0 {
        Seq::empty()
    } else if unique(names.drop_last()).contains(names.last()) {
        unique(names.drop_last())
    } else {
        unique(names.drop_last()).push(names.last())
    }
}

/// Whether `name` is among `names`.
pub fn contains_name(names: &Vec<String>, name: &String) -> (found: bool)
    ensures
        found == texts(names@).contains(name@),
{
    let mut i: usize = 0;
    while i < names.len()
        invariant
            i <= names@.len(),
            forall|j: int| 0 <= j < i ==> texts(names@)[j] != name@,
        decreases names@.len() - i,
    {
        if names[i] == *name {
            assert(texts(names@)[i as int] == name@);
            return true;
        }
        i += 1;
    }
    false
}

/// Drops every name that has occurred before and keeps the others in their order.
pub fn dedup(names: &Vec<String>) -> (kept: Vec<String>)
    ensures
        texts(kept@) == unique(texts(names@)),
{
    let ghost all = texts(names@);
    let mut kept: Vec<String> = Vec::new();
    let mut k: usize = 0;
    assert(texts(kept@) =~= unique(all.take(0)));
    while k < names.len()
        invariant
            k <= names@.len(),
            all == texts(names@),
            texts(kept@) == unique(all.take(k as int)),
        decreases names@.len() - k,
    {
        proof {
            assert(all.take(k + 1).drop_last() == all.take(k as int));
            assert(all.take(k + 1).last() == names@[k as int]@);
        }
        let ghost front = texts(kept@);
        if !contains_name(&kept, &names[k]) {
            kept.push(names[k].clone());
            assert(texts(kept@) =~= front.push(names@[k as int]@));
        }
        k += 1;
    }
    assert(all.take(names@.len() as int) == all);
    kept
}

/// The walk through the repositories of an organization. A first page that
/// cannot be had is fatal; a later one ends the listing with what has arrived.
pub struct RepoEnumerator {
    pub pager: Paginator<String>,
}

impl RepoEnumerator {
    /// A walk that has not asked for anything yet.
    pub fn new() -> (e: RepoEnumerator)
        ensures
            e.pager@ == PagerState::<String>::start(),
    {
        RepoEnumerator { pager: Paginator::new() }
    }

    /// The cursor to ask the next page with, or `None` when the walk is over.
    pub fn next_request(&self) -> (cursor: Option<String>)
        ensures
            cursor is None <==> self.pager@.done,
            cursor matches Some(c) ==> c@ == self.pager@.cursor,
    {
        self.pager.next_request()
    }

    /// Takes in the answer to the last request. A page is put behind those
    /// already here. A failure ends the walk and keeps them; it is handed
    /// back as the error of the whole listing where no page had been answered
    /// before it.
    pub fn accept(&mut self, outcome: Result<Page<String>, EngineError>) -> (r: Result<
        (),
        EngineError,
    >)
        ensures
            final(self).pager@ == match outcome {
                Ok(page) => old(self).pager@.accept(page, false),
                Err(_) => old(self).pager@.fail(),
            },
            r == match outcome {
                Ok(_) => Ok::<(), EngineError>(()),
                Err(e) => if old(self).pager@.started {
                    Ok::<(), EngineError>(())
                } else {
                    Err::<(), EngineError>(e)
                },
            },
            outcome is Err ==> final(self).pager@.items == old(self).pager@.items,
            outcome is Err ==> final(self).pager@.done,
    {
        match outcome {
            Ok(page) => {
                self.pager.accept(page, false);
                Ok(())
            },
            Err(e) => {
                let first = !self.pager.started;
                self.pager.fail();
                if first {
                    Err(e)
                } else {
                    Ok(())
                }
            },
        }
    }

    /// Ends the walk and hands out the names that have arrived, each once.
    pub fn finish(self) -> (names: Vec<String>)
        ensures
            texts(names@) == unique(texts(self.pager@.items)),
    {
        let items = self.pager.into_items();
        dedup(&items)
    }
}

} // verus!
