use vstd::prelude::*;

verus! {

/// How many items one request asks for.
pub const PAGE_SIZE: u32 = 100;

/// The texts of a list of strings.
pub open spec fn texts(names: Seq<String>) -> Seq<Seq<char>> {
    Seq::new(names.len(), |i: int| names[i]@)
}

/// The items of `items` from the last to the first.
pub fn reversed<T>(items: Vec<T>) -> (turned: Vec<T>)
    ensures
        turned@ == items@.reverse(),
{
    let ghost all = items@;
    let mut rest = items;
    let mut turned: Vec<T> = Vec::new();
    while rest.len() > 0
        invariant
            rest@.len() + turned@.len() == all.len(),
            rest@ == all.take(rest@.len() as int),
            forall|i: int| 0 <= i < turned@.len() ==> turned@[i] == all[all.len() - 1 - i],
        decreases rest@.len(),
    {
        match rest.pop() {
            Some(item) => {
                turned.push(item);
            },
            None => {},
        }
    }
    assert(turned@ =~= all.reverse());
    turned
}

/// One page of a listing, as one remote call returns it: the items in their
/// order, the cursor behind the last of them, and whether more follow.
#[derive(Clone, Debug, PartialEq, Eq)]
pub struct Page<T> {
    pub items: Vec<T>,
    pub end_cursor: String,
    pub has_next_page: bool,
}

impl<T> Page<T> {
    /// A page without items, behind which nothing follows. It stands in for
    /// a page that could not be fetched or read.
    pub fn empty() -> (p: Page<T>)
        ensures
            p.items@ == Seq::<T>::empty(),
            p.end_cursor@ == Seq::<char>::empty(),
            !p.has_next_page,
    {
        Page { items: Vec::new(), end_cursor: String::new(), has_next_page: false }
    }

    /// Whether the remote side has more items behind this page.
    pub fn has_next_page(&self) -> (more: bool)
        ensures
            more == self.has_next_page,
    {
        self.has_next_page
    }

    /// The cursor with which the page behind this one is asked for.
    pub fn next_cursor(&self) -> (cursor: String)
        ensures
            cursor@ == self.end_cursor@,
    {
        self.end_cursor.clone()
    }

    /// Puts the page `other`, fetched behind this one, at its end: the items
    /// follow those already here, and cursor and flag are those of `other`.
    pub fn extend(&mut self, other: Page<T>)
        ensures
            final(self).items@ == old(self).items@ + other.items@,
            final(self).end_cursor == other.end_cursor,
            final(self).has_next_page == other.has_next_page,
    {
        let mut other = other;
        self.items.append(&mut other.items);
        self.end_cursor = other.end_cursor;
        self.has_next_page = other.has_next_page;
    }
}

/// The state of a walk through a listing.
pub struct PagerState<T> {
    /// The items of all pages taken in so far, in the order of their arrival.
    pub items: Seq<T>,
    /// The cursor of the next request; empty for the start of the listing.
    pub cursor: Seq<char>,
    /// The cursors of the requests that have been answered, in their order.
    pub consumed: Seq<Seq<char>>,
    /// Whether a first page has been answered, well or badly.
    pub started: bool,
    /// Whether the walk is over.
    pub done: bool,
}

impl<T> PagerState<T> {
    /// The state before the first request.
    pub open spec fn start() -> PagerState<T> {
        PagerState {
            items: Seq::empty(),
            cursor: Seq::empty(),
            consumed: Seq::empty(),
            started: false,
            done: false,
        }
    }

    /// The state after a page with the given parts has arrived. The walk is
    /// over when nothing follows the page or when `stop` holds. A page that
    /// arrives after the end changes nothing.
    pub open spec fn take_in(self, items: Seq<T>, cursor: Seq<char>, more: bool, stop: bool) -> PagerState<
        T,
    > {
        if self.done {
            self
        } else {
            PagerState {
                items: self.items + items,
                cursor,
                consumed: self.consumed.push(self.cursor),
                started: true,
                done: !more || stop,
            }
        }
    }

    /// The state after `page` has arrived.
    pub open spec fn accept(self, page: Page<T>, stop: bool) -> PagerState<T> {
        self.take_in(page.items@, page.end_cursor@, page.has_next_page, stop)
    }

    /// The state after a request has failed: as if an empty page had
    /// arrived behind which nothing follows.
    pub open spec fn fail(self) -> PagerState<T> {
        self.take_in(Seq::empty(), Seq::empty(), false, false)
    }
}

/// A walk through a cursor-paginated listing. It says which page to ask for
/// next, takes the answers in, and keeps the items in the order of arrival.
pub struct Paginator<T> {
    pub merged: Page<T>,
    pub consumed: Vec<String>,
    pub started: bool,
    pub stopped: bool,
}

impl<T> View for Paginator<T> {
    type V = PagerState<T>;

    open spec fn view(&self) -> PagerState<T> {
        PagerState {
            items: self.merged.items@,
            cursor: self.merged.end_cursor@,
            consumed: texts(self.consumed@),
            started: self.started,
            done: self.started && (!self.merged.has_next_page || self.stopped),
        }
    }
}

impl<T> Paginator<T> {
    /// A walk that has not asked for anything yet.
    pub fn new() -> (p: Paginator<T>)
        ensures
            p@ == PagerState::<T>::start(),
    {
        let p = Paginator {
            merged: Page::empty(),
            consumed: Vec::new(),
            started: false,
            stopped: false,
        };
        assert(texts(p.consumed@) =~= Seq::<Seq<char>>::empty());
        p
    }

    /// Whether the walk is over.
    pub fn is_done(&self) -> (done: bool)
        ensures
            done == self@.done,
    {
        self.started && (!self.merged.has_next_page || self.stopped)
    }

    /// The cursor to ask the next page with, or `None` when the walk is over.
    pub fn next_request(&self) -> (cursor: Option<String>)
        ensures
            cursor is None <==> self@.done,
            cursor matches Some(c) ==> c@ == self@.cursor,
    {
        if self.is_done() {
            None
        } else {
            Some(self.merged.next_cursor())
        }
    }

    /// Takes in the page that answered the last request. `stop` says whether
    /// the caller's early-stop condition holds of the page.
    pub fn accept(&mut self, page: Page<T>, stop: bool)
        ensures
            final(self)@ == old(self)@.accept(page, stop),
    {
        if !self.is_done() {
            let asked = self.merged.next_cursor();
            self.consumed.push(asked);
            self.merged.extend(page);
            self.started = true;
            self.stopped = stop;
            assert(texts(self.consumed@) =~= texts(old(self).consumed@).push(old(self)@.cursor));
        }
    }

    /// Records that the last request failed. What has arrived before stays;
    /// the walk is over.
    pub fn fail(&mut self)
        ensures
            final(self)@ == old(self)@.fail(),
            final(self)@.items == old(self)@.items,
            final(self)@.done,
    {
        if !self.is_done() {
            let asked = self.merged.next_cursor();
            self.consumed.push(asked);
            self.merged.extend(Page::empty());
            self.started = true;
            self.stopped = false;
            assert(self@.items =~= old(self)@.items);
            assert(texts(self.consumed@) =~= texts(old(self).consumed@).push(old(self)@.cursor));
        }
    }

    /// Takes in the pages of `pages` one after the other, as if each had
    /// answered a request of its own and none had stopped early. Pages behind
    /// the end of the walk are left out.
    pub fn feed(&mut self, pages: Vec<Page<T>>)
        ensures
            final(self)@ == fed(old(self)@, pages@),
    {
        let ghost all = pages@;
        let n = pages.len();
        let mut waiting = reversed(pages);
        let mut k: usize = 0;
        assert(all.take(0) =~= Seq::<Page<T>>::empty());
        while waiting.len() > 0
            invariant
                n == all.len(),
                k + waiting@.len() == n,
                forall|i: int| 0 <= i < waiting@.len() ==> waiting@[i] == all[all.len() - 1 - i],
                self@ == fed(old(self)@, all.take(k as int)),
            decreases waiting@.len(),
        {
            proof {
                assert(all.take(k + 1).drop_last() == all.take(k as int));
                assert(all.take(k + 1).last() == all[k as int]);
            }
            match waiting.pop() {
                Some(page) => {
                    self.accept(page, false);
                },
                None => {},
            }
            k += 1;
        }
        assert(all.take(k as int) == all);
    }

    /// Ends the walk and hands out what has arrived.
    pub fn into_items(self) -> (items: Vec<T>)
        ensures
            items@ == self@.items,
    {
        self.merged.items
    }

    /// The cursors of the requests that have been answered, in their order.
    pub fn consumed_cursors(&self) -> (cursors: &Vec<String>)
        ensures
            texts(cursors@) == self@.consumed,
    {
        &self.consumed
    }
}

/// The state after the pages `pages` have arrived one after the other, none
/// of them stopped early.
pub open spec fn fed<T>(state: PagerState<T>, pages: Seq<Page<T>>) -> PagerState<T>
    decreases pages.len(),
{
    if pages.len() == 0 {
        state
    } else {
        fed(state, pages.drop_last()).accept(pages.last(), false)
    }
}

/// The items of all pages, in the order of the pages.
pub open spec fn joined<T>(pages: Seq<Page<T>>) -> Seq<T>
    decreases pages.len(),
{
    if pages.len() == 0 {
        Seq::empty()
    } else {
        joined(pages.drop_last()) + pages.last().items@
    }
}

/// Whether `pages` is a listing from its first page to its last: something
/// follows every page but the last.
pub open spec fn complete<T>(pages: Seq<Page<T>>) -> bool {
    &&& pages.len() > 0
    &&& forall|i: int| 0 <= i < pages.len() - 1 ==> (#[trigger] pages[i]).has_next_page
    &&& !pages.last().has_next_page
}

/// What has arrived stays: a page puts its items behind those already
/// here, and a failed request leaves them as they are.
pub proof fn lemma_arrived_items_stay<T>(state: PagerState<T>, page: Page<T>, stop: bool)
    ensures
        state.items.is_prefix_of(state.accept(page, stop).items),
        state.fail().items == state.items,
        state.fail().done,
{
    assert(state.items + Seq::<T>::empty() == state.items);
}

/// While something follows every page, the walk goes on and holds the
/// items of all pages in their order.
pub proof fn lemma_open_listing_joins<T>(pages: Seq<Page<T>>)
    requires
        forall|i: int| 0 <= i < pages.len() ==> (#[trigger] pages[i]).has_next_page,
    ensures
        fed(PagerState::start(), pages).items == joined(pages),
        !fed(PagerState::start(), pages).done,
    decreases pages.len(),
{
    if pages.len() > 0 {
        let front = pages.drop_last();
        assert forall|i: int| 0 <= i < front.len() implies (#[trigger] front[i]).has_next_page by {
            assert(front[i] == pages[i]);
        }
        lemma_open_listing_joins(front);
        assert(pages[pages.len() - 1].has_next_page);
    }
}

/// A walk through a whole listing ends with the items of all its pages, in
/// their order.
pub proof fn lemma_listing_joins<T>(pages: Seq<Page<T>>)
    requires
        complete(pages),
    ensures
        fed(PagerState::start(), pages).items == joined(pages),
        fed(PagerState::start(), pages).done,
{
    let front = pages.drop_last();
    assert forall|i: int| 0 <= i < front.len() implies (#[trigger] front[i]).has_next_page by {
        assert(front[i] == pages[i]);
    }
    lemma_open_listing_joins(front);
}

/// How a listing is cut into pages does not matter: two walks through
/// listings with the same items end with the same items.
pub proof fn lemma_page_sizes_do_not_matter<T>(a: Seq<Page<T>>, b: Seq<Page<T>>)
    requires
        complete(a),
        complete(b),
        joined(a) == joined(b),
    ensures
        fed(PagerState::start(), a).items == fed(PagerState::start(), b).items,
{
    lemma_listing_joins(a);
    lemma_listing_joins(b);
}

/// Merging is associative: whether the items `a` and `b` arrive as two
/// pages or as one, the walk holds the same items and goes on in the same way.
pub proof fn lemma_merge_associative<T>(
    state: PagerState<T>,
    a: Seq<T>,
    b: Seq<T>,
    between: Seq<char>,
    cursor: Seq<char>,
    more: bool,
    stop: bool,
)
    requires
        !state.done,
    ensures
        state.take_in(a, between, true, false).take_in(b, cursor, more, stop).items
            == state.take_in(a + b, cursor, more, stop).items,
        state.take_in(a, between, true, false).take_in(b, cursor, more, stop).cursor
            == state.take_in(a + b, cursor, more, stop).cursor,
        state.take_in(a, between, true, false).take_in(b, cursor, more, stop).done
            == state.take_in(a + b, cursor, more, stop).done,
{
    assert((state.items + a) + b == state.items + (a + b));
}

} // verus!
