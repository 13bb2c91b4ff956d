use vstd::prelude::*;
use crate::aggregate::RepoResult;
use crate::error::EngineError;
use crate::page::texts;
use crate::record::PullRequestRecord;

verus! {

/// How many repositories may be fetched at the same time.
pub const MAX_IN_FLIGHT: usize = 5;

/// After how many submitted repositories the scheduler rests.
pub const PAUSE_EVERY: usize = 10;

/// How long the scheduler rests, in seconds.
pub const PAUSE_SECONDS: u64 = 10;

/// What the scheduler asks its driver to do next.
#[derive(Clone, Copy, Debug, PartialEq, Eq, Structural)]
pub enum Action {
    /// Start the fetch of the repository with this index.
    Submit(usize),
    /// Wait for this many seconds before anything else.
    Pause(u64),
    /// Wait until one of the running fetches has ended.
    Await,
    /// Every repository has been fetched, or has failed.
    Finished,
}

/// What the driver reports back.
#[derive(Debug, PartialEq, Eq)]
pub enum Event {
    /// The fetch that was asked for has been started.
    Submitted,
    /// The pause that was asked for is over.
    Rested,
    /// The fetch of the repository with this index has ended: with the pull
    /// requests that it found, or with a failure.
    Completed(usize, Result<Vec<PullRequestRecord>, EngineError>),
}

/// Whether a pause is due before the repository with index `submitted` is started.
pub open spec fn pause_due(submitted: int) -> bool {
    submitted > 0 && submitted % (PAUSE_EVERY as int) == 0
}

/// What one repository has come back with.
pub struct Settled {
    pub repo: Seq<char>,
    pub pull_requests: Seq<PullRequestRecord>,
}

/// What a list of results stands for.
pub open spec fn settled_of(results: Seq<RepoResult>) -> Seq<Settled> {
    Seq::new(
        results.len(),
        |i: int| Settled { repo: results[i].repo@, pull_requests: results[i].pull_requests@ },
    )
}

/// What a fetch contributes: the pull requests that it found, or none where
/// it failed.
pub open spec fn contribution(outcome: Result<Vec<PullRequestRecord>, EngineError>) -> Seq<
    PullRequestRecord,
> {
    match outcome {
        Ok(prs) => prs@,
        Err(_) => Seq::empty(),
    }
}

/// The bookkeeping of a run over some repositories, which are started in the
/// order of their indices.
pub struct Ledger {
    /// The names of the repositories.
    pub repos: Seq<Seq<char>>,
    /// How many fetches have been started.
    pub submitted: nat,
    /// Whether the pause that is due at `submitted` has been taken.
    pub rested: bool,
    /// The indices of the repositories whose fetch has ended, in the order
    /// in which they ended.
    pub finished: Seq<int>,
    /// What those repositories came back with, in the same order.
    pub results: Seq<Settled>,
}

impl Ledger {
    /// The number of fetches that are running.
    pub open spec fn in_flight(self) -> int {
        self.submitted - self.finished.len()
    }

    /// What holds of every state that a run reaches.
    pub open spec fn wf(self) -> bool {
        &&& self.submitted <= self.repos.len() <= usize::MAX
        &&& self.finished.no_duplicates()
        &&& forall|k: int| 0 <= k < self.finished.len() ==> 0 <= #[trigger] self.finished[k] < self.submitted
        &&& self.results.len() == self.finished.len()
        &&& forall|k: int|
            0 <= k < self.results.len() ==> (#[trigger] self.results[k]).repo
                == self.repos[self.finished[k]]
        &&& 0 <= self.in_flight() <= MAX_IN_FLIGHT
        &&& self.rested ==> pause_due(self.submitted as int)
    }

    /// What the driver is to do in this state. While repositories are left,
    /// a pause that is due comes first, however many fetches are running;
    /// then a fetch is started if fewer than `MAX_IN_FLIGHT` are running.
    pub open spec fn decision(self) -> Action {
        if self.submitted < self.repos.len() {
            if pause_due(self.submitted as int) && !self.rested {
                Action::Pause(PAUSE_SECONDS)
            } else if self.in_flight() >= MAX_IN_FLIGHT {
                Action::Await
            } else {
                Action::Submit(self.submitted as usize)
            }
        } else if self.finished.len() < self.submitted {
            Action::Await
        } else {
            Action::Finished
        }
    }

    /// Whether the fetch of the repository with index `index` is running.
    pub open spec fn running(self, index: int) -> bool {
        0 <= index < self.submitted && !self.finished.contains(index)
    }

    /// The state after `event`. An event that does not fit the state changes
    /// nothing: a start or a rest that was not asked for, or the end of a
    /// fetch that is not running.
    pub open spec fn after(self, event: Event) -> Ledger {
        match event {
            Event::Submitted => if self.decision() is Submit {
                Ledger { submitted: self.submitted + 1, rested: false, ..self }
            } else {
                self
            },
            Event::Rested => if self.decision() is Pause {
                Ledger { rested: true, ..self }
            } else {
                self
            },
            Event::Completed(index, outcome) => if self.running(index as int) {
                Ledger {
                    finished: self.finished.push(index as int),
                    results: self.results.push(
                        Settled {
                            repo: self.repos[index as int],
                            pull_requests: contribution(outcome),
                        },
                    ),
                    ..self
                }
            } else {
                self
            },
        }
    }
}

/// What a repository contributes to the run: the pull requests that its
/// fetch came back with, or none where the fetch failed.
pub fn settle(repo: String, outcome: Result<Vec<PullRequestRecord>, EngineError>) -> (r: RepoResult)
    ensures
        r.repo == repo,
        r.pull_requests@ == contribution(outcome),
{
    match outcome {
        Ok(pull_requests) => RepoResult { repo, pull_requests },
        Err(_) => RepoResult { repo, pull_requests: Vec::new() },
    }
}

/// The scheduler of a run: it tells its driver when to start the fetch of
/// the next repository, when to rest and when to wait, is told what the
/// driver has done, and collects what the fetches come back with.
pub struct Scheduler {
    repos: Vec<String>,
    submitted: usize,
    rested: bool,
    done: Vec<bool>,
    order: Vec<usize>,
    results: Vec<RepoResult>,
}

impl View for Scheduler {
    type V = Ledger;

    closed spec fn view(&self) -> Ledger {
        Ledger {
            repos: texts(self.repos@),
            submitted: self.submitted as nat,
            rested: self.rested,
            finished: Seq::new(self.order@.len(), |k: int| self.order@[k] as int),
            results: settled_of(self.results@),
        }
    }
}

impl Scheduler {
    #[verifier::type_invariant]
    spec fn sound(self) -> bool {
        &&& self@.wf()
        &&& self.done@.len() == self.repos@.len()
        &&& forall|i: int|
            0 <= i < self.done@.len() ==> #[trigger] self.done@[i] == self@.finished.contains(i)
    }

    /// The state in which nothing has been started.
    pub fn new(repos: Vec<String>) -> (s: Scheduler)
        ensures
            s@ == (Ledger {
                repos: texts(repos@),
                submitted: 0,
                rested: false,
                finished: Seq::empty(),
                results: Seq::empty(),
            }),
            s@.wf(),
    {
        let n = repos.len();
        let mut done: Vec<bool> = Vec::new();
        while done.len() < n
            invariant
                done@.len() <= n,
                forall|i: int| 0 <= i < done@.len() ==> !(#[trigger] done@[i]),
            decreases n - done@.len(),
        {
            done.push(false);
        }
        let s = Scheduler {
            repos,
            submitted: 0,
            rested: false,
            done,
            order: Vec::new(),
            results: Vec::new(),
        };
        assert(s@.finished =~= Seq::<int>::empty());
        assert(s@.results =~= Seq::<Settled>::empty());
        s
    }

    /// The number of repositories.
    pub fn total(&self) -> (n: usize)
        ensures
            n == self@.repos.len(),
    {
        self.repos.len()
    }

    /// The name of the repository with index `index`, if there is one.
    pub fn repo(&self, index: usize) -> (name: Option<String>)
        ensures
            name is Some <==> index < self@.repos.len(),
            name matches Some(n) ==> n@ == self@.repos[index as int],
    {
        if index < self.repos.len() {
            Some(self.repos[index].clone())
        } else {
            None
        }
    }

    /// How many fetches have been started.
    pub fn submitted(&self) -> (n: usize)
        ensures
            n == self@.submitted,
            self@.wf(),
    {
        proof {
            use_type_invariant(self);
        }
        self.submitted
    }

    /// How many fetches have ended.
    pub fn completed(&self) -> (n: usize)
        ensures
            n == self@.finished.len(),
            self@.wf(),
    {
        proof {
            use_type_invariant(self);
        }
        self.order.len()
    }

    /// How many fetches are running; never more than `MAX_IN_FLIGHT`.
    pub fn in_flight(&self) -> (n: usize)
        ensures
            n == self@.in_flight(),
            n <= MAX_IN_FLIGHT,
    {
        proof {
            use_type_invariant(self);
        }
        self.submitted - self.order.len()
    }

    /// Whether the fetch of the repository with index `index` is running.
    pub fn is_running(&self, index: usize) -> (running: bool)
        ensures
            running == self@.running(index as int),
    {
        proof {
            use_type_invariant(self);
        }
        index < self.submitted && !self.done[index]
    }

    /// What the driver is to do in this state.
    pub fn next_action(&self) -> (action: Action)
        ensures
            action == self@.decision(),
            self@.wf(),
    {
        proof {
            use_type_invariant(self);
        }
        if self.submitted < self.repos.len() {
            if self.submitted > 0 && self.submitted % PAUSE_EVERY == 0 && !self.rested {
                Action::Pause(PAUSE_SECONDS)
            } else if self.submitted - self.order.len() >= MAX_IN_FLIGHT {
                Action::Await
            } else {
                Action::Submit(self.submitted)
            }
        } else if self.order.len() < self.submitted {
            Action::Await
        } else {
            Action::Finished
        }
    }

    /// Takes note of what the driver reports and says what it is to do next.
    pub fn step(self, event: Event) -> (next: (Scheduler, Action))
        ensures
            next.0@ == self@.after(event),
            next.1 == self@.after(event).decision(),
            next.0@.wf(),
    {
        proof {
            use_type_invariant(&self);
        }
        let action = self.next_action();
        let ghost before = self@;
        let Scheduler { repos, submitted, rested, done, order, results } = self;
        let next = match event {
            Event::Submitted => {
                if let Action::Submit(_) = action {
                    Scheduler { repos, submitted: submitted + 1, rested: false, done, order, results }
                } else {
                    Scheduler { repos, submitted, rested, done, order, results }
                }
            },
            Event::Rested => {
                if let Action::Pause(_) = action {
                    Scheduler { repos, submitted, rested: true, done, order, results }
                } else {
                    Scheduler { repos, submitted, rested, done, order, results }
                }
            },
            Event::Completed(index, outcome) => {
                if index < submitted && !done[index] {
                    let mut done = done;
                    let mut order = order;
                    let mut results = results;
                    let ghost finished = before.finished;
                    proof {
                        lemma_step_keeps_wf(before, event);
                    }
                    done.set(index, true);
                    order.push(index);
                    results.push(settle(repos[index].clone(), outcome));
                    let ghost after = before.after(event);
                    assert(Seq::new(order@.len(), |k: int| order@[k] as int) =~= after.finished);
                    assert(settled_of(results@) =~= after.results);
                    assert forall|i: int| 0 <= i < done@.len() implies #[trigger] done@[i]
                        == after.finished.contains(i) by {
                        if i == index {
                            assert(after.finished[finished.len() as int] == i);
                        } else if finished.contains(i) {
                            let k = choose|k: int| 0 <= k < finished.len() && finished[k] == i;
                            assert(after.finished[k] == i);
                        } else if after.finished.contains(i) {
                            let k = choose|k: int|
                                0 <= k < after.finished.len() && after.finished[k] == i;
                            assert(finished[k] == i);
                        }
                    }
                    Scheduler { repos, submitted, rested, done, order, results }
                } else {
                    Scheduler { repos, submitted, rested, done, order, results }
                }
            },
        };
        let then = next.next_action();
        (next, then)
    }

    /// What the fetches that have ended came back with, in the order in
    /// which they ended.
    pub fn results(&self) -> (results: &Vec<RepoResult>)
        ensures
            settled_of(results@) == self@.results,
            self@.wf(),
    {
        proof {
            use_type_invariant(self);
        }
        &self.results
    }

    /// Hands out the results once every fetch has ended: one for each
    /// repository, in the order in which the fetches ended. Before that there
    /// is nothing to hand out.
    pub fn into_results(self) -> (results: Option<Vec<RepoResult>>)
        ensures
            results is Some <==> self@.decision() is Finished,
            results matches Some(r) ==> settled_of(r@) == self@.results && r@.len()
                == self@.repos.len(),
            results is Some ==> forall|i: int|
                0 <= i < self@.repos.len() ==> self@.finished.contains(i),
            self@.wf(),
    {
        proof {
            use_type_invariant(&self);
            lemma_finished_run(self@);
        }
        match self.next_action() {
            Action::Finished => Some(self.results),
            _ => None,
        }
    }
}

/// Different indices below `n` are at most `n`; and where they are `n`, none
/// below `n` is missing.
proof fn lemma_distinct_indices(s: Seq<int>, n: int)
    requires
        0 <= n,
        s.no_duplicates(),
        forall|k: int| 0 <= k < s.len() ==> 0 <= #[trigger] s[k] < n,
    ensures
        s.len() <= n,
        s.len() == n ==> forall|i: int| 0 <= i < n ==> s.contains(i),
{
    let range = vstd::set_lib::set_int_range(0, n);
    vstd::set_lib::lemma_int_range(0, n);
    s.unique_seq_to_set();
    assert(s.to_set().subset_of(range)) by {
        assert forall|x: int| s.to_set().contains(x) implies range.contains(x) by {
            let k = choose|k: int| 0 <= k < s.len() && s[k] == x;
            assert(0 <= s[k] < n);
        }
    }
    vstd::set_lib::lemma_len_subset(s.to_set(), range);
    if s.len() == n {
        vstd::set_lib::lemma_subset_equality(s.to_set(), range);
        assert forall|i: int| 0 <= i < n implies s.contains(i) by {
            assert(range.contains(i));
            assert(s.to_set().contains(i));
        }
    }
}

/// Every step of a run keeps the bookkeeping sound; in particular no more
/// than `MAX_IN_FLIGHT` fetches ever run at the same time, and no repository
/// is settled twice.
pub proof fn lemma_step_keeps_wf(s: Ledger, event: Event)
    requires
        s.wf(),
    ensures
        s.after(event).wf(),
        s.after(event).in_flight() <= MAX_IN_FLIGHT,
        s.after(event).repos == s.repos,
        s.finished.is_prefix_of(s.after(event).finished),
        s.results.is_prefix_of(s.after(event).results),
{
    let t = s.after(event);
    match event {
        Event::Completed(index, outcome) => {
            if s.running(index as int) {
                assert forall|i: int, j: int|
                    0 <= i < t.finished.len() && 0 <= j < t.finished.len() && i != j implies t.finished[i]
                    != t.finished[j] by {
                    if i < s.finished.len() {
                        assert(s.finished.contains(s.finished[i]));
                    }
                    if j < s.finished.len() {
                        assert(s.finished.contains(s.finished[j]));
                    }
                }
                lemma_distinct_indices(t.finished, s.submitted as int);
            }
        },
        _ => {},
    }
}

/// The repositories are started one by one in the order of their indices,
/// each once: a fetch is asked for only of the next index, only while fewer
/// than `MAX_IN_FLIGHT` are running, and at every tenth index only after a
/// pause has been taken.
pub proof fn lemma_submission_order(s: Ledger)
    requires
        s.wf(),
    ensures
        s.decision() matches Action::Submit(i) ==> i == s.submitted && i < s.repos.len()
            && s.in_flight() < MAX_IN_FLIGHT && (pause_due(i as int) ==> s.rested),
        s.decision() matches Action::Submit(i) ==> s.after(Event::Submitted).submitted == i + 1,
        s.decision() matches Action::Pause(secs) ==> secs == PAUSE_SECONDS && pause_due(
            s.submitted as int,
        ) && s.submitted < s.repos.len(),
        s.decision() is Await ==> s.in_flight() > 0,
        s.decision() is Finished <==> s.finished.len() == s.repos.len(),
{
}

/// When a run is finished, every repository has been settled, and once:
/// there is one result for each, under its name.
pub proof fn lemma_finished_run(s: Ledger)
    requires
        s.wf(),
    ensures
        s.decision() is Finished ==> s.results.len() == s.repos.len(),
        s.decision() is Finished ==> forall|i: int| 0 <= i < s.repos.len() ==> s.finished.contains(i),
        forall|j: int, k: int|
            0 <= j < k < s.results.len() ==> #[trigger] s.finished[j] != #[trigger] s.finished[k],
{
    lemma_distinct_indices(s.finished, s.submitted as int);
}

} // verus!
