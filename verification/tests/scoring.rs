use review_stats::aggregate::{reduce, Aggregate, Entry, RepoResult, UserStats};
use review_stats::engine::summarize;
use review_stats::error::EngineError;
use review_stats::history::HistoryFetcher;
use review_stats::page::Page;
use review_stats::record::{Author, Disposition, PullRequestRecord, ReviewRecord};
use review_stats::schedule::settle;
use review_stats::score::score;
use review_stats::time::{Date, Timestamp};

fn known(login: &str) -> Author {
    Author::Known(login.to_string())
}

fn pull_request(
    author: &str,
    additions: u64,
    deletions: u64,
    reviews: Vec<ReviewRecord>,
) -> PullRequestRecord {
    PullRequestRecord {
        merged_at: Timestamp::from_secs(1_700_000_000).unwrap(),
        additions,
        deletions,
        changed_files: 1,
        author: known(author),
        reviews,
        comments: vec![],
    }
}

fn approval(login: &str) -> ReviewRecord {
    ReviewRecord { author: known(login), disposition: Disposition::Approved }
}

fn repo(name: &str, pull_requests: Vec<PullRequestRecord>) -> RepoResult {
    RepoResult { repo: name.to_string(), pull_requests }
}

fn with_additions(aggregate: Aggregate, login: &str, additions: u64) -> Aggregate {
    let mut delta = UserStats::new();
    delta.additions = additions;
    aggregate.credit(login.to_string(), &delta).unwrap()
}

fn ranking_of(entries: &Vec<Entry>) -> Vec<(String, u64)> {
    entries.iter().map(|e| (e.login.clone(), e.stats.score)).collect()
}

#[test]
fn score_follows_the_formula() {
    let mut stats = UserStats::new();
    stats.approvals = 3;
    stats.comments = 2;
    stats.requested_changes = 1;
    stats.additions = 7;
    stats.deletions = 5;
    // 25*3 + 25*2 + 2*25*1 + 7 + (25/10)*5
    assert_eq!(score(&stats, 25), Ok(75 + 50 + 50 + 7 + 10));
}

#[test]
fn a_tenth_of_the_weight_is_rounded_down() {
    let mut stats = UserStats::new();
    stats.deletions = 100;
    assert_eq!(score(&stats, 9), Ok(0));
    assert_eq!(score(&stats, 10), Ok(100));
    assert_eq!(score(&stats, 19), Ok(100));
    assert_eq!(score(&stats, 20), Ok(200));
}

#[test]
fn a_weight_of_zero_leaves_the_additions() {
    let mut stats = UserStats::new();
    stats.approvals = u64::MAX;
    stats.requested_changes = u64::MAX;
    stats.comments = u64::MAX;
    stats.deletions = u64::MAX;
    stats.additions = 42;
    assert_eq!(score(&stats, 0), Ok(42));
}

#[test]
fn pull_requests_and_files_do_not_score() {
    let mut stats = UserStats::new();
    stats.pull_requests = 1000;
    stats.changed_files = 1000;
    assert_eq!(score(&stats, 50), Ok(0));
}

#[test]
fn score_that_leaves_64_bits_is_an_overflow() {
    let mut stats = UserStats::new();
    stats.approvals = u64::MAX;
    assert_eq!(score(&stats, 2), Err(EngineError::Overflow));
    let mut stats = UserStats::new();
    stats.requested_changes = u64::MAX / 2 + 1;
    assert_eq!(score(&stats, 1), Err(EngineError::Overflow));
    let mut stats = UserStats::new();
    stats.additions = u64::MAX;
    stats.comments = 1;
    assert_eq!(score(&stats, 1), Err(EngineError::Overflow));
    let mut stats = UserStats::new();
    stats.additions = u64::MAX - 1;
    stats.comments = 1;
    assert_eq!(score(&stats, 1), Ok(u64::MAX));
}

#[test]
fn the_weight_is_the_average_size_rounded_down() {
    let aggregate = reduce(&vec![repo(
        "a",
        vec![
            pull_request("alice", 10, 2, vec![]),
            pull_request("bob", 0, 1, vec![]),
            pull_request("alice", 7, 0, vec![]),
        ],
    )])
    .unwrap();
    assert_eq!(aggregate.weight(), Ok(20 / 3));
}

#[test]
fn no_pull_request_is_a_division_by_zero() {
    assert_eq!(Aggregate::new().weight(), Err(EngineError::DivisionByZero));
    let mut delta = UserStats::new();
    delta.comments = 3;
    delta.additions = 9;
    let only_comments = Aggregate::new().credit("bob".to_string(), &delta).unwrap();
    assert_eq!(only_comments.weight(), Err(EngineError::DivisionByZero));
}

#[test]
fn totals_that_leave_64_bits_are_an_overflow() {
    let mut delta = UserStats::new();
    delta.pull_requests = 1;
    delta.additions = u64::MAX;
    let aggregate = Aggregate::new().credit("alice".to_string(), &delta).unwrap();
    let aggregate = aggregate.credit("bob".to_string(), &delta).unwrap();
    assert_eq!(aggregate.weight(), Err(EngineError::Overflow));
}

#[test]
fn the_ranking_goes_from_the_highest_score_down() {
    let aggregate = with_additions(Aggregate::new(), "low", 1);
    let aggregate = with_additions(aggregate, "high", 30);
    let aggregate = with_additions(aggregate, "middle", 20);
    let ranking = aggregate.finalize(5).unwrap();
    assert_eq!(
        ranking_of(&ranking),
        vec![("high".to_string(), 30), ("middle".to_string(), 20), ("low".to_string(), 1)]
    );
    assert_eq!(ranking[0].stats.additions, 30);
}

#[test]
fn equal_scores_keep_the_order_of_first_encounter() {
    let aggregate = with_additions(Aggregate::new(), "first", 5);
    let aggregate = with_additions(aggregate, "top", 9);
    let aggregate = with_additions(aggregate, "second", 5);
    let aggregate = with_additions(aggregate, "third", 5);
    let aggregate = with_additions(aggregate, "bottom", 1);
    let ranking = aggregate.finalize(0).unwrap();
    assert_eq!(
        ranking_of(&ranking),
        vec![
            ("top".to_string(), 9),
            ("first".to_string(), 5),
            ("second".to_string(), 5),
            ("third".to_string(), 5),
            ("bottom".to_string(), 1),
        ]
    );
}

#[test]
fn the_ranking_of_nobody_is_empty() {
    assert_eq!(Aggregate::new().finalize(3), Ok(vec![]));
}

#[test]
fn a_score_that_leaves_64_bits_fails_the_ranking() {
    let mut delta = UserStats::new();
    delta.approvals = u64::MAX;
    let aggregate = with_additions(Aggregate::new(), "small", 1);
    let aggregate = aggregate.credit("big".to_string(), &delta).unwrap();
    assert_eq!(aggregate.finalize(2), Err(EngineError::Overflow));
    let aggregate = with_additions(Aggregate::new(), "small", 1);
    let aggregate = aggregate.credit("big".to_string(), &delta).unwrap();
    assert!(aggregate.finalize(1).is_ok());
}

#[test]
fn two_repositories_are_summarized() {
    let results = vec![
        repo("A", vec![pull_request("alice", 10, 2, vec![approval("bob")])]),
        repo("B", vec![pull_request("alice", 0, 0, vec![])]),
    ];
    let aggregate = reduce(&results).unwrap();
    let written: u64 = aggregate.entries().iter().map(|e| e.stats.pull_requests).sum();
    let lines: u64 =
        aggregate.entries().iter().map(|e| e.stats.additions + e.stats.deletions).sum();
    assert_eq!(written, 2);
    assert_eq!(lines, 12);
    assert_eq!(aggregate.weight(), Ok(6));
    let ranking = summarize(&results).unwrap();
    assert_eq!(ranking_of(&ranking), vec![("alice".to_string(), 10), ("bob".to_string(), 6)]);
    assert_eq!(ranking[0].stats.pull_requests, 2);
    assert_eq!(ranking[1].stats.approvals, 1);
}

#[test]
fn the_order_of_the_repositories_does_not_change_the_counters() {
    let a = repo("A", vec![pull_request("alice", 10, 2, vec![approval("bob")])]);
    let b = repo("B", vec![pull_request("bob", 4, 4, vec![approval("alice"), approval("carol")])]);
    let one = reduce(&vec![a.clone(), b.clone()]).unwrap();
    let other = reduce(&vec![b, a]).unwrap();
    assert_eq!(one.len(), other.len());
    for login in ["alice", "bob", "carol"] {
        assert_eq!(one.get(&login.to_string()), other.get(&login.to_string()));
        assert!(one.get(&login.to_string()).is_some());
    }
    assert_eq!(one.weight(), other.weight());
}

#[test]
fn nothing_to_summarize_is_a_division_by_zero() {
    assert_eq!(summarize(&Vec::new()), Err(EngineError::DivisionByZero));
    assert_eq!(summarize(&vec![repo("A", vec![]), repo("B", vec![])]), Err(EngineError::DivisionByZero));
}

#[test]
fn a_cutoff_that_excludes_everything_is_a_division_by_zero() {
    let mut fetcher = HistoryFetcher::new(Some(Date::from_epoch_days(30_000)));
    fetcher.accept(Ok(Page {
        items: vec![pull_request("alice", 10, 2, vec![approval("bob")])],
        end_cursor: "c".to_string(),
        has_next_page: false,
    }));
    let result = settle("A".to_string(), Ok(fetcher.finish()));
    assert!(result.pull_requests.is_empty());
    assert_eq!(summarize(&vec![result]), Err(EngineError::DivisionByZero));
}

#[test]
fn a_failed_repository_contributes_nothing() {
    let failed = settle("A".to_string(), Err(EngineError::TransportError));
    assert_eq!(failed, repo("A", vec![]));
    let fine = settle("B".to_string(), Ok(vec![pull_request("alice", 3, 1, vec![])]));
    assert_eq!(fine, repo("B", vec![pull_request("alice", 3, 1, vec![])]));
    let ranking = summarize(&vec![failed, fine]).unwrap();
    assert_eq!(ranking_of(&ranking), vec![("alice".to_string(), 3)]);
}

#[test]
fn an_overflow_in_a_summary_is_reported() {
    let results = vec![repo(
        "A",
        vec![pull_request("alice", u64::MAX, 0, vec![]), pull_request("bob", 1, 0, vec![])],
    )];
    assert_eq!(summarize(&results), Err(EngineError::Overflow));
}
