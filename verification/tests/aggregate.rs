use review_stats::aggregate::{reduce, Aggregate, RepoResult, UserStats};
use review_stats::error::EngineError;
use review_stats::record::{Author, CommentRecord, Disposition, PullRequestRecord, ReviewRecord};
use review_stats::time::Timestamp;

fn known(login: &str) -> Author {
    Author::Known(login.to_string())
}

fn review(login: &str, disposition: Disposition) -> ReviewRecord {
    ReviewRecord { author: known(login), disposition }
}

fn comment(login: &str) -> CommentRecord {
    CommentRecord { author: known(login) }
}

fn pull_request(
    author: Author,
    additions: u64,
    deletions: u64,
    changed_files: u64,
    reviews: Vec<ReviewRecord>,
    comments: Vec<CommentRecord>,
) -> PullRequestRecord {
    PullRequestRecord {
        merged_at: Timestamp::from_secs(1_700_000_000).unwrap(),
        additions,
        deletions,
        changed_files,
        author,
        reviews,
        comments,
    }
}

fn stats_of(aggregate: &Aggregate, login: &str) -> UserStats {
    aggregate.get(&login.to_string()).unwrap()
}

fn logins(aggregate: &Aggregate) -> Vec<String> {
    aggregate.entries().iter().map(|e| e.login.clone()).collect()
}

fn repo(name: &str, pull_requests: Vec<PullRequestRecord>) -> RepoResult {
    RepoResult { repo: name.to_string(), pull_requests }
}

#[test]
fn new_counters_are_zero() {
    let s = UserStats::new();
    assert_eq!(
        s,
        UserStats {
            approvals: 0,
            requested_changes: 0,
            comments: 0,
            pull_requests: 0,
            additions: 0,
            deletions: 0,
            changed_files: 0,
            score: 0,
        }
    );
}

#[test]
fn counters_are_added_one_by_one() {
    let a = UserStats {
        approvals: 1,
        requested_changes: 2,
        comments: 3,
        pull_requests: 4,
        additions: 5,
        deletions: 6,
        changed_files: 7,
        score: 9,
    };
    let b = UserStats {
        approvals: 10,
        requested_changes: 20,
        comments: 30,
        pull_requests: 40,
        additions: 50,
        deletions: 60,
        changed_files: 70,
        score: 90,
    };
    assert_eq!(
        a.plus(&b),
        Some(UserStats {
            approvals: 11,
            requested_changes: 22,
            comments: 33,
            pull_requests: 44,
            additions: 55,
            deletions: 66,
            changed_files: 77,
            score: 9,
        })
    );
}

#[test]
fn a_counter_that_leaves_64_bits_fails_the_sum() {
    let mut a = UserStats::new();
    a.deletions = u64::MAX;
    let mut b = UserStats::new();
    b.deletions = 1;
    assert_eq!(a.plus(&b), None);
    assert_eq!(a.plus(&UserStats::new()), Some(a));
}

#[test]
fn each_role_has_its_counters() {
    let pr = pull_request(known("alice"), 10, 2, 3, vec![], vec![]);
    let authored = UserStats::for_authoring(&pr);
    assert_eq!((authored.pull_requests, authored.additions), (1, 10));
    assert_eq!((authored.deletions, authored.changed_files), (2, 3));
    assert_eq!(UserStats::for_reviewing(Disposition::Approved).approvals, 1);
    assert_eq!(UserStats::for_reviewing(Disposition::Commented).comments, 1);
    assert_eq!(UserStats::for_reviewing(Disposition::ChangesRequested).requested_changes, 1);
    assert_eq!(UserStats::for_reviewing(Disposition::Other), UserStats::new());
    assert_eq!(UserStats::for_commenting().comments, 1);
}

#[test]
fn an_empty_aggregate_knows_nobody() {
    let aggregate = Aggregate::new();
    assert_eq!(aggregate.len(), 0);
    assert_eq!(aggregate.get(&"alice".to_string()), None);
}

#[test]
fn a_credit_opens_an_entry_or_raises_it() {
    let mut delta = UserStats::new();
    delta.comments = 2;
    let aggregate = Aggregate::new().credit("alice".to_string(), &delta).unwrap();
    let aggregate = aggregate.credit("bob".to_string(), &delta).unwrap();
    let aggregate = aggregate.credit("alice".to_string(), &delta).unwrap();
    assert_eq!(logins(&aggregate), vec!["alice".to_string(), "bob".to_string()]);
    assert_eq!(stats_of(&aggregate, "alice").comments, 4);
    assert_eq!(stats_of(&aggregate, "bob").comments, 2);
}

#[test]
fn a_credit_never_sets_a_score() {
    let mut delta = UserStats::new();
    delta.score = 77;
    delta.approvals = 1;
    let aggregate = Aggregate::new().credit("alice".to_string(), &delta).unwrap();
    assert_eq!(stats_of(&aggregate, "alice").score, 0);
    let aggregate = aggregate.credit("alice".to_string(), &delta).unwrap();
    assert_eq!(stats_of(&aggregate, "alice").score, 0);
    assert_eq!(stats_of(&aggregate, "alice").approvals, 2);
}

#[test]
fn a_credit_that_leaves_64_bits_is_an_overflow() {
    let mut delta = UserStats::new();
    delta.additions = u64::MAX;
    let aggregate = Aggregate::new().credit("alice".to_string(), &delta).unwrap();
    let mut one = UserStats::new();
    one.additions = 1;
    assert!(matches!(aggregate.credit("alice".to_string(), &one), Err(EngineError::Overflow)));
}

#[test]
fn a_pull_request_is_counted_for_author_reviews_and_comments() {
    let pr = pull_request(
        known("alice"),
        10,
        2,
        3,
        vec![
            review("bob", Disposition::Approved),
            review("carol", Disposition::ChangesRequested),
            review("bob", Disposition::Commented),
        ],
        vec![comment("bob"), comment("dave")],
    );
    let aggregate = Aggregate::new().absorb(&pr).unwrap();
    assert_eq!(
        logins(&aggregate),
        vec!["alice".to_string(), "bob".to_string(), "carol".to_string(), "dave".to_string()]
    );
    let alice = stats_of(&aggregate, "alice");
    assert_eq!((alice.pull_requests, alice.additions, alice.deletions), (1, 10, 2));
    assert_eq!(alice.changed_files, 3);
    let bob = stats_of(&aggregate, "bob");
    assert_eq!((bob.approvals, bob.comments, bob.requested_changes), (1, 2, 0));
    assert_eq!(stats_of(&aggregate, "carol").requested_changes, 1);
    assert_eq!(stats_of(&aggregate, "dave").comments, 1);
}

#[test]
fn author_and_review_roles_share_one_entry() {
    let first = pull_request(
        known("alice"),
        10,
        2,
        1,
        vec![review("bob", Disposition::Approved)],
        vec![],
    );
    let second = pull_request(
        known("bob"),
        5,
        1,
        2,
        vec![review("alice", Disposition::Approved)],
        vec![comment("alice")],
    );
    let aggregate = Aggregate::new().absorb_all(&vec![first, second]).unwrap();
    assert_eq!(aggregate.len(), 2);
    assert_eq!(
        stats_of(&aggregate, "alice"),
        UserStats {
            approvals: 1,
            requested_changes: 0,
            comments: 1,
            pull_requests: 1,
            additions: 10,
            deletions: 2,
            changed_files: 1,
            score: 0,
        }
    );
    assert_eq!(
        stats_of(&aggregate, "bob"),
        UserStats {
            approvals: 1,
            requested_changes: 0,
            comments: 0,
            pull_requests: 1,
            additions: 5,
            deletions: 1,
            changed_files: 2,
            score: 0,
        }
    );
}

#[test]
fn somebody_who_reviews_the_own_pull_request_has_one_entry() {
    let pr = pull_request(
        known("alice"),
        1,
        1,
        1,
        vec![review("alice", Disposition::Commented)],
        vec![comment("alice")],
    );
    let aggregate = Aggregate::new().absorb(&pr).unwrap();
    assert_eq!(aggregate.len(), 1);
    let alice = stats_of(&aggregate, "alice");
    assert_eq!((alice.pull_requests, alice.comments), (1, 2));
}

#[test]
fn an_unrecognized_disposition_counts_nothing_but_opens_an_entry() {
    let pr = pull_request(known("alice"), 1, 1, 1, vec![review("eve", Disposition::Other)], vec![]);
    let aggregate = Aggregate::new().absorb(&pr).unwrap();
    assert_eq!(logins(&aggregate), vec!["alice".to_string(), "eve".to_string()]);
    assert_eq!(stats_of(&aggregate, "eve"), UserStats::new());
}

#[test]
fn missing_authors_are_counted_together_as_unknown() {
    let pr = pull_request(
        Author::Unknown,
        4,
        0,
        1,
        vec![ReviewRecord { author: Author::Unknown, disposition: Disposition::Approved }],
        vec![CommentRecord { author: known("Unknown") }],
    );
    let aggregate = Aggregate::new().absorb(&pr).unwrap();
    assert_eq!(logins(&aggregate), vec!["Unknown".to_string()]);
    let unknown = stats_of(&aggregate, "Unknown");
    assert_eq!((unknown.pull_requests, unknown.approvals, unknown.comments), (1, 1, 1));
}

#[test]
fn the_aggregate_holds_every_line_once() {
    let results = vec![
        repo(
            "a",
            vec![
                pull_request(known("alice"), 10, 2, 1, vec![review("bob", Disposition::Approved)], vec![]),
                pull_request(known("bob"), 7, 3, 1, vec![], vec![comment("alice")]),
            ],
        ),
        repo("b", vec![]),
        repo("c", vec![pull_request(known("alice"), 100, 50, 9, vec![], vec![])]),
    ];
    let aggregate = reduce(&results).unwrap();
    let added: u64 = aggregate.entries().iter().map(|e| e.stats.additions).sum();
    let removed: u64 = aggregate.entries().iter().map(|e| e.stats.deletions).sum();
    let written: u64 = aggregate.entries().iter().map(|e| e.stats.pull_requests).sum();
    assert_eq!(added + removed, 10 + 2 + 7 + 3 + 100 + 50);
    assert_eq!(written, 3);
    assert_eq!(logins(&aggregate), vec!["alice".to_string(), "bob".to_string()]);
    assert_eq!(stats_of(&aggregate, "alice").additions, 110);
}

#[test]
fn reducing_nothing_gives_an_empty_aggregate() {
    assert_eq!(reduce(&Vec::new()).unwrap().len(), 0);
    assert_eq!(reduce(&vec![repo("a", vec![])]).unwrap().len(), 0);
}

#[test]
fn lines_that_leave_64_bits_fail_the_reduction() {
    let results = vec![
        repo("a", vec![pull_request(known("alice"), u64::MAX, 0, 1, vec![], vec![])]),
        repo("b", vec![pull_request(known("alice"), 1, 0, 1, vec![], vec![])]),
    ];
    assert!(matches!(reduce(&results), Err(EngineError::Overflow)));
}
