use vstd::prelude::*;
use crate::time::Timestamp;

verus! {

/// The login under which activity without an author is counted.
pub open spec fn unknown_login() -> Seq<char> {
    "Unknown"@
}

/// Who a pull request, a review or a comment comes from. The account may be
/// missing or deleted.
#[derive(Clone, Debug, PartialEq, Eq)]
pub enum Author {
    Known(String),
    Unknown,
}

impl Author {
    /// The login that this author's activity is counted under.
    pub open spec fn login_view(self) -> Seq<char> {
        match self {
            Author::Known(login) => login@,
            Author::Unknown => unknown_login(),
        }
    }

    /// An author from what a response holds: a login, or nothing.
    pub fn from_login(login: Option<String>) -> (a: Author)
        ensures
            a == match login {
                Some(l) => Author::Known(l),
                None => Author::Unknown,
            },
    {
        match login {
            Some(l) => Author::Known(l),
            None => Author::Unknown,
        }
    }

    /// The login that this author's activity is counted under.
    pub fn login(&self) -> (s: String)
        ensures
            s@ == self.login_view(),
    {
        match self {
            Author::Known(login) => login.clone(),
            Author::Unknown => "Unknown".to_owned(),
        }
    }
}

/// The outcome of a review.
#[derive(Clone, Copy, Debug, PartialEq, Eq, Structural)]
pub enum Disposition {
    Approved,
    Commented,
    ChangesRequested,
    /// Any state that is none of the three above; it counts for nothing.
    Other,
}

/// The disposition that a review state names.
pub open spec fn disposition_of(state: Seq<char>) -> Disposition {
    if state == "APPROVED"@ {
        Disposition::Approved
    } else if state == "COMMENTED"@ {
        Disposition::Commented
    } else if state == "CHANGES_REQUESTED"@ {
        Disposition::ChangesRequested
    } else {
        Disposition::Other
    }
}

/// The three states that count are told apart.
pub proof fn lemma_states_are_told_apart()
    ensures
        disposition_of("APPROVED"@) == Disposition::Approved,
        disposition_of("COMMENTED"@) == Disposition::Commented,
        disposition_of("CHANGES_REQUESTED"@) == Disposition::ChangesRequested,
        disposition_of(Seq::empty()) == Disposition::Other,
{
    reveal_strlit("APPROVED");
    reveal_strlit("COMMENTED");
    reveal_strlit("CHANGES_REQUESTED");
    assert("APPROVED"@.len() == 8);
    assert("COMMENTED"@.len() == 9);
    assert("CHANGES_REQUESTED"@.len() == 17);
}

/// Whether two texts are the same.
fn same_text(a: &str, b: &str) -> (same: bool)
    ensures
        same == (a@ == b@),
{
    let left = a.to_owned();
    let right = b.to_owned();
    left == right
}

impl Disposition {
    /// Reads a review state as the remote side writes it.
    pub fn from_state(state: &str) -> (d: Disposition)
        ensures
            d == disposition_of(state@),
    {
        if same_text(state, "APPROVED") {
            Disposition::Approved
        } else if same_text(state, "COMMENTED") {
            Disposition::Commented
        } else if same_text(state, "CHANGES_REQUESTED") {
            Disposition::ChangesRequested
        } else {
            Disposition::Other
        }
    }
}

/// One review of a pull request.
#[derive(Clone, Debug, PartialEq, Eq)]
pub struct ReviewRecord {
    pub author: Author,
    pub disposition: Disposition,
}

/// One comment on a pull request.
#[derive(Clone, Debug, PartialEq, Eq)]
pub struct CommentRecord {
    pub author: Author,
}

/// One merged pull request with the reviews and comments that came with it.
#[derive(Clone, Debug, PartialEq, Eq)]
pub struct PullRequestRecord {
    pub merged_at: Timestamp,
    pub additions: u64,
    pub deletions: u64,
    pub changed_files: u64,
    pub author: Author,
    pub reviews: Vec<ReviewRecord>,
    pub comments: Vec<CommentRecord>,
}

} // verus!
