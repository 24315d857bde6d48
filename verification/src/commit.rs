//! One commit of the history, as the analyses see it.

use crate::instant::{representable, Instant};
use vstd::prelude::*;
use vstd::string::*;

verus! {

/// A commit: who wrote it, when, and which paths it changed against its
/// first parent. A commit without a parent changes no path.
#[derive(Debug)]
pub struct CommitRecord {
    pub author_name: String,
    pub author_email: String,
    /// The author's time, on the UTC time line.
    pub timestamp: Instant,
    pub changed_paths: Vec<String>,
}

/// The name that stands for an author who gave none.
pub open spec fn unknown_name() -> Seq<char> {
    "Unknown"@
}

/// The address that stands for an author who gave none.
pub open spec fn unknown_email() -> Seq<char> {
    "unknown@example.com"@
}

/// The text under which an author's commits are gathered: the name, a space,
/// and the address in angle brackets.
pub open spec fn key_text(name: Seq<char>, email: Seq<char>) -> Seq<char> {
    name + " <"@ + email + ">"@
}

/// The author's time of a commit, given in seconds from the epoch: the epoch
/// itself where the calendar cannot represent the seconds.
pub open spec fn commit_instant(seconds: int) -> int {
    if representable(seconds) {
        seconds
    } else {
        0
    }
}

impl CommitRecord {
    /// The commit as read from a repository. A missing name becomes
    /// `Unknown`, a missing address `unknown@example.com`, a time that the
    /// calendar cannot represent the epoch; `changed_paths` is `None` for a
    /// commit without a parent, which then changes no path.
    pub fn new(
        author_name: Option<&str>,
        author_email: Option<&str>,
        seconds: i64,
        changed_paths: Option<Vec<String>>,
    ) -> (commit: CommitRecord)
        ensures
            commit.author_name@ == (match author_name {
                Some(name) => name@,
                None => unknown_name(),
            }),
            commit.author_email@ == (match author_email {
                Some(email) => email@,
                None => unknown_email(),
            }),
            commit.timestamp@ == commit_instant(seconds as int),
            commit.changed_paths@ == (match changed_paths {
                Some(paths) => paths@,
                None => Seq::<String>::empty(),
            }),
    {
        let name = match author_name {
            Some(name) => name.to_owned(),
            None => "Unknown".to_owned(),
        };
        let email = match author_email {
            Some(email) => email.to_owned(),
            None => "unknown@example.com".to_owned(),
        };
        let paths = match changed_paths {
            Some(paths) => paths,
            None => Vec::new(),
        };
        CommitRecord {
            author_name: name,
            author_email: email,
            timestamp: Instant::from_timestamp_or_epoch(seconds),
            changed_paths: paths,
        }
    }

    /// The text under which this commit's author is counted.
    pub open spec fn author_key(&self) -> Seq<char> {
        key_text(self.author_name@, self.author_email@)
    }

    /// The text under which this commit's author is counted, as in
    /// `Ada <ada@example.com>`.
    pub fn identity(&self) -> (key: String)
        ensures
            key@ == self.author_key(),
    {
        let mut key = self.author_name.clone();
        key.append(" <");
        key.append(self.author_email.as_str());
        key.append(">");
        key
    }
}

} // verus!
