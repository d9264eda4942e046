//! Commits and their authors, as far as branch listings read them.

use vstd::prelude::*;
use vstd::std_specs::cmp::PartialEqSpecImpl;

use crate::oid::Oid;
use crate::text::{opt_text, opt_text_eq};

verus! {

/// Who wrote a commit. Either part may be missing from the commit.
#[derive(Debug)]
pub struct Author {
    /// The author's name.
    pub name: Option<String>,
    /// The author's e-mail address.
    pub email: Option<String>,
}

/// What an [`Author`] stands for.
pub struct AuthorView {
    pub name: Option<Seq<char>>,
    pub email: Option<Seq<char>>,
}

impl View for Author {
    type V = AuthorView;

    open spec fn view(&self) -> AuthorView {
        AuthorView { name: opt_text(self.name), email: opt_text(self.email) }
    }
}

impl Clone for Author {
    fn clone(&self) -> (r: Self)
        ensures
            r == *self,
    {
        Author { name: self.name.clone(), email: self.email.clone() }
    }
}

impl PartialEq for Author {
    fn eq(&self, other: &Self) -> (r: bool) {
        opt_text_eq(&self.name, &other.name) && opt_text_eq(&self.email, &other.email)
    }
}

impl PartialEqSpecImpl for Author {
    open spec fn obeys_eq_spec() -> bool {
        true
    }

    open spec fn eq_spec(&self, other: &Self) -> bool {
        self@ == other@
    }
}

impl Eq for Author {

}

/// A commit: its id, when it was made, and by whom.
#[derive(Debug)]
pub struct Commit {
    pub id: Oid,
    /// Seconds since the epoch.
    pub time_seconds: i64,
    pub author: Author,
}

/// What a [`Commit`] stands for.
pub struct CommitView {
    pub id: Oid,
    pub time_seconds: i64,
    pub author: AuthorView,
}

impl View for Commit {
    type V = CommitView;

    open spec fn view(&self) -> CommitView {
        CommitView { id: self.id, time_seconds: self.time_seconds, author: self.author@ }
    }
}

impl Clone for Commit {
    fn clone(&self) -> (r: Self)
        ensures
            r == *self,
    {
        Commit { id: self.id, time_seconds: self.time_seconds, author: self.author.clone() }
    }
}

} // verus!
