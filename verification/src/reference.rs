//! Reference names, and the normalisation that turns a free-form branch name
//! into text that can stand in a reference name.

use vstd::prelude::*;
use vstd::std_specs::cmp::PartialEqSpecImpl;
use vstd::string::{StrSliceExecFns, StringExecFns};

use crate::sequences::{
    first_index, is_first, lemma_first_index, lemma_first_index_absent, lemma_first_index_found,
};
use crate::text::{chars_of, string_of};

verus! {

/// The name of a branch on a remote, such as `refs/remotes/origin/main`.
#[derive(Debug)]
pub struct RemoteRefname {
    pub remote: String,
    pub branch: String,
}

/// What a [`RemoteRefname`] stands for: the remote's name and the branch's.
pub struct RemoteRefnameView {
    pub remote: Seq<char>,
    pub branch: Seq<char>,
}

impl RemoteRefnameView {
    /// The full reference name: `refs/remotes/`, the remote, a slash, the branch.
    pub open spec fn text(self) -> Seq<char> {
        "refs/remotes/"@ + self.remote + "/"@ + self.branch
    }
}

impl View for RemoteRefname {
    type V = RemoteRefnameView;

    open spec fn view(&self) -> RemoteRefnameView {
        RemoteRefnameView { remote: self.remote@, branch: self.branch@ }
    }
}

impl Clone for RemoteRefname {
    fn clone(&self) -> (r: Self)
        ensures
            r == *self,
    {
        RemoteRefname { remote: self.remote.clone(), branch: self.branch.clone() }
    }
}

impl PartialEq for RemoteRefname {
    fn eq(&self, other: &Self) -> (r: bool) {
        self.remote == other.remote && self.branch == other.branch
    }
}

impl PartialEqSpecImpl for RemoteRefname {
    open spec fn obeys_eq_spec() -> bool {
        true
    }

    open spec fn eq_spec(&self, other: &Self) -> bool {
        self@ == other@
    }
}

impl Eq for RemoteRefname {

}

impl RemoteRefname {
    /// The name of `branch` on `remote`.
    pub fn new(remote: &str, branch: &str) -> (r: Self)
        ensures
            r@.remote == remote@,
            r@.branch == branch@,
    {
        RemoteRefname { remote: String::from_str(remote), branch: String::from_str(branch) }
    }

    /// The branch's name, without the remote.
    pub fn branch(&self) -> (r: &str)
        ensures
            r@ == self@.branch,
    {
        self.branch.as_str()
    }

    /// The remote's name.
    pub fn remote(&self) -> (r: &str)
        ensures
            r@ == self@.remote,
    {
        self.remote.as_str()
    }

    /// The full reference name.
    pub fn text(&self) -> (r: String)
        ensures
            r@ == self@.text(),
    {
        let r = String::from_str("refs/remotes/").concat(self.remote.as_str()).concat("/").concat(
            self.branch.as_str(),
        );
        assert(r@ == self@.text());
        r
    }
}

/// A reference name, by the namespace it lies in.
#[derive(Debug)]
pub enum Refname {
    /// A name outside the namespaces below, kept as written.
    Other(String),
    /// A branch on a remote, under `refs/remotes/`.
    Remote(RemoteRefname),
    /// A local branch, under `refs/heads/`.
    Local(String),
    /// A virtual branch, under `refs/gitbutler/`.
    Virtual(String),
}

/// What a [`Refname`] stands for.
pub enum RefnameView {
    Other(Seq<char>),
    Remote(RemoteRefnameView),
    Local(Seq<char>),
    Virtual(Seq<char>),
}

impl RefnameView {
    /// The branch that the reference names, if it names one.
    pub open spec fn branch(self) -> Option<Seq<char>> {
        match self {
            RefnameView::Other(_) => None,
            RefnameView::Remote(r) => Some(r.branch),
            RefnameView::Local(b) => Some(b),
            RefnameView::Virtual(b) => Some(b),
        }
    }

    /// The full reference name.
    pub open spec fn text(self) -> Seq<char> {
        match self {
            RefnameView::Other(t) => t,
            RefnameView::Remote(r) => r.text(),
            RefnameView::Local(b) => "refs/heads/"@ + b,
            RefnameView::Virtual(b) => "refs/gitbutler/"@ + b,
        }
    }
}

impl View for Refname {
    type V = RefnameView;

    open spec fn view(&self) -> RefnameView {
        match self {
            Refname::Other(t) => RefnameView::Other(t@),
            Refname::Remote(r) => RefnameView::Remote(r@),
            Refname::Local(b) => RefnameView::Local(b@),
            Refname::Virtual(b) => RefnameView::Virtual(b@),
        }
    }
}

impl Clone for Refname {
    fn clone(&self) -> (r: Self)
        ensures
            r == *self,
    {
        match self {
            Refname::Other(t) => Refname::Other(t.clone()),
            Refname::Remote(n) => Refname::Remote(n.clone()),
            Refname::Local(b) => Refname::Local(b.clone()),
            Refname::Virtual(b) => Refname::Virtual(b.clone()),
        }
    }
}

impl PartialEq for Refname {
    fn eq(&self, other: &Self) -> (r: bool) {
        match (self, other) {
            (Refname::Other(a), Refname::Other(b)) => *a == *b,
            (Refname::Remote(a), Refname::Remote(b)) => *a == *b,
            (Refname::Local(a), Refname::Local(b)) => *a == *b,
            (Refname::Virtual(a), Refname::Virtual(b)) => *a == *b,
            _ => false,
        }
    }
}

impl PartialEqSpecImpl for Refname {
    open spec fn obeys_eq_spec() -> bool {
        true
    }

    open spec fn eq_spec(&self, other: &Self) -> bool {
        self@ == other@
    }
}

impl Eq for Refname {

}

impl Refname {
    /// The branch that the reference names: none for a name outside the
    /// branch namespaces.
    pub fn branch(&self) -> (r: Option<&str>)
        ensures
            match r {
                Some(b) => self@.branch() == Some(b@),
                None => self@.branch() is None,
            },
    {
        match self {
            Refname::Other(_) => None,
            Refname::Remote(n) => Some(n.branch()),
            Refname::Local(b) => Some(b.as_str()),
            Refname::Virtual(b) => Some(b.as_str()),
        }
    }

    /// The full reference name.
    pub fn text(&self) -> (r: String)
        ensures
            r@ == self@.text(),
    {
        match self {
            Refname::Other(t) => t.clone(),
            Refname::Remote(n) => n.text(),
            Refname::Local(b) => String::from_str("refs/heads/").concat(b.as_str()),
            Refname::Virtual(b) => String::from_str("refs/gitbutler/").concat(b.as_str()),
        }
    }
}

/// The optional remote reference name as its view.
pub open spec fn opt_remote(r: Option<RemoteRefname>) -> Option<RemoteRefnameView> {
    match r {
        Some(n) => Some(n@),
        None => None,
    }
}

/// The optional reference name as its view.
pub open spec fn opt_refname(r: Option<Refname>) -> Option<RefnameView> {
    match r {
        Some(n) => Some(n@),
        None => None,
    }
}

/// Whether two optional remote reference names are both absent or the same.
pub(crate) fn opt_remote_eq(a: &Option<RemoteRefname>, b: &Option<RemoteRefname>) -> (r: bool)
    ensures
        r == (opt_remote(*a) == opt_remote(*b)),
{
    match (a, b) {
        (Some(x), Some(y)) => *x == *y,
        (None, None) => true,
        _ => false,
    }
}

/// Whether two optional reference names are both absent or the same.
pub(crate) fn opt_refname_eq(a: &Option<Refname>, b: &Option<Refname>) -> (r: bool)
    ensures
        r == (opt_refname(*a) == opt_refname(*b)),
{
    match (a, b) {
        (Some(x), Some(y)) => *x == *y,
        (None, None) => true,
        _ => false,
    }
}

/// Whether `text` begins with `prefix`.
pub open spec fn begins_with(text: Seq<char>, prefix: Seq<char>) -> bool {
    text.len() >= prefix.len() && text.subrange(0, prefix.len() as int) == prefix
}

/// The slashes.
pub open spec fn is_slash() -> spec_fn(char) -> bool {
    |c: char| c == '/'
}

/// The remote reference name that a text stands for: `refs/remotes/`, then
/// the remote up to the next slash, then the branch. None where the text does
/// not begin so, or no slash follows.
pub open spec fn parsed_remote(text: Seq<char>) -> Option<RemoteRefnameView> {
    if begins_with(text, "refs/remotes/"@) {
        let rest = text.skip("refs/remotes/"@.len() as int);
        match first_index(rest, is_slash()) {
            Some(i) => Some(RemoteRefnameView { remote: rest.take(i), branch: rest.skip(i + 1) }),
            None => None,
        }
    } else {
        None
    }
}

/// The reference name that a text stands for, by the namespace that it
/// begins with. A text that names no branch stands for itself.
pub open spec fn parsed(text: Seq<char>) -> RefnameView {
    if begins_with(text, "refs/remotes/"@) {
        match parsed_remote(text) {
            Some(r) => RefnameView::Remote(r),
            None => RefnameView::Other(text),
        }
    } else if begins_with(text, "refs/heads/"@) {
        RefnameView::Local(text.skip("refs/heads/"@.len() as int))
    } else if begins_with(text, "refs/gitbutler/"@) {
        RefnameView::Virtual(text.skip("refs/gitbutler/"@.len() as int))
    } else {
        RefnameView::Other(text)
    }
}

/// The full name of the reference that a text stands for is the text.
pub proof fn lemma_parsed_text(text: Seq<char>)
    ensures
        parsed(text).text() == text,
{
    match parsed(text) {
        RefnameView::Remote(r) => {
            let n = "refs/remotes/"@.len() as int;
            let rest = text.skip(n);
            lemma_first_index(rest, is_slash());
            let i = first_index(rest, is_slash())->0;
            assert("/"@ =~= seq!['/']) by {
                reveal_strlit("/");
            }
            assert(rest =~= rest.take(i) + seq!['/'] + rest.skip(i + 1));
            assert(text =~= text.subrange(0, n) + rest);
            assert(r.text() =~= text);
        },
        RefnameView::Local(b) => {
            assert(text =~= "refs/heads/"@ + b);
        },
        RefnameView::Virtual(b) => {
            assert(text =~= "refs/gitbutler/"@ + b);
        },
        RefnameView::Other(_) => {},
    }
}

/// Whether the characters begin with this prefix.
fn has_prefix(chars: &Vec<char>, prefix: &str) -> (r: bool)
    ensures
        r == begins_with(chars@, prefix@),
{
    let wanted = chars_of(prefix);
    if chars.len() < wanted.len() {
        return false;
    }
    let mut i: usize = 0;
    while i < wanted.len()
        invariant
            i <= wanted.len() <= chars.len(),
            wanted@ == prefix@,
            forall|k: int| 0 <= k < i ==> chars@[k] == wanted@[k],
        decreases wanted.len() - i,
    {
        if chars[i] != wanted[i] {
            assert(chars@.subrange(0, wanted.len() as int)[i as int] != wanted@[i as int]);
            return false;
        }
        i = i + 1;
    }
    assert(chars@.subrange(0, wanted.len() as int) =~= wanted@);
    true
}

impl RemoteRefname {
    /// The remote reference name that a text stands for, if it stands for one.
    pub fn from_text(text: &str) -> (r: Option<RemoteRefname>)
        ensures
            opt_remote(r) == parsed_remote(text@),
    {
        let chars = chars_of(text);
        if !has_prefix(&chars, "refs/remotes/") {
            return None;
        }
        let start = "refs/remotes/".unicode_len();
        let ghost rest = text@.skip(start as int);
        let mut i: usize = start;
        while i < chars.len()
            invariant
                start <= i <= chars.len(),
                start == "refs/remotes/"@.len(),
                begins_with(text@, "refs/remotes/"@),
                chars@ == text@,
                rest == text@.skip(start as int),
                forall|k: int| 0 <= k < i - start ==> !is_slash()(#[trigger] rest[k]),
            decreases chars.len() - i,
        {
            if chars[i] == '/' {
                proof {
                    assert(rest[i - start] == chars@[i as int]);
                    assert(is_first(rest, is_slash(), i - start));
                    lemma_first_index_found(rest, is_slash(), i - start);
                    assert(rest.take(i - start) =~= chars@.subrange(start as int, i as int));
                    assert(rest.skip(i - start + 1) =~= chars@.subrange(
                        i + 1,
                        chars.len() as int,
                    ));
                }
                return Some(
                    RemoteRefname {
                        remote: string_of(&chars, start, i),
                        branch: string_of(&chars, i + 1, chars.len()),
                    },
                );
            }
            assert(rest[i - start] == chars@[i as int]);
            i = i + 1;
        }
        proof {
            lemma_first_index_absent(rest, is_slash());
        }
        None
    }
}

impl Refname {
    /// The reference name that a text stands for.
    pub fn from_text(text: &str) -> (r: Refname)
        ensures
            r@ == parsed(text@),
    {
        let chars = chars_of(text);
        if has_prefix(&chars, "refs/remotes/") {
            match RemoteRefname::from_text(text) {
                Some(r) => Refname::Remote(r),
                None => Refname::Other(text.to_owned()),
            }
        } else if has_prefix(&chars, "refs/heads/") {
            let start = "refs/heads/".unicode_len();
            let r = string_of(&chars, start, chars.len());
            assert(r@ =~= text@.skip(start as int));
            Refname::Local(r)
        } else if has_prefix(&chars, "refs/gitbutler/") {
            let start = "refs/gitbutler/".unicode_len();
            let r = string_of(&chars, start, chars.len());
            assert(r@ =~= text@.skip(start as int));
            Refname::Virtual(r)
        } else {
            Refname::Other(text.to_owned())
        }
    }
}

/// Why a free-form name cannot be turned into a branch name.
#[derive(Clone, Copy, Debug, PartialEq, Eq, Structural)]
pub enum NameError {
    /// Nothing is left of the name once it is rewritten and trimmed.
    Empty,
    /// What is left breaks a rule for reference names.
    Forbidden,
}

/// A character that a reference name cannot hold and that is rewritten to a
/// hyphen: one of `| + ^ ~ < > \ : *`.
pub open spec fn is_excluded(c: char) -> bool {
    c == '|' || c == '+' || c == '^' || c == '~' || c == '<' || c == '>' || c == '\\' || c == ':'
        || c == '*'
}

/// White space: the code points that Unicode gives the property `White_Space`.
pub open spec fn is_space(c: char) -> bool {
    let n = c as u32;
    (9 <= n <= 13) || n == 0x20 || n == 0x85 || n == 0xA0 || n == 0x1680 || (0x2000 <= n
        <= 0x200A) || n == 0x2028 || n == 0x2029 || n == 0x202F || n == 0x205F || n == 0x3000
}

/// A character that is cut from both ends of a name: a hyphen, a slash or a dot.
pub open spec fn is_trimmed(c: char) -> bool {
    c == '-' || c == '/' || c == '.'
}

/// `s` with every excluded character replaced by a hyphen, and every run of
/// white space by one hyphen.
pub open spec fn hyphenate(s: Seq<char>) -> Seq<char>
    decreases s.len(),
{
    if s.len() == 0 {
        Seq::empty()
    } else {
        let init = hyphenate(s.drop_last());
        let c = s.last();
        if is_space(c) {
            if s.len() >= 2 && is_space(s[s.len() - 2]) {
                init
            } else {
                init.push('-')
            }
        } else if is_excluded(c) {
            init.push('-')
        } else {
            init.push(c)
        }
    }
}

/// `s` without the hyphens, slashes and dots that it begins with.
pub open spec fn trim_start(s: Seq<char>) -> Seq<char>
    decreases s.len(),
{
    if s.len() > 0 && is_trimmed(s[0]) {
        trim_start(s.drop_first())
    } else {
        s
    }
}

/// `s` without the hyphens, slashes and dots that it ends with.
pub open spec fn trim_end(s: Seq<char>) -> Seq<char>
    decreases s.len(),
{
    if s.len() > 0 && is_trimmed(s.last()) {
        trim_end(s.drop_last())
    } else {
        s
    }
}

/// The rewritten and trimmed form of a free-form name.
pub open spec fn rewritten(name: Seq<char>) -> Seq<char> {
    trim_end(trim_start(hyphenate(name)))
}

/// A character that no reference name may hold: a control character, `?` or `[`.
pub open spec fn is_forbidden(c: char) -> bool {
    let n = c as u32;
    n < 0x20 || n == 0x7F || c == '?' || c == '['
}

/// Two characters that no reference name may hold side by side: `..`, `//`,
/// `@{`, and `/.`, which would begin a component with a dot.
pub open spec fn is_forbidden_pair(a: char, b: char) -> bool {
    (a == '.' && b == '.') || (a == '/' && b == '/') || (a == '@' && b == '{') || (a == '/' && b
        == '.')
}

/// Whether `s` ends with `.lock`.
pub open spec fn ends_with_lock(s: Seq<char>) -> bool {
    s.len() >= 5 && s.subrange(s.len() - 5, s.len() as int) == seq!['.', 'l', 'o', 'c', 'k']
}

/// Whether non-empty text keeps the rules for reference names that rewriting
/// and trimming do not already settle.
pub open spec fn is_permitted(s: Seq<char>) -> bool {
    &&& forall|i: int| 0 <= i < s.len() ==> !is_forbidden(#[trigger] s[i])
    &&& forall|i: int| 0 <= i < s.len() - 1 ==> !is_forbidden_pair(#[trigger] s[i], s[i + 1])
    &&& !ends_with_lock(s)
    &&& s != seq!['@']
}

/// What normalising a free-form name gives: its rewritten form, or why there
/// is none.
pub open spec fn normalized(name: Seq<char>) -> Result<Seq<char>, NameError> {
    let s = rewritten(name);
    if s.len() == 0 {
        Err(NameError::Empty)
    } else if !is_permitted(s) {
        Err(NameError::Forbidden)
    } else {
        Ok(s)
    }
}

fn excluded(c: char) -> (r: bool)
    ensures
        r == is_excluded(c),
{
    c == '|' || c == '+' || c == '^' || c == '~' || c == '<' || c == '>' || c == '\\' || c == ':'
        || c == '*'
}

fn space(c: char) -> (r: bool)
    ensures
        r == is_space(c),
{
    let n: u32 = c as u32;
    (9 <= n && n <= 13) || n == 0x20 || n == 0x85 || n == 0xA0 || n == 0x1680 || (0x2000 <= n && n
        <= 0x200A) || n == 0x2028 || n == 0x2029 || n == 0x202F || n == 0x205F || n == 0x3000
}

fn trimmed(c: char) -> (r: bool)
    ensures
        r == is_trimmed(c),
{
    c == '-' || c == '/' || c == '.'
}

fn forbidden(c: char) -> (r: bool)
    ensures
        r == is_forbidden(c),
{
    let n: u32 = c as u32;
    n < 0x20 || n == 0x7F || c == '?' || c == '['
}

fn forbidden_pair(a: char, b: char) -> (r: bool)
    ensures
        r == is_forbidden_pair(a, b),
{
    (a == '.' && b == '.') || (a == '/' && b == '/') || (a == '@' && b == '{') || (a == '/' && b
        == '.')
}

/// Rewrites excluded characters and runs of white space to hyphens.
fn hyphenated(name: &Vec<char>) -> (r: Vec<char>)
    ensures
        r@ == hyphenate(name@),
{
    let mut out: Vec<char> = Vec::new();
    let mut after_space = false;
    let mut i: usize = 0;
    while i < name.len()
        invariant
            i <= name.len(),
            out@ == hyphenate(name@.take(i as int)),
            after_space == (i > 0 && is_space(name@[i - 1])),
        decreases name.len() - i,
    {
        let c = name[i];
        proof {
            let t = name@.take(i + 1);
            assert(t.drop_last() == name@.take(i as int));
            assert(t.last() == c);
            assert(i > 0 ==> t[t.len() - 2] == name@[i - 1]);
        }
        if space(c) {
            if !after_space {
                out.push('-');
            }
            after_space = true;
        } else {
            if excluded(c) {
                out.push('-');
            } else {
                out.push(c);
            }
            after_space = false;
        }
        i = i + 1;
    }
    assert(name@.take(name.len() as int) == name@);
    out
}

/// Where the text begins once the hyphens, slashes and dots before it are cut.
fn start_of(s: &Vec<char>) -> (r: usize)
    ensures
        r <= s.len(),
        trim_start(s@) == s@.subrange(r as int, s.len() as int),
{
    let mut i: usize = 0;
    assert(s@.subrange(0, s.len() as int) == s@);
    while i < s.len() && trimmed(s[i])
        invariant
            i <= s.len(),
            trim_start(s@) == trim_start(s@.subrange(i as int, s.len() as int)),
        decreases s.len() - i,
    {
        assert(s@.subrange(i as int, s.len() as int).drop_first() == s@.subrange(
            i + 1,
            s.len() as int,
        ));
        i = i + 1;
    }
    i
}

/// Where the text from `from` on ends once the hyphens, slashes and dots
/// behind it are cut.
fn end_of(s: &Vec<char>, from: usize) -> (r: usize)
    requires
        from <= s.len(),
    ensures
        from <= r <= s.len(),
        trim_end(s@.subrange(from as int, s.len() as int)) == s@.subrange(from as int, r as int),
{
    let mut j: usize = s.len();
    while j > from && trimmed(s[j - 1])
        invariant
            from <= j <= s.len(),
            trim_end(s@.subrange(from as int, s.len() as int)) == trim_end(
                s@.subrange(from as int, j as int),
            ),
        decreases j,
    {
        assert(s@.subrange(from as int, j as int).drop_last() == s@.subrange(
            from as int,
            j - 1,
        ));
        j = j - 1;
    }
    j
}

/// Whether the text between `from` and `to` keeps the rules for reference names.
fn permitted(s: &Vec<char>, from: usize, to: usize) -> (r: bool)
    requires
        from < to <= s.len(),
    ensures
        r == is_permitted(s@.subrange(from as int, to as int)),
{
    let ghost t = s@.subrange(from as int, to as int);
    let mut i: usize = from;
    while i < to
        invariant
            from <= i <= to <= s.len(),
            t == s@.subrange(from as int, to as int),
            forall|k: int| 0 <= k < i - from ==> !is_forbidden(#[trigger] t[k]),
            forall|k: int| 0 <= k < i - from - 1 ==> !is_forbidden_pair(#[trigger] t[k], t[k + 1]),
        decreases to - i,
    {
        assert(t[i - from] == s@[i as int]);
        if forbidden(s[i]) {
            return false;
        }
        if i > from {
            assert(t[i - from - 1] == s@[i - 1]);
            if forbidden_pair(s[i - 1], s[i]) {
                assert(is_forbidden_pair(t[i - from - 1], t[i - from - 1 + 1]));
                return false;
            }
        }
        i = i + 1;
    }
    let n = to - from;
    if n >= 5 && s[to - 5] == '.' && s[to - 4] == 'l' && s[to - 3] == 'o' && s[to - 2] == 'c' && s[to
        - 1] == 'k' {
        assert(t.subrange(t.len() - 5, t.len() as int) == seq!['.', 'l', 'o', 'c', 'k']);
        return false;
    }
    if n == 1 && s[from] == '@' {
        assert(t == seq!['@']);
        return false;
    }
    proof {
        if ends_with_lock(t) {
            let u = t.subrange(t.len() - 5, t.len() as int);
            assert(u[0] == '.' && u[1] == 'l' && u[2] == 'o' && u[3] == 'c' && u[4] == 'k');
            assert(false);
        }
        if t == seq!['@'] {
            assert(t.len() == 1 && t[0] == '@');
            assert(false);
        }
    }
    true
}

/// Turns a free-form name into one that can stand in a reference name.
///
/// Each of `| + ^ ~ < > \ : *` becomes a hyphen, each run of white space one
/// hyphen, and the hyphens, slashes and dots at both ends are cut. The name is
/// refused if nothing is left, or if what is left holds a control character,
/// `?`, `[`, `..`, `//`, `@{` or `/.`, ends with `.lock`, or is `@` alone.
pub fn normalize_branch_name(name: &str) -> (r: Result<String, NameError>)
    ensures
        match r {
            Ok(s) => normalized(name@) == Ok::<Seq<char>, NameError>(s@),
            Err(e) => normalized(name@) == Err::<Seq<char>, NameError>(e),
        },
{
    let chars = chars_of(name);
    let dashed = hyphenated(&chars);
    let from = start_of(&dashed);
    let to = end_of(&dashed, from);
    if from == to {
        return Err(NameError::Empty);
    }
    if !permitted(&dashed, from, to) {
        return Err(NameError::Forbidden);
    }
    Ok(string_of(&dashed, from, to))
}

} // verus!
