//! Episodes from the catalogue, files found on disk, and what the library
//! reads from a file's path.

use vstd::prelude::*;
use vstd::slice::slice_subrange;
use crate::text::{chars_of, push_char, push_chars};

verus! {

/// One installment of a series, as the catalogue describes it.
#[derive(Debug, PartialEq, Eq, Hash, Default)]
pub struct Episode {
    pub title: String,
    /// The catalogue's episode number, as text; not always numeric.
    pub episode: String,
    pub imdb_id: String,
}

/// The content of an `Episode`.
pub struct EpisodeView {
    pub title: Seq<char>,
    pub episode: Seq<char>,
    pub imdb_id: Seq<char>,
}

impl View for Episode {
    type V = EpisodeView;

    open spec fn view(&self) -> EpisodeView {
        EpisodeView { title: self.title@, episode: self.episode@, imdb_id: self.imdb_id@ }
    }
}

impl Clone for Episode {
    fn clone(&self) -> (r: Self)
        ensures
            r@ == self@,
    {
        Episode {
            title: self.title.clone(),
            episode: self.episode.clone(),
            imdb_id: self.imdb_id.clone(),
        }
    }
}

impl Episode {
    pub fn new(title: &str, episode: &str, imdb_id: &str) -> (r: Episode)
        ensures
            r@ == (EpisodeView { title: title@, episode: episode@, imdb_id: imdb_id@ }),
    {
        Episode {
            title: title.to_string(),
            episode: episode.to_string(),
            imdb_id: imdb_id.to_string(),
        }
    }

    /// Whether two episodes are the same record: all three fields agree.
    pub fn same_as(&self, other: &Episode) -> (r: bool)
        ensures
            r == (self@ == other@),
    {
        self.title == other.title && self.episode == other.episode && self.imdb_id
            == other.imdb_id
    }
}

/// A file found under the scanned directory, identified by its path.
///
/// Paths are written with `/` between components, on every platform; a
/// backslash is an ordinary character of a component.
#[derive(Debug, PartialEq, Eq, Hash)]
pub struct LocalFile {
    pub path: String,
}

impl View for LocalFile {
    type V = Seq<char>;

    open spec fn view(&self) -> Seq<char> {
        self.path@
    }
}

impl Clone for LocalFile {
    fn clone(&self) -> (r: Self)
        ensures
            r@ == self@,
    {
        LocalFile { path: self.path.clone() }
    }
}

impl LocalFile {
    pub fn new(path: &str) -> (r: LocalFile)
        ensures
            r@ == path@,
    {
        LocalFile { path: path.to_string() }
    }

    /// Whether two files have the same path.
    pub fn same_as(&self, other: &LocalFile) -> (r: bool)
        ensures
            r == (self@ == other@),
    {
        self.path == other.path
    }

    /// The final component of the path.
    pub fn file_name(&self) -> (r: String)
        ensures
            r@ == file_name(self@),
    {
        file_name_of(self.path.as_str())
    }

    /// The extension of the file: what follows the last `.` of the final
    /// component, unless that dot opens the component.
    pub fn extension(&self) -> (r: Option<String>)
        ensures
            opt_view(r) == extension(self@),
    {
        let name = self.file_name();
        let cs = chars_of(name.as_str());
        let n: usize = cs.len();
        match find_last(&cs, '.') {
            Some(d) => {
                if d == 0 {
                    None
                } else {
                    let mut out = String::new();
                    push_chars(&mut out, slice_from(&cs, d + 1));
                    Some(out)
                }
            },
            None => None,
        }
    }

    /// The path of a file called `name` in the same directory.
    pub fn sibling(&self, name: &str) -> (r: String)
        ensures
            r@ == parent_prefix(self@) + name@,
    {
        let cs = chars_of(self.path.as_str());
        let n: usize = cs.len();
        let end = match find_last(&cs, '/') {
            Some(i) => i + 1,
            None => 0,
        };
        let mut out = String::new();
        push_chars(&mut out, slice_to(&cs, end));
        push_chars(&mut out, chars_of(name).as_slice());
        out
    }
}

/// The final component of a `/`-separated path.
pub fn file_name_of(path: &str) -> (r: String)
    ensures
        r@ == file_name(path@),
{
    let cs = chars_of(path);
    let n: usize = cs.len();
    let start = match find_last(&cs, '/') {
        Some(i) => i + 1,
        None => 0,
    };
    let mut out = String::new();
    push_chars(&mut out, slice_from(&cs, start));
    out
}

pub open spec fn opt_view(o: Option<String>) -> Option<Seq<char>> {
    match o {
        Some(s) => Some(s@),
        None => None,
    }
}

/// The position of the last `c` in `s`, or -1 when there is none.
pub open spec fn last_index(s: Seq<char>, c: char) -> int
    decreases s.len(),
{
    if s.len() == 0 {
        -1
    } else if s.last() == c {
        s.len() - 1
    } else {
        last_index(s.drop_last(), c)
    }
}

/// The final component of a path: what follows its last `/`.
pub open spec fn file_name(p: Seq<char>) -> Seq<char> {
    p.subrange(last_index(p, '/') + 1, p.len() as int)
}

/// The directory part of a path, up to and including its last `/`.
pub open spec fn parent_prefix(p: Seq<char>) -> Seq<char> {
    p.subrange(0, last_index(p, '/') + 1)
}

/// The extension of a path, if its final component has one.
pub open spec fn extension(p: Seq<char>) -> Option<Seq<char>> {
    let name = file_name(p);
    let d = last_index(name, '.');
    if d > 0 {
        Some(name.subrange(d + 1, name.len() as int))
    } else {
        None
    }
}

proof fn lemma_last_index(s: Seq<char>, c: char)
    ensures
        -1 <= last_index(s, c) < s.len(),
        last_index(s, c) >= 0 ==> s[last_index(s, c)] == c,
        forall|j: int| last_index(s, c) < j < s.len() ==> s[j] != c,
    decreases s.len(),
{
    if s.len() > 0 && s.last() != c {
        lemma_last_index(s.drop_last(), c);
        assert forall|j: int| last_index(s, c) < j < s.len() implies s[j] != c by {
            if j < s.len() - 1 {
                assert(s[j] == s.drop_last()[j]);
            }
        }
    }
}

fn find_last(s: &Vec<char>, c: char) -> (r: Option<usize>)
    ensures
        match r {
            Some(i) => i < s@.len() && i == last_index(s@, c),
            None => last_index(s@, c) == -1,
        },
{
    proof {
        lemma_last_index(s@, c);
    }
    let mut i: usize = s.len();
    while i > 0
        invariant
            i <= s@.len(),
            forall|j: int| i <= j < s@.len() ==> s@[j] != c,
            -1 <= last_index(s@, c) < s@.len(),
            last_index(s@, c) >= 0 ==> s@[last_index(s@, c)] == c,
            forall|j: int| last_index(s@, c) < j < s@.len() ==> s@[j] != c,
        decreases i,
    {
        if s[i - 1] == c {
            return Some(i - 1);
        }
        i = i - 1;
    }
    None
}

fn slice_from(s: &Vec<char>, start: usize) -> (r: &[char])
    requires
        start <= s@.len(),
    ensures
        r@ == s@.subrange(start as int, s@.len() as int),
{
    slice_subrange(s.as_slice(), start, s.len())
}

fn slice_to(s: &Vec<char>, end: usize) -> (r: &[char])
    requires
        end <= s@.len(),
    ensures
        r@ == s@.subrange(0, end as int),
{
    slice_subrange(s.as_slice(), 0, end)
}

/// Whether `char::is_alphanumeric` holds of `c` (Unicode Alphabetic or Numeric).
pub uninterp spec fn alphanumeric(c: char) -> bool;

/// Whether `char::is_whitespace` holds of `c` (Unicode White_Space).
pub uninterp spec fn whitespace(c: char) -> bool;

/// Relies on `char::is_alphanumeric`, a function of the character alone.
#[verifier::external_body]
fn is_alphanumeric(c: char) -> (r: bool)
    ensures
        r == alphanumeric(c),
{
    c.is_alphanumeric()
}

/// Relies on `char::is_whitespace`, a function of the character alone.
#[verifier::external_body]
fn is_whitespace(c: char) -> (r: bool)
    ensures
        r == whitespace(c),
{
    c.is_whitespace()
}

/// The characters a title keeps when it becomes part of a file name.
pub open spec fn kept_in_title(c: char) -> bool {
    alphanumeric(c) || whitespace(c)
}

/// The characters of `s` whose flag in `keep` is set, in order; a character
/// without a flag is dropped.
pub open spec fn select(s: Seq<char>, keep: Seq<bool>) -> Seq<char>
    decreases s.len(),
{
    if s.len() == 0 {
        s
    } else {
        let rest = select(s.drop_last(), keep);
        let i = s.len() - 1;
        if i < keep.len() && keep[i] {
            rest.push(s.last())
        } else {
            rest
        }
    }
}

/// Whether each character of a title is kept.
pub open spec fn title_classes(title: Seq<char>) -> Seq<bool> {
    Seq::new(title.len(), |i: int| kept_in_title(title[i]))
}

/// A title with every character dropped but letters, digits and white space.
pub open spec fn sanitized(title: Seq<char>) -> Seq<char> {
    select(title, title_classes(title))
}

/// Keeps the characters of `title` whose flag in `keep` is set, in order.
pub fn keep_flagged(title: &str, keep: &Vec<bool>) -> (r: String)
    ensures
        r@ == select(title@, keep@),
{
    let cs = chars_of(title);
    let mut out = String::new();
    let mut i: usize = 0;
    while i < cs.len()
        invariant
            i <= cs@.len(),
            cs@ == title@,
            out@ == select(cs@.take(i as int), keep@),
        decreases cs@.len() - i,
    {
        assert(cs@.take(i as int + 1).drop_last() =~= cs@.take(i as int));
        if i < keep.len() && keep[i] {
            push_char(&mut out, cs[i]);
        }
        i = i + 1;
    }
    assert(cs@.take(i as int) =~= cs@);
    out
}

/// Keeps the alphanumeric and white-space characters of `title`, in order.
pub fn sanitize_title(title: &str) -> (r: String)
    ensures
        r@ == sanitized(title@),
{
    let cs = chars_of(title);
    let mut keep: Vec<bool> = Vec::new();
    let mut i: usize = 0;
    while i < cs.len()
        invariant
            i <= cs@.len(),
            cs@ == title@,
            keep@ == title_classes(title@).take(i as int),
        decreases cs@.len() - i,
    {
        let c = cs[i];
        keep.push(is_alphanumeric(c) || is_whitespace(c));
        i = i + 1;
        assert(keep@ =~= title_classes(title@).take(i as int));
    }
    assert(keep@ =~= title_classes(title@));
    keep_flagged(title, &keep)
}

} // verus!
