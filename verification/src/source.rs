//! Source text, split into lines once.

use vstd::prelude::*;
use vstd::string::*;

use crate::diagnostic;
use crate::lines;

verus! {

/// The line of 1-based number `n`, if there is one.
pub open spec fn line_at(lines: Seq<Seq<char>>, n: nat) -> Option<Seq<char>> {
    if 1 <= n <= lines.len() {
        Some(lines[n - 1])
    } else {
        None
    }
}

/// The text of an optional line.
pub open spec fn line_text(line: Option<&str>) -> Option<Seq<char>> {
    match line {
        Some(s) => Some(s@),
        None => None,
    }
}

/// The lines of a source text. Built once per text, used for many diagnostics.
#[derive(Debug, Clone)]
pub struct SourceCache<'a> {
    lines: Vec<&'a str>,
}

impl<'a> View for SourceCache<'a> {
    type V = Seq<Seq<char>>;

    closed spec fn view(&self) -> Seq<Seq<char>> {
        lines::texts(self.lines@)
    }
}

impl<'a> SourceCache<'a> {
    /// Splits `source` into lines.
    pub fn new(source: &'a str) -> (r: Self)
        ensures
            r@ == lines::lines_of(source@),
    {
        SourceCache { lines: lines::split_lines(source) }
    }

    /// The line of 1-based number `line_num_1based`. `None` for 0 and past the end.
    pub fn line(&self, line_num_1based: usize) -> (r: Option<&str>)
        ensures
            line_text(r) == line_at(self@, line_num_1based as nat),
            r is Some <==> 1 <= line_num_1based <= self@.len(),
            r matches Some(s) ==> s@ == self@[line_num_1based - 1],
    {
        if line_num_1based == 0 || line_num_1based > self.lines.len() {
            return None;
        }
        Some(self.lines[line_num_1based - 1])
    }

    /// The number of lines.
    pub fn len(&self) -> (r: usize)
        ensures
            r == self@.len(),
    {
        self.lines.len()
    }

    /// Whether there is no line.
    pub fn is_empty(&self) -> (r: bool)
        ensures
            r == (self@.len() == 0),
    {
        self.lines.len() == 0
    }
}

/// The lines of a source text, owned.
#[derive(Debug, Clone)]
pub(crate) struct OwnedSource(Vec<String>);

impl View for OwnedSource {
    type V = Seq<Seq<char>>;

    closed spec fn view(&self) -> Seq<Seq<char>> {
        diagnostic::string_views(self.0@)
    }
}

impl OwnedSource {
    fn new(source: &str) -> (r: Self)
        ensures
            r@ == lines::lines_of(source@),
    {
        let borrowed = lines::split_lines(source);
        let mut owned: Vec<String> = Vec::new();
        let n = borrowed.len();
        let mut i: usize = 0;
        while i < n
            invariant
                i <= n,
                n == borrowed@.len(),
                diagnostic::string_views(owned@) == lines::texts(borrowed@).take(i as int),
            decreases n - i,
        {
            let ghost before = owned@;
            owned.push(borrowed[i].to_owned());
            i += 1;
            assert(diagnostic::string_views(owned@) == lines::texts(borrowed@).take(i as int)) by {
                assert(diagnostic::string_views(owned@) == diagnostic::string_views(before).push(
                    borrowed@[i - 1]@,
                ));
            }
        }
        assert(lines::texts(borrowed@).take(n as int) == lines::texts(borrowed@));
        OwnedSource(owned)
    }

    fn line(&self, n: usize) -> (r: Option<&str>)
        ensures
            line_text(r) == line_at(self@, n as nat),
    {
        if n == 0 || n > self.0.len() {
            None
        } else {
            Some(self.0[n - 1].as_str())
        }
    }

    fn len(&self) -> (r: usize)
        ensures
            r == self@.len(),
    {
        self.0.len()
    }
}

/// Lines that are borrowed or owned.
pub(crate) enum CacheRef<'a, 'src> {
    Borrowed(&'a SourceCache<'src>),
    Owned(OwnedSource),
}

impl<'a, 'src> View for CacheRef<'a, 'src> {
    type V = Seq<Seq<char>>;

    closed spec fn view(&self) -> Seq<Seq<char>> {
        match self {
            CacheRef::Borrowed(c) => c@,
            CacheRef::Owned(o) => o@,
        }
    }
}

impl<'a, 'src> CacheRef<'a, 'src> {
    pub(crate) fn borrowed(cache: &'a SourceCache<'src>) -> (r: Self)
        ensures
            r@ == cache@,
    {
        CacheRef::Borrowed(cache)
    }

    pub(crate) fn owned(source: &str) -> (r: Self)
        ensures
            r@ == lines::lines_of(source@),
    {
        CacheRef::Owned(OwnedSource::new(source))
    }

    pub(crate) fn line(&self, n: usize) -> (r: Option<&str>)
        ensures
            line_text(r) == line_at(self@, n as nat),
    {
        match self {
            CacheRef::Borrowed(c) => c.line(n),
            CacheRef::Owned(o) => o.line(n),
        }
    }

    pub(crate) fn len(&self) -> (r: usize)
        ensures
            r == self@.len(),
    {
        match self {
            CacheRef::Borrowed(c) => c.len(),
            CacheRef::Owned(o) => o.len(),
        }
    }
}

} // verus!
