//! Source spans and a file registry.
//!
//! Spans are byte-offset ranges into a file identified by [`FileId`].
//! The [`FileRegistry`] owns file paths and sources; diagnostic rendering
//! resolves a [`Span`] back to its source text through the registry.

use vstd::prelude::*;
use std::path::PathBuf;
use vstd::utf8::{encode_utf8, is_char_boundary};
use vstd::string::StringSliceAdditionalSpecFns;

verus! {

/// The index reserved for synthesised nodes that have no source file.
pub const SYNTHETIC_FILE_INDEX: u32 = 4294967295u32;

/// Index of a source file in a [`FileRegistry`].
#[derive(Debug, Clone, Copy, PartialEq, Eq, Hash, PartialOrd, Ord, Structural)]
pub struct FileId(pub u32);

impl FileId {
    /// The file id carried by synthesised spans.
    pub fn synthetic() -> (r: FileId)
        ensures
            r.0 == SYNTHETIC_FILE_INDEX,
    {
        FileId(SYNTHETIC_FILE_INDEX)
    }
}

/// A byte range `[start, end)` in one file.
#[derive(Debug, Clone, Copy, PartialEq, Eq, Hash, Structural)]
pub struct Span {
    pub file: FileId,
    pub start: u32,
    pub end: u32,
}

impl Span {
    pub open spec fn spec_len(self) -> nat {
        if self.end >= self.start {
            (self.end - self.start) as nat
        } else {
            0
        }
    }

    pub open spec fn spec_synthetic() -> Span {
        Span { file: FileId(SYNTHETIC_FILE_INDEX), start: 0, end: 0 }
    }

    /// The leftmost-to-rightmost extent of two spans.
    pub open spec fn spec_merge(self, other: Span) -> Span {
        Span {
            file: self.file,
            start: if self.start <= other.start { self.start } else { other.start },
            end: if self.end >= other.end { self.end } else { other.end },
        }
    }

    pub fn new(file: FileId, start: u32, end: u32) -> (r: Span)
        ensures
            r == (Span { file, start, end }),
    {
        Span { file, start, end }
    }

    /// A zero-width span used for synthesised AST nodes.
    pub fn synthetic() -> (r: Span)
        ensures
            r == Span::spec_synthetic(),
    {
        Span { file: FileId(SYNTHETIC_FILE_INDEX), start: 0, end: 0 }
    }

    pub fn is_synthetic(&self) -> (r: bool)
        ensures
            r == (self.file.0 == SYNTHETIC_FILE_INDEX),
    {
        self.file.0 == SYNTHETIC_FILE_INDEX
    }

    /// Length in bytes; a reversed span has length zero.
    pub fn len(&self) -> (r: u32)
        ensures
            r == self.spec_len(),
    {
        self.end.saturating_sub(self.start)
    }

    pub fn is_empty(&self) -> (r: bool)
        ensures
            r == (self.spec_len() == 0),
    {
        self.len() == 0
    }

    /// Merge two spans of the same file into their combined extent.
    pub fn merge(self, other: Span) -> (r: Span)
        requires
            self.file == other.file,
        ensures
            r == self.spec_merge(other),
    {
        Span {
            file: self.file,
            start: if self.start <= other.start { self.start } else { other.start },
            end: if self.end >= other.end { self.end } else { other.end },
        }
    }
}

/// Merging is commutative and the result covers both operands.
pub proof fn lemma_merge_covers(a: Span, b: Span)
    requires
        a.file == b.file,
    ensures
        a.spec_merge(b) == b.spec_merge(a),
        a.spec_merge(b).start <= a.start,
        a.spec_merge(b).start <= b.start,
        a.spec_merge(b).end >= a.end,
        a.spec_merge(b).end >= b.end,
        a.spec_merge(b).start == a.start || a.spec_merge(b).start == b.start,
        a.spec_merge(b).end == a.end || a.spec_merge(b).end == b.end,
{
}

/// Standard library path buffer, held opaquely.
#[verifier::external_type_specification]
#[verifier::external_body]
pub struct ExPathBuf(PathBuf);

/// Cloning a path buffer (std `Clone for PathBuf`); nothing is claimed
/// of the copy beyond its type.
pub assume_specification[ <PathBuf as Clone>::clone ](p: &PathBuf) -> PathBuf;

/// `[start, end)` is a well-formed range of `b` whose ends are on
/// UTF-8 character boundaries.
pub open spec fn range_in(b: Seq<u8>, start: int, end: int) -> bool {
    &&& 0 <= start <= end <= b.len()
    &&& is_char_boundary(b, start)
    &&& is_char_boundary(b, end)
}

/// One registered source file.
#[derive(Debug, Clone)]
pub struct FileEntry {
    pub path: PathBuf,
    pub source: String,
}

/// A registry of source files, indexed by [`FileId`].
#[derive(Debug, Clone)]
pub struct FileRegistry {
    entries: Vec<FileEntry>,
}

/// `s.get(start..end)` for a string slice: `Some` exactly when the range
/// is in bounds and both ends lie on character boundaries.
#[verifier::external_body]
pub(crate) fn str_get_range(s: &str, start: usize, end: usize) -> (r: Option<&str>)
    ensures
        r is Some <==> range_in(s.spec_bytes(), start as int, end as int),
        r matches Some(t) ==> t.spec_bytes() == s.spec_bytes().subrange(start as int, end as int),
{
    s.get(start..end)
}

impl FileRegistry {
    pub closed spec fn spec_entries(&self) -> Seq<FileEntry> {
        self.entries@
    }

    /// The entry registered for `file`, if any; synthetic ids have none.
    pub open spec fn spec_get(&self, file: FileId) -> Option<FileEntry> {
        if file.0 == SYNTHETIC_FILE_INDEX || file.0 >= self.spec_entries().len() {
            None
        } else {
            Some(self.spec_entries()[file.0 as int])
        }
    }

    pub fn new() -> (r: FileRegistry)
        ensures
            r.spec_entries() == Seq::<FileEntry>::empty(),
    {
        FileRegistry { entries: Vec::new() }
    }

    /// Register a file; its id is its position in registration order.
    pub fn add(&mut self, path: PathBuf, source: &str) -> (id: FileId)
        requires
            old(self).spec_entries().len() <= u32::MAX,
        ensures
            id.0 == old(self).spec_entries().len(),
            final(self).spec_entries().len() == old(self).spec_entries().len() + 1,
            final(self).spec_entries().subrange(0, id.0 as int) == old(self).spec_entries(),
            final(self).spec_entries()[id.0 as int].path == path,
            final(self).spec_entries()[id.0 as int].source@ == source@,
    {
        let id = FileId(self.entries.len() as u32);
        self.entries.push(FileEntry { path, source: crate::text::owned(source) });
        proof {
            assert(self.entries@.subrange(0, id.0 as int) =~= old(self).entries@);
        }
        id
    }

    pub fn get(&self, file: FileId) -> (r: Option<&FileEntry>)
        ensures
            r matches Some(e) ==> self.spec_get(file) == Some(*e),
            r is None ==> self.spec_get(file) is None,
    {
        if file.0 == SYNTHETIC_FILE_INDEX {
            return None;
        }
        let i = file.0 as usize;
        if i < self.entries.len() {
            Some(&self.entries[i])
        } else {
            None
        }
    }

    pub fn source(&self, file: FileId) -> (r: Option<&str>)
        ensures
            r matches Some(s) ==> self.spec_get(file) matches Some(e) && s@ == e.source@,
            r is None ==> self.spec_get(file) is None,
    {
        match self.get(file) {
            Some(e) => Some(e.source.as_str()),
            None => None,
        }
    }

    pub fn path(&self, file: FileId) -> (r: Option<&PathBuf>)
        ensures
            r matches Some(p) ==> self.spec_get(file) matches Some(e) && *p == e.path,
            r is None ==> self.spec_get(file) is None,
    {
        match self.get(file) {
            Some(e) => Some(&e.path),
            None => None,
        }
    }

    /// The source text covered by `span`: `None` when the file is unknown
    /// or the byte range is out of bounds or splits a character.
    pub fn slice(&self, span: Span) -> (r: Option<&str>)
        ensures
            r is Some <==> (self.spec_get(span.file) is Some
                && range_in(encode_utf8(self.spec_get(span.file).unwrap().source@), span.start as int, span.end as int)),
            r matches Some(t) ==> t.spec_bytes()
                == encode_utf8(self.spec_get(span.file).unwrap().source@).subrange(span.start as int, span.end as int),
    {
        let source = match self.source(span.file) {
            Some(s) => s,
            None => return None,
        };
        str_get_range(source, span.start as usize, span.end as usize)
    }

    /// Every registered file with its id, in registration order.
    pub fn iter(&self) -> (r: Vec<(FileId, &FileEntry)>)
        requires
            self.spec_entries().len() <= u32::MAX + 1,
        ensures
            r@.len() == self.spec_entries().len(),
            forall|i: int| #![trigger r@[i]] 0 <= i < r@.len() ==> r@[i].0.0 == i && *r@[i].1 == self.spec_entries()[i],
    {
        let mut out: Vec<(FileId, &FileEntry)> = Vec::new();
        let mut i: usize = 0;
        while i < self.entries.len()
            invariant
                i <= self.entries@.len(),
                self.entries@.len() <= u32::MAX + 1,
                out@.len() == i,
                forall|j: int| #![trigger out@[j]] 0 <= j < i ==> out@[j].0.0 == j && *out@[j].1 == self.entries@[j],
            decreases self.entries@.len() - i,
        {
            let fid = FileId(i as u32);
            assert(fid.0 == i);
            out.push((fid, &self.entries[i]));
            i += 1;
        }
        out
    }
}

} // verus!
