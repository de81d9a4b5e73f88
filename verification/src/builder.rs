//! Small constructors for values placed in file 0, for tests and
//! examples.

use vstd::prelude::*;
use crate::ident::Ident;
use crate::span::{FileId, Span};
use vstd::string::StringSliceAdditionalSpecFns;

verus! {

/// A span of file 0.
pub fn _test_span(start: u32, end: u32) -> (r: Span)
    ensures
        r == (Span { file: FileId(0), start, end }),
{
    Span::new(FileId(0), start, end)
}

/// An identifier of file 0 spanning its own spelling from offset 0 (the
/// byte length truncated to 32 bits).
pub fn _test_ident(name: &str) -> (r: Ident)
    ensures
        r.name@ == name@,
        r.span == (Span { file: FileId(0), start: 0, end: name.spec_bytes().len() as usize as u32 }),
{
    Ident::new(name, _test_span(0, name.len() as u32))
}

} // verus!
