//! Destination resolution and archive dispatch for a single-shot RAR
//! unpacking utility.
//!
//! The library is the pure core of the tool: it parses the invocation,
//! selects the library root's environment variable by mode, composes the
//! destination path, picks the RAR archive out of a directory listing, and
//! drives the run as a small state machine. All filesystem, environment and
//! subprocess work is left to the surrounding binary, which feeds plain
//! values in and carries the requested actions out.

use vstd::prelude::*;

pub mod args;
pub mod dispatch;
pub mod finder;
pub mod paths;

verus! {

/// Run mode: a single-archive movie unpack, or a TV unpack bounded by an
/// episode cap. TV is the default; the movie flag selects Movie.
#[derive(Clone, Copy, PartialEq, Eq, Structural, Debug)]
pub enum Mode {
    Movie,
    Tv,
}

/// The abstract value of an optional byte string.
pub open spec fn opt_bytes(o: Option<Vec<u8>>) -> Option<Seq<u8>> {
    match o {
        Some(v) => Some(v@),
        None => None,
    }
}

/// Copies a byte string.
pub fn copy_bytes(v: &Vec<u8>) -> (r: Vec<u8>)
    ensures
        r@ == v@,
{
    let mut r: Vec<u8> = Vec::new();
    let mut i: usize = 0;
    while i < v.len()
        invariant
            i <= v.len(),
            r@ == v@.take(i as int),
        decreases v.len() - i,
    {
        r.push(v[i]);
        i = i + 1;
    }
    assert(r@ == v@);
    r
}

} // verus!

