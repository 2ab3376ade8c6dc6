//! The archive finder: picks the RAR archive out of a directory listing.
//!
//! The caller enumerates the working directory and hands over one entry per
//! listed path, in enumeration order, with the path's bytes and whether the
//! entry is a regular file. The finder keeps the regular files whose
//! extension is exactly the three letters `rar`, case-sensitively, and
//! returns the first survivor's path.

use crate::paths::SEPARATOR;
use vstd::prelude::*;

verus! {

/// The dot byte, `.`, which separates a file name from its extension.
pub const DOT: u8 = 46;

/// One entry of a directory listing: the entry's path and whether its
/// metadata shows a regular file. Entries whose metadata cannot be read
/// are not listed at all.
pub struct FsEntry {
    pub path: Vec<u8>,
    pub is_regular_file: bool,
}

/// The abstract value of a directory entry.
pub struct SpecFsEntry {
    pub path: Seq<u8>,
    pub is_regular_file: bool,
}

impl View for FsEntry {
    type V = SpecFsEntry;

    open spec fn view(&self) -> SpecFsEntry {
        SpecFsEntry { path: self.path@, is_regular_file: self.is_regular_file }
    }
}

/// The abstract values of a listing's entries, in listing order.
pub open spec fn entry_views(s: Seq<FsEntry>) -> Seq<SpecFsEntry> {
    s.map_values(|e: FsEntry| e@)
}

/// What follows the last occurrence of `b` in `s`; all of `s` when `b`
/// does not occur.
pub open spec fn after_last(s: Seq<u8>, b: u8) -> Seq<u8>
    decreases s.len(),
{
    if s.len() == 0 {
        Seq::empty()
    } else if s.last() == b {
        Seq::empty()
    } else {
        after_last(s.drop_last(), b).push(s.last())
    }
}

/// The platform's path-extension accessor, on the paths a directory
/// listing yields: the file name is what follows the last separator, and
/// the extension is what follows the file name's last dot — absent when
/// the file name is `..`, has no dot, or has its only dot first.
pub open spec fn spec_extension(p: Seq<u8>) -> Option<Seq<u8>> {
    let f = after_last(p, SEPARATOR);
    if f == seq![DOT, DOT] {
        None
    } else {
        let e = after_last(f, DOT);
        if e.len() == f.len() {
            None
        } else if f.len() - e.len() - 1 == 0 {
            None
        } else {
            Some(e)
        }
    }
}

/// The extension `rar`.
pub open spec fn rar_ext() -> Seq<u8> {
    seq![114u8, 97u8, 114u8]
}

/// An entry the finder may return: a regular file whose extension is
/// exactly `rar`.
pub open spec fn is_archive_candidate(e: SpecFsEntry) -> bool {
    e.is_regular_file && spec_extension(e.path) == Some(rar_ext())
}

/// The path of the first archive candidate of a listing, if any.
pub open spec fn spec_find_rar(s: Seq<SpecFsEntry>) -> Option<Seq<u8>>
    decreases s.len(),
{
    if s.len() == 0 {
        None
    } else if is_archive_candidate(s[0]) {
        Some(s[0].path)
    } else {
        spec_find_rar(s.skip(1))
    }
}

/// When `b` does not occur in `s`, everything follows its last occurrence.
proof fn lemma_after_last_absent(s: Seq<u8>, b: u8)
    requires
        forall|j: int| 0 <= j < s.len() ==> #[trigger] s[j] != b,
    ensures
        after_last(s, b) == s,
    decreases s.len(),
{
    if s.len() == 0 {
        assert(after_last(s, b) =~= s);
    } else {
        lemma_after_last_absent(s.drop_last(), b);
        assert(s.drop_last().push(s.last()) =~= s);
    }
}

/// When the last occurrence of `b` in `s` is at `k`, what follows it is
/// the range after `k`.
proof fn lemma_after_last_at(s: Seq<u8>, b: u8, k: int)
    requires
        0 <= k < s.len(),
        s[k] == b,
        forall|j: int| k < j < s.len() ==> #[trigger] s[j] != b,
    ensures
        after_last(s, b) == s.subrange(k + 1, s.len() as int),
    decreases s.len(),
{
    if k == s.len() - 1 {
        assert(after_last(s, b) =~= s.subrange(k + 1, s.len() as int));
    } else {
        lemma_after_last_at(s.drop_last(), b, k);
        assert(s.drop_last().subrange(k + 1, s.len() - 1).push(s.last()) =~= s.subrange(
            k + 1,
            s.len() as int,
        ));
    }
}

/// The index of the last occurrence of `b` at or after `lo`, if any.
fn rfind_from(p: &Vec<u8>, b: u8, lo: usize) -> (r: Option<usize>)
    requires
        lo <= p@.len(),
    ensures
        match r {
            Some(k) => lo <= k < p@.len() && p@[k as int] == b && (forall|j: int|
                k < j < p@.len() ==> #[trigger] p@[j] != b),
            None => forall|j: int| lo <= j < p@.len() ==> #[trigger] p@[j] != b,
        },
{
    let mut i: usize = p.len();
    while i > lo
        invariant
            lo <= i <= p@.len(),
            forall|j: int| i <= j < p@.len() ==> #[trigger] p@[j] != b,
        decreases i,
    {
        i = i - 1;
        if p[i] == b {
            return Some(i);
        }
    }
    None
}

/// Whether the platform's extension of `p` is exactly `rar`.
pub fn has_rar_extension(p: &Vec<u8>) -> (r: bool)
    ensures
        r == (spec_extension(p@) == Some(rar_ext())),
{
    let n = p.len();
    let fstart: usize = match rfind_from(p, SEPARATOR, 0) {
        Some(k) => {
            assert(k < n);
            proof {
                lemma_after_last_at(p@, SEPARATOR, k as int);
            }
            k + 1
        },
        None => {
            proof {
                lemma_after_last_absent(p@, SEPARATOR);
            }
            0
        },
    };
    let ghost f = after_last(p@, SEPARATOR);
    proof {
        assert(f =~= p@.subrange(fstart as int, p@.len() as int));
    }
    if p.len() - fstart == 2 && p[fstart] == DOT && p[fstart + 1] == DOT {
        proof {
            assert(f =~= seq![DOT, DOT]);
        }
        return false;
    }
    proof {
        assert(f != seq![DOT, DOT]) by {
            if f == seq![DOT, DOT] {
                assert(p@[fstart as int] == f[0]);
                assert(p@[fstart as int + 1] == f[1]);
            }
        }
    }
    match rfind_from(p, DOT, fstart) {
        None => {
            proof {
                assert forall|j: int| 0 <= j < f.len() implies #[trigger] f[j] != DOT by {
                    assert(f[j] == p@[fstart + j]);
                }
                lemma_after_last_absent(f, DOT);
            }
            false
        },
        Some(k) => {
            proof {
                assert(f[k - fstart] == p@[k as int]);
                assert forall|j: int| k - fstart < j < f.len() implies #[trigger] f[j] != DOT by {
                    assert(f[j] == p@[fstart + j]);
                }
                lemma_after_last_at(f, DOT, k - fstart);
                assert(f.subrange(k - fstart + 1, f.len() as int) =~= p@.subrange(
                    k as int + 1,
                    p@.len() as int,
                ));
            }
            if k == fstart {
                return false;
            }
            let ghost e = after_last(f, DOT);
            if p.len() - k - 1 == 3 && p[k + 1] == 114 && p[k + 2] == 97 && p[k + 3] == 114 {
                proof {
                    assert(e =~= rar_ext());
                }
                true
            } else {
                proof {
                    assert(e != rar_ext()) by {
                        if e == rar_ext() {
                            assert(e.len() == 3);
                            assert(p@[k as int + 1] == e[0]);
                            assert(p@[k as int + 2] == e[1]);
                            assert(p@[k as int + 3] == e[2]);
                        }
                    }
                }
                false
            }
        },
    }
}

/// Finds the single archive of a directory listing: the first entry, in
/// listing order, that is a regular file with extension `rar`. Returns its
/// path, or `None` when no entry qualifies.
pub fn find_rar(entries: &Vec<FsEntry>) -> (r: Option<Vec<u8>>)
    ensures
        match r {
            Some(p) => spec_find_rar(entry_views(entries@)) == Some(p@),
            None => spec_find_rar(entry_views(entries@)) is None,
        },
{
    let ghost evs = entry_views(entries@);
    proof {
        assert(evs.skip(0) =~= evs);
    }
    let mut i: usize = 0;
    while i < entries.len()
        invariant
            i <= entries.len(),
            evs == entry_views(entries@),
            evs.len() == entries@.len(),
            spec_find_rar(evs) == spec_find_rar(evs.skip(i as int)),
        decreases entries.len() - i,
    {
        proof {
            assert(evs[i as int] == entries@[i as int]@);
            assert(evs.skip(i as int)[0] == evs[i as int]);
        }
        let e = &entries[i];
        if e.is_regular_file && has_rar_extension(&e.path) {
            let out = crate::copy_bytes(&e.path);
            return Some(out);
        }
        proof {
            assert(!is_archive_candidate(evs[i as int]));
            assert(evs.skip(i as int).skip(1) =~= evs.skip(i as int + 1));
        }
        i = i + 1;
    }
    proof {
        assert(evs.skip(i as int).len() == 0);
    }
    None
}

/// What the finder returns is always a listed entry that is a regular
/// file whose extension is exactly `rar`.
pub proof fn lemma_find_rar_is_candidate(s: Seq<SpecFsEntry>)
    ensures
        spec_find_rar(s) matches Some(p) ==> exists|i: int|
            0 <= i < s.len() && #[trigger] s[i].is_regular_file && spec_extension(s[i].path)
                == Some(rar_ext()) && s[i].path == p,
    decreases s.len(),
{
    if s.len() > 0 {
        if is_archive_candidate(s[0]) {
        } else {
            lemma_find_rar_is_candidate(s.skip(1));
            if spec_find_rar(s.skip(1)) is Some {
                let j = choose|j: int|
                    0 <= j < s.skip(1).len() && #[trigger] s.skip(1)[j].is_regular_file
                        && spec_extension(s.skip(1)[j].path) == Some(rar_ext()) && s.skip(1)[j].path
                        == spec_find_rar(s.skip(1))->Some_0;
                assert(s[j + 1] == s.skip(1)[j]);
            }
        }
    }
}

/// The finder comes back empty exactly when no listed entry is a regular
/// file with extension `rar`.
pub proof fn lemma_find_rar_none_iff_no_candidate(s: Seq<SpecFsEntry>)
    ensures
        spec_find_rar(s) is None <==> (forall|i: int|
            0 <= i < s.len() ==> !is_archive_candidate(#[trigger] s[i])),
    decreases s.len(),
{
    if s.len() > 0 {
        lemma_find_rar_none_iff_no_candidate(s.skip(1));
        assert(forall|j: int| 0 <= j < s.skip(1).len() ==> #[trigger] s.skip(1)[j] == s[j + 1]);
        if spec_find_rar(s) is None {
            assert forall|i: int| 0 <= i < s.len() implies !is_archive_candidate(
                #[trigger] s[i],
            ) by {
                if i > 0 {
                    assert(s.skip(1)[i - 1] == s[i]);
                }
            }
        }
    }
}

} // verus!
