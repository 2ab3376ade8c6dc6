//! Unix path logic on byte strings: absoluteness, logical join, and the
//! file-name extension accessor used by the archive finder.
//!
//! Paths are held as `Vec<u8>`, the platform's own representation. The join
//! is purely logical: no filesystem access, no symlink following, and no
//! normalization of `..` segments.

use vstd::prelude::*;

verus! {

/// The platform path separator.
pub const SEPARATOR: u8 = 47;

/// A path is absolute exactly when it begins with the separator.
pub open spec fn spec_is_absolute(p: Seq<u8>) -> bool {
    p.len() > 0 && p[0] == SEPARATOR
}

/// Logical join of a root and a sub-path, with the platform's semantics:
/// an absolute sub-path replaces the root; otherwise a separator is
/// inserted unless the root is empty or already ends with one.
pub open spec fn spec_join(root: Seq<u8>, sub: Seq<u8>) -> Seq<u8> {
    if spec_is_absolute(sub) {
        sub
    } else if root.len() == 0 || root[root.len() - 1] == SEPARATOR {
        root + sub
    } else {
        root + seq![SEPARATOR] + sub
    }
}

/// Returns whether `p` is an absolute path.
pub fn is_absolute(p: &Vec<u8>) -> (r: bool)
    ensures
        r == spec_is_absolute(p@),
{
    p.len() > 0 && p[0] == SEPARATOR
}

/// Joins `sub` onto `root` with the platform's logical join semantics.
pub fn join(root: &Vec<u8>, sub: &Vec<u8>) -> (r: Vec<u8>)
    ensures
        r@ == spec_join(root@, sub@),
{
    if is_absolute(sub) {
        crate::copy_bytes(sub)
    } else {
        let mut r = crate::copy_bytes(root);
        if root.len() > 0 && root[root.len() - 1] != SEPARATOR {
            r.push(SEPARATOR);
            assert(r@ == root@ + seq![SEPARATOR]);
        }
        let ghost prefix = r@;
        let mut j: usize = 0;
        while j < sub.len()
            invariant
                j <= sub.len(),
                r@ == prefix + sub@.take(j as int),
            decreases sub.len() - j,
        {
            r.push(sub[j]);
            j = j + 1;
        }
        assert(sub@.take(sub.len() as int) == sub@);
        assert(r@ == prefix + sub@);
        r
    }
}

} // verus!
