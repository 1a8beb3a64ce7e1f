//! Input collection: the pure part of assembling the candidate file list —
//! the extension filter, order-stable deduplication, and the empty-input
//! error.  A directory walker supplies the raw candidate paths.

use vstd::prelude::*;

use crate::assemble::bytes_equal;
use crate::model::{texts_view, OrderError};

verus! {

/// Whether a path names a source file: its last component ends in `.rs`,
/// compared case-insensitively, with a nonempty stem before the dot.
pub open spec fn spec_is_rust_file(s: Seq<u8>) -> bool {
    &&& s.len() >= 4
    &&& s[s.len() - 3] == 46u8
    &&& (s[s.len() - 2] == 114u8 || s[s.len() - 2] == 82u8)
    &&& (s[s.len() - 1] == 115u8 || s[s.len() - 1] == 83u8)
    &&& s[s.len() - 4] != 47u8
}

/// A sequence of paths with every repeated path dropped: each path is kept
/// at its first occurrence only.
pub open spec fn spec_dedup(paths: Seq<Seq<u8>>) -> Seq<Seq<u8>>
    decreases paths.len(),
{
    if paths.len() == 0 {
        Seq::empty()
    } else {
        let rest = spec_dedup(paths.drop_last());
        if rest.contains(paths.last()) {
            rest
        } else {
            rest.push(paths.last())
        }
    }
}

/// Whether `path` names a source file (extension `rs`, case-insensitively).
pub fn is_rust_file(path: &Vec<u8>) -> (r: bool)
    ensures
        r == spec_is_rust_file(path@),
{
    let n = path.len();
    if n < 4 {
        return false;
    }
    path[n - 3] == 46u8 && (path[n - 2] == 114u8 || path[n - 2] == 82u8) && (path[n - 1] == 115u8
        || path[n - 1] == 83u8) && path[n - 4] != 47u8
}

fn contains_path(files: &Vec<Vec<u8>>, path: &Vec<u8>) -> (r: bool)
    ensures
        r == texts_view(*files).contains(path@),
{
    let mut i: usize = 0;
    while i < files.len()
        invariant
            i <= files.len(),
            forall|j: int| 0 <= j < i ==> texts_view(*files)[j] != path@,
        decreases files.len() - i,
    {
        if bytes_equal(&files[i], path) {
            proof {
                assert(texts_view(*files)[i as int] == path@);
            }
            return true;
        }
        i += 1;
    }
    proof {
        assert(!texts_view(*files).contains(path@)) by {
            if texts_view(*files).contains(path@) {
                let j = choose|j: int|
                    0 <= j < texts_view(*files).len() && texts_view(*files)[j] == path@;
                assert(texts_view(*files)[j] != path@);
            }
        }
    }
    false
}

/// Appends `path` to `files` unless an equal path is already present, so
/// the list stays deduplicated in first-seen order.
pub fn push_file(path: Vec<u8>, files: &mut Vec<Vec<u8>>)
    ensures
        texts_view(*final(files)) == (if texts_view(*old(files)).contains(path@) {
            texts_view(*old(files))
        } else {
            texts_view(*old(files)).push(path@)
        }),
{
    if !contains_path(files, &path) {
        let ghost before = texts_view(*files);
        files.push(path);
        proof {
            assert(texts_view(*files) =~= before.push(path@));
        }
    }
}

/// Deduplicates the candidate paths, keeping first-seen order, and fails
/// when no candidate at all was given.
pub fn collect_input_files(paths: Vec<Vec<u8>>) -> (r: Result<Vec<Vec<u8>>, OrderError>)
    ensures
        match r {
            Ok(files) => texts_view(files) == spec_dedup(texts_view(paths)) && paths@.len() > 0,
            Err(e) => e == OrderError::NoInputFiles && paths@.len() == 0,
        },
{
    let mut files: Vec<Vec<u8>> = Vec::new();
    let mut i: usize = 0;
    proof {
        assert(texts_view(files) =~= spec_dedup(texts_view(paths).take(0)));
    }
    while i < paths.len()
        invariant
            i <= paths.len(),
            texts_view(files) == spec_dedup(texts_view(paths).take(i as int)),
        decreases paths.len() - i,
    {
        proof {
            assert(texts_view(paths).take(i + 1).drop_last() =~= texts_view(paths).take(i as int));
            assert(texts_view(paths).take(i + 1).last() == paths@[i as int]@);
        }
        let p = crate::resolve::copy_range(&paths[i], 0, paths[i].len());
        proof {
            assert(p@ =~= paths@[i as int]@);
        }
        push_file(p, &mut files);
        i += 1;
    }
    proof {
        assert(texts_view(paths).take(texts_view(paths).len() as int) =~= texts_view(paths));
    }
    if files.len() == 0 {
        proof {
            assert(texts_view(files).len() == 0);
            if paths@.len() > 0 {
                assert(texts_view(paths).len() > 0);
                let rest = spec_dedup(texts_view(paths).drop_last());
                if rest.contains(texts_view(paths).last()) {
                    assert(texts_view(files).len() > 0);
                }
            }
        }
        Err(OrderError::NoInputFiles)
    } else {
        proof {
            assert(texts_view(files).len() > 0);
            if paths@.len() == 0 {
                assert(texts_view(paths) =~= Seq::<Seq<u8>>::empty());
            }
            assert(paths@.len() > 0);
        }
        Ok(files)
    }
}

} // verus!
