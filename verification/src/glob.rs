//! Glob matching against path candidates.
//!
//! The wildmatch algorithm itself comes from the `gix` crate; everything
//! around it — basename selection, anchoring, directory-only handling — is
//! verified here.
use vstd::prelude::*;

use crate::model::PatternModel;
use crate::model::Pattern;

verus! {

/// What `gix::glob::wildmatch` returns for a glob and a candidate under git's
/// path-matching rules (`*`, `?` and character classes do not cross `/`,
/// `**` spans path segments). The result depends on the two byte strings
/// alone.
pub uninterp spec fn wildmatch_of(pattern: Seq<u8>, text: Seq<u8>) -> bool;

/// Relies on gix::glob::wildmatch with mode NO_MATCH_SLASH_LITERAL and
/// case-sensitive comparison: git's wildmat on a slash-separated candidate,
/// a pure function of the glob and the candidate.
#[verifier::external_body]
fn wildmatch(pattern: &[u8], text: &[u8]) -> (r: bool)
    ensures
        r == wildmatch_of(pattern@, text@),
{
    gix::glob::wildmatch(
        pattern.into(),
        text.into(),
        gix::glob::wildmatch::Mode::NO_MATCH_SLASH_LITERAL,
    )
}

/// The index right after the last `/` of `path`, or `0` if `path` has no
/// slash: where the basename begins.
pub open spec fn basename_start(path: Seq<u8>) -> int
    decreases path.len(),
{
    if path.len() == 0 {
        0
    } else if path.last() == 47 {
        path.len() as int
    } else {
        basename_start(path.drop_last())
    }
}

pub proof fn lemma_basename_start_bounds(path: Seq<u8>)
    ensures
        0 <= basename_start(path) <= path.len(),
    decreases path.len(),
{
    if path.len() > 0 && path.last() != 47 {
        lemma_basename_start_bounds(path.drop_last());
    }
}

/// Finds where the basename of `path` begins: right after its last `/`.
pub fn find_basename_start(path: &[u8]) -> (r: usize)
    ensures
        r == basename_start(path@),
{
    let mut i: usize = path.len();
    proof {
        assert(path@.subrange(0, path@.len() as int) =~= path@);
    }
    while i > 0
        invariant
            i <= path@.len(),
            basename_start(path@) == basename_start(path@.subrange(0, i as int)),
        decreases i,
    {
        if path[i - 1] == 47 {
            proof {
                let sub = path@.subrange(0, i as int);
                assert(sub.last() == 47);
            }
            return i;
        }
        proof {
            let sub = path@.subrange(0, i as int);
            assert(sub.last() != 47);
            assert(sub.drop_last() =~= path@.subrange(0, i - 1));
        }
        i -= 1;
    }
    proof {
        assert(path@.subrange(0, 0) =~= Seq::<u8>::empty());
    }
    0
}

/// Whether pattern `p` matches the candidate `rel` (a path relative to the
/// pattern's layer), where `is_dir` says whether the candidate is a
/// directory. An anchored glob is matched against the whole candidate, an
/// unanchored one against its basename; a directory-only glob matches
/// directories alone.
pub open spec fn glob_matches(p: PatternModel, rel: Seq<u8>, is_dir: bool) -> bool {
    &&& (p.dir_only ==> is_dir)
    &&& wildmatch_of(
        p.text,
        if p.anchored {
            rel
        } else {
            rel.subrange(basename_start(rel), rel.len() as int)
        },
    )
}

/// Decides whether `p` matches the relative candidate `rel`.
pub fn pattern_matches_candidate(p: &Pattern, rel: &[u8], is_dir: bool) -> (r: bool)
    ensures
        r == glob_matches(p@, rel@, is_dir),
{
    if p.dir_only && !is_dir {
        return false;
    }
    if p.anchored {
        wildmatch(p.text.as_slice(), rel)
    } else {
        let start: usize = find_basename_start(rel);
        proof {
            lemma_basename_start_bounds(rel@);
        }
        let basename = vstd::slice::slice_subrange(rel, start, rel.len());
        wildmatch(p.text.as_slice(), basename)
    }
}

} // verus!
