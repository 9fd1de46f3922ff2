//! The exclusion set: paths under a traversal root that version control
//! ignores, computed once per root as the difference of two recursive
//! listings — every untracked-or-ignored path, minus the untracked paths
//! that the ignore rules allow.  What remains is untracked *because* it is
//! ignored, and is skipped during transfer.

use vstd::prelude::*;

use vstd::string::StringSliceAdditionalSpecFns;

use crate::path::AbsPath;
use crate::path::SLASH;
use crate::path::normalize;
use crate::path::push_str_bytes;
use crate::path::render_path;
use crate::path::split_at_sep;

verus! {

/// The NUL byte that separates paths in a `-z` listing.
pub const NUL: u8 = 0;

/// The tokens of `ts` that are nonempty, in order.
pub open spec fn nonempty_tokens(ts: Seq<Seq<u8>>) -> Seq<Seq<u8>>
    decreases ts.len(),
{
    if ts.len() == 0 {
        Seq::empty()
    } else {
        let pre = nonempty_tokens(ts.drop_last());
        if ts.last().len() > 0 {
            pre.push(ts.last())
        } else {
            pre
        }
    }
}

/// The nonempty path tokens of a NUL-separated listing.
pub open spec fn listing_tokens(out: Seq<u8>) -> Seq<Seq<u8>> {
    nonempty_tokens(split_at_sep(out, NUL))
}

/// The tokens of `ts` that are not in `bad`, in order.
pub open spec fn kept_tokens(ts: Seq<Seq<u8>>, bad: Seq<Seq<u8>>) -> Seq<Seq<u8>>
    decreases ts.len(),
{
    if ts.len() == 0 {
        Seq::empty()
    } else {
        let pre = kept_tokens(ts.drop_last(), bad);
        if bad.contains(ts.last()) {
            pre
        } else {
            pre.push(ts.last())
        }
    }
}

/// The absolute path a listing token names, below `root`.
pub open spec fn token_path(root: Seq<Seq<u8>>, t: Seq<u8>) -> Seq<Seq<u8>> {
    normalize(root + split_at_sep(t, SLASH))
}

/// The paths of one exclusion set, anchored at one traversal root.
pub struct ExclusionSet {
    pub paths: Vec<AbsPath>,
}

/// The members of a path list, as component sequences.
pub open spec fn paths_view(v: Vec<AbsPath>) -> Seq<Seq<Seq<u8>>> {
    v@.map_values(|p: AbsPath| p@)
}

impl ExclusionSet {
    /// Whether the components `p` are a member.
    pub open spec fn spec_contains(&self, p: Seq<Seq<u8>>) -> bool {
        paths_view(self.paths).contains(p)
    }

    /// The set with no members: traversal then skips nothing.
    pub fn empty() -> (r: ExclusionSet)
        ensures
            forall|p: Seq<Seq<u8>>| !r.spec_contains(p),
    {
        ExclusionSet { paths: Vec::new() }
    }

    /// Builds the exclusion set for `root` from the two recursive git
    /// listings, both NUL-separated: `others_out` lists every
    /// untracked-or-ignored path, `unignored_out` the untracked paths the
    /// ignore rules allow.  The members are exactly the paths of the
    /// difference, each anchored below `root`, in listing order.
    pub fn build(root: &AbsPath, others_out: &Vec<u8>, unignored_out: &Vec<u8>) -> (r:
        ExclusionSet)
        requires
            root.wf(),
        ensures
            paths_view(r.paths) == listing_tokens(others_out@).filter(
                |t: Seq<u8>| !listing_tokens(unignored_out@).contains(t),
            ).map_values(|t: Seq<u8>| token_path(root@, t)),
    {
        let others = keep_nonempty(&crate::path::split_from(others_out, 0, NUL));
        let unignored = keep_nonempty(&crate::path::split_from(unignored_out, 0, NUL));
        proof {
            assert(others_out@.skip(0) =~= others_out@);
            assert(unignored_out@.skip(0) =~= unignored_out@);
        }
        let mut paths: Vec<AbsPath> = Vec::new();
        let mut i: usize = 0;
        while i < others.len()
            invariant
                i <= others@.len(),
                root.wf(),
                others.deep_view() == listing_tokens(others_out@),
                unignored.deep_view() == listing_tokens(unignored_out@),
                paths_view(paths) == kept_tokens(
                    others.deep_view().take(i as int),
                    unignored.deep_view(),
                ).map_values(|t: Seq<u8>| token_path(root@, t)),
            decreases others@.len() - i,
        {
            let ghost pre = others.deep_view().take(i as int);
            let ghost prev = paths_view(paths);
            let t = &others[i];
            if !member(&unignored, t) {
                paths.push(root.join_bytes(t));
                proof {
                    assert(paths_view(paths) =~= prev.push(token_path(root@, t@)));
                }
            }
            proof {
                let full = others.deep_view();
                assert(full.take(i + 1).drop_last() =~= pre);
                assert(full.take(i + 1).last() == t@);
                let kept = kept_tokens(full.take(i + 1), unignored.deep_view());
                let kept_pre = kept_tokens(pre, unignored.deep_view());
                if !unignored.deep_view().contains(t@) {
                    assert(kept == kept_pre.push(t@));
                    assert(kept.map_values(|x: Seq<u8>| token_path(root@, x))
                        =~= kept_pre.map_values(|x: Seq<u8>| token_path(root@, x)).push(
                        token_path(root@, t@),
                    ));
                }
            }
            i = i + 1;
        }
        proof {
            assert(others.deep_view().take(others@.len() as int) =~= others.deep_view());
            lemma_kept_is_filter(others.deep_view(), unignored.deep_view());
        }
        ExclusionSet { paths }
    }

    /// Whether `p` is a member.
    pub fn contains(&self, p: &AbsPath) -> (r: bool)
        ensures
            r == self.spec_contains(p@),
    {
        let mut i: usize = 0;
        while i < self.paths.len()
            invariant
                i <= self.paths@.len(),
                forall|j: int| 0 <= j < i ==> (#[trigger] self.paths@[j])@ != p@,
            decreases self.paths@.len() - i,
        {
            if self.paths[i].path_eq(p) {
                proof {
                    assert(paths_view(self.paths)[i as int] == p@);
                }
                return true;
            }
            i = i + 1;
        }
        proof {
            if self.spec_contains(p@) {
                let k = choose|k: int|
                    0 <= k < paths_view(self.paths).len() && paths_view(self.paths)[k] == p@;
                assert(self.paths@[k]@ == p@);
            }
        }
        false
    }
}

/// Keeps the nonempty tokens of a split listing, in order.
pub fn keep_nonempty(ts: &Vec<Vec<u8>>) -> (r: Vec<Vec<u8>>)
    ensures
        r.deep_view() == nonempty_tokens(ts.deep_view()),
{
    let mut r: Vec<Vec<u8>> = Vec::new();
    let mut i: usize = 0;
    while i < ts.len()
        invariant
            i <= ts@.len(),
            r.deep_view() == nonempty_tokens(ts.deep_view().take(i as int)),
        decreases ts@.len() - i,
    {
        let ghost prev = r.deep_view();
        if ts[i].len() > 0 {
            r.push(crate::path::clone_bytes(&ts[i]));
            proof {
                assert(r.deep_view() =~~= prev.push(ts@[i as int]@));
            }
        }
        proof {
            let full = ts.deep_view();
            assert(full.take(i + 1).drop_last() =~= full.take(i as int));
            assert(full.take(i + 1).last() == ts@[i as int]@);
        }
        i = i + 1;
    }
    proof {
        assert(ts.deep_view().take(ts@.len() as int) =~= ts.deep_view());
    }
    r
}

/// Whether `t` is one of the tokens in `ts`.
pub fn member(ts: &Vec<Vec<u8>>, t: &Vec<u8>) -> (r: bool)
    ensures
        r == ts.deep_view().contains(t@),
{
    let mut i: usize = 0;
    while i < ts.len()
        invariant
            i <= ts@.len(),
            forall|j: int| 0 <= j < i ==> ts.deep_view()[j] != t@,
        decreases ts@.len() - i,
    {
        if crate::path::bytes_eq(&ts[i], t) {
            proof {
                assert(ts.deep_view()[i as int] == t@);
            }
            return true;
        }
        proof {
            assert(ts.deep_view()[i as int] == ts@[i as int]@);
        }
        i = i + 1;
    }
    proof {
        if ts.deep_view().contains(t@) {
            let k = choose|k: int| 0 <= k < ts.deep_view().len() && ts.deep_view()[k] == t@;
            assert(ts.deep_view()[k] == t@);
        }
    }
    false
}

/// Keeping the tokens outside `bad` is the same as filtering them out.
pub proof fn lemma_kept_is_filter(ts: Seq<Seq<u8>>, bad: Seq<Seq<u8>>)
    ensures
        kept_tokens(ts, bad) == ts.filter(|t: Seq<u8>| !bad.contains(t)),
    decreases ts.len(),
{
    reveal(Seq::filter);
    if ts.len() > 0 {
        lemma_kept_is_filter(ts.drop_last(), bad);
    }
}

/// The remote command that lists every untracked-or-ignored path under
/// `dir`, NUL-separated.
pub open spec fn others_cmd(dir: Seq<Seq<u8>>) -> Seq<u8> {
    ("cd ").spec_bytes() + render_path(dir) + (" && git ls-files --others -z").spec_bytes()
}

/// The remote command that lists the untracked paths under `dir` that the
/// ignore rules allow, NUL-separated.
pub open spec fn unignored_cmd(dir: Seq<Seq<u8>>) -> Seq<u8> {
    ("cd ").spec_bytes() + render_path(dir) + (
    " && git ls-files --others --exclude-standard -z").spec_bytes()
}

/// Builds the listing command for every untracked-or-ignored path.
pub fn list_others_command(dir: &AbsPath) -> (r: Vec<u8>)
    ensures
        r@ == others_cmd(dir@),
{
    let mut out: Vec<u8> = Vec::new();
    push_str_bytes(&mut out, "cd ");
    let mut rendered = dir.to_bytes();
    out.append(&mut rendered);
    push_str_bytes(&mut out, " && git ls-files --others -z");
    proof {
        assert(out@ =~= others_cmd(dir@));
    }
    out
}

/// Builds the listing command for the untracked-but-unignored paths.
pub fn list_unignored_command(dir: &AbsPath) -> (r: Vec<u8>)
    ensures
        r@ == unignored_cmd(dir@),
{
    let mut out: Vec<u8> = Vec::new();
    push_str_bytes(&mut out, "cd ");
    let mut rendered = dir.to_bytes();
    out.append(&mut rendered);
    push_str_bytes(&mut out, " && git ls-files --others --exclude-standard -z");
    proof {
        assert(out@ =~= unignored_cmd(dir@));
    }
    out
}

} // verus!
