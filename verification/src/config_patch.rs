//! Collapses a resolved link set into the wildcard path-mapping entries that
//! a compiler or editor configuration block carries, and decides how to
//! update such a block: set it, remove it when the mapping is empty, or
//! leave the file untouched when there is nothing to change.

use vstd::prelude::*;

use crate::paths::{relative_between, rel_segs, AbsPath, AbsPathV, PathSeg, RelPath, SegV};
use crate::resolver::{EntryV, ResolvedLinkSet};

verus! {

/// One wildcard path-mapping entry: an alias pattern `name/*` and the
/// pattern of its destination, relative to the workspace root, `target/*`.
#[derive(Debug)]
pub struct PathMapping {
    pub alias: RelPath,
    pub target: RelPath,
}

/// Spec-level value of a [`PathMapping`].
pub struct MappingV {
    pub alias: Seq<SegV>,
    pub target: Seq<SegV>,
}

impl View for PathMapping {
    type V = MappingV;

    open spec fn view(&self) -> MappingV {
        MappingV { alias: self.alias@, target: self.target@ }
    }
}

/// The spec-level contents of a sequence of path mappings.
pub open spec fn mappings_view(s: Seq<PathMapping>) -> Seq<MappingV> {
    s.map_values(|m: PathMapping| m@)
}

pub proof fn lemma_mappings_view_push(s: Seq<PathMapping>, x: PathMapping)
    ensures
        mappings_view(s.push(x)) == mappings_view(s).push(x@),
{
    assert(mappings_view(s.push(x)) =~= mappings_view(s).push(x@));
}

/// The wildcard segment.
pub open spec fn star() -> SegV {
    SegV::Name("*"@)
}

/// The wildcard mapping of one resolved entry: `name/*` to the relative path
/// from the workspace root to the destination, with `/*` appended.
pub open spec fn entry_mapping(e: EntryV, root: AbsPathV) -> MappingV {
    MappingV {
        alias: seq![SegV::Name(e.name), star()],
        target: rel_segs(root.segments, e.destination.segments).push(star()),
    }
}

/// Folds the resolved entries into wildcard mappings, in resolution order;
/// an entry whose destination lies on another volume is skipped.
pub open spec fn wildcard_rec(entries: Seq<EntryV>, root: AbsPathV, acc: Seq<MappingV>) -> Seq<
    MappingV,
>
    decreases entries.len(),
{
    if entries.len() == 0 {
        acc
    } else if entries[0].destination.volume == root.volume {
        wildcard_rec(entries.skip(1), root, acc.push(entry_mapping(entries[0], root)))
    } else {
        wildcard_rec(entries.skip(1), root, acc)
    }
}

/// The full wildcard mapping of a resolved link set.
pub open spec fn spec_wildcards(entries: Seq<EntryV>, root: AbsPathV) -> Seq<MappingV> {
    wildcard_rec(entries, root, Seq::empty())
}

/// How a path-mapping configuration block is to be updated.
#[derive(Debug)]
pub enum ConfigPathsUpdate {
    /// The mapping is empty and the block is already absent: leave the whole
    /// file untouched.
    KeepUnchanged,
    /// The mapping is empty but a block is present: remove the block, leaving
    /// all other configuration content as it is.
    RemovePaths,
    /// Replace the block with these wildcard mappings.
    SetPaths(Vec<PathMapping>),
}

/// Computes the wildcard path mappings of `resolved`, relative to
/// `workspace_root`, in resolution order.
pub fn wildcard_mappings(resolved: &ResolvedLinkSet, workspace_root: &AbsPath) -> (r: Vec<
    PathMapping,
>)
    ensures
        mappings_view(r@) == spec_wildcards(resolved@, workspace_root@),
{
    let ghost rootv = workspace_root@;
    let ghost entries = resolved@;
    let mut r: Vec<PathMapping> = Vec::new();
    let n = resolved.len();
    let mut i: usize = 0;
    proof {
        assert(entries.skip(0) =~= entries);
        assert(mappings_view(r@) =~= Seq::<MappingV>::empty());
    }
    while i < n
        invariant
            i <= n,
            n == entries.len(),
            entries == resolved@,
            rootv == workspace_root@,
            wildcard_rec(entries.skip(i as int), rootv, mappings_view(r@)) == spec_wildcards(
                entries,
                rootv,
            ),
        decreases n - i,
    {
        proof {
            assert(entries.skip(i as int)[0] == entries[i as int]);
            assert(entries.skip(i as int).skip(1) =~= entries.skip(i as int + 1));
        }
        let e = resolved.entry_at(i);
        if e.destination.volume == workspace_root.volume {
            let mut alias_segs: Vec<PathSeg> = Vec::new();
            alias_segs.push(PathSeg::Name(e.name.clone()));
            alias_segs.push(PathSeg::Name(String::from_str("*")));
            let alias = RelPath { segments: alias_segs };
            let mut target = match relative_between(workspace_root, &e.destination) {
                Ok(t) => t,
                Err(_) => {
                    proof {
                        assert(false);
                    }
                    RelPath { segments: Vec::new() }
                },
            };
            target.segments.push(PathSeg::Name(String::from_str("*")));
            let ghost premaps = r@;
            let ghost ev = entries[i as int];
            r.push(PathMapping { alias, target });
            proof {
                lemma_mappings_view_push(premaps, r@[premaps.len() as int]);
                assert(r@[premaps.len() as int]@.alias =~= entry_mapping(ev, rootv).alias);
                assert(r@[premaps.len() as int]@.target =~= entry_mapping(ev, rootv).target);
                assert(r@[premaps.len() as int]@ == entry_mapping(ev, rootv));
            }
        }
        i = i + 1;
    }
    proof {
        assert(entries.skip(entries.len() as int) =~= Seq::<EntryV>::empty());
    }
    r
}

/// Decides how the path-mapping block of a configuration file is updated for
/// `resolved`: when the wildcard mapping is empty, an absent block stays
/// absent and a present one is removed; otherwise the block is replaced with
/// the mapping, all other configuration content untouched.
pub fn config_paths_update(
    resolved: &ResolvedLinkSet,
    workspace_root: &AbsPath,
    had_paths: bool,
) -> (r: ConfigPathsUpdate)
    ensures
        match r {
            ConfigPathsUpdate::KeepUnchanged => spec_wildcards(resolved@, workspace_root@).len()
                == 0 && !had_paths,
            ConfigPathsUpdate::RemovePaths => spec_wildcards(resolved@, workspace_root@).len() == 0
                && had_paths,
            ConfigPathsUpdate::SetPaths(m) => mappings_view(m@) == spec_wildcards(
                resolved@,
                workspace_root@,
            ) && mappings_view(m@).len() > 0,
        },
{
    let mappings = wildcard_mappings(resolved, workspace_root);
    if mappings.len() == 0 {
        proof {
            assert(mappings_view(mappings@).len() == mappings@.len());
        }
        if had_paths {
            ConfigPathsUpdate::RemovePaths
        } else {
            ConfigPathsUpdate::KeepUnchanged
        }
    } else {
        proof {
            assert(mappings_view(mappings@).len() == mappings@.len());
        }
        ConfigPathsUpdate::SetPaths(mappings)
    }
}

} // verus!
