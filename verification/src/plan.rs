//! Translates a resolved name→destination mapping plus placement flags into
//! concrete link instructions, ready for a filesystem collaborator: for each
//! resolved name, a link at the workspace root and/or under the workspace's
//! dependency directory, each targeting the relative path from the link's
//! parent directory to the destination.

use vstd::prelude::*;

use crate::paths::{
    clone_strings, lemma_strs_view_push, relative_between, rel_segs, strs_view, AbsPath, AbsPathV,
    RelPath, SegV,
};
use crate::resolver::{EntryV, ResolvedLinkSet};

verus! {

/// Where resolved links are materialized: directly at the workspace root,
/// under the workspace's dependency directory, or both.
#[derive(Clone, Copy, Debug)]
pub struct PlacementOptions {
    pub emit_at_workspace_root: bool,
    pub emit_under_node_modules: bool,
}

/// One concrete link to create: the absolute path of the link itself and the
/// target it points at, relative to the link's parent directory.
#[derive(Debug)]
pub struct LinkInstruction {
    pub link_path: AbsPath,
    pub link_target: RelPath,
}

/// Spec-level value of a [`LinkInstruction`].
pub struct InstrV {
    pub link_path: AbsPathV,
    pub link_target: Seq<SegV>,
}

impl View for LinkInstruction {
    type V = InstrV;

    open spec fn view(&self) -> InstrV {
        InstrV { link_path: self.link_path@, link_target: self.link_target@ }
    }
}

/// The spec-level contents of a sequence of link instructions.
pub open spec fn instrs_view(s: Seq<LinkInstruction>) -> Seq<InstrV> {
    s.map_values(|x: LinkInstruction| x@)
}

pub proof fn lemma_instrs_view_push(s: Seq<LinkInstruction>, x: LinkInstruction)
    ensures
        instrs_view(s.push(x)) == instrs_view(s).push(x@),
{
    assert(instrs_view(s.push(x)) =~= instrs_view(s).push(x@));
}

/// The plan for one workspace: the instructions to carry out, in resolution
/// order with the root-level placement before the nested one, and the names
/// whose destinations admit no relative path from this workspace's volume —
/// those are skipped, the rest of the plan stays valid.
#[derive(Debug)]
pub struct MaterializationPlan {
    pub instructions: Vec<LinkInstruction>,
    pub skipped: Vec<String>,
}

/// The directory entry `name` directly below `p`.
pub open spec fn abs_child(p: AbsPathV, name: Seq<char>) -> AbsPathV {
    AbsPathV { volume: p.volume, segments: p.segments.push(name) }
}

/// The name of the dependency directory under a workspace root through which
/// standard module lookup resolves.
pub open spec fn deps_dir_name() -> Seq<char> {
    "node_modules"@
}

/// The instructions for one resolved entry: the link sits at
/// `placement_dir/name`, so its parent is the placement directory, and its
/// target is the relative path from there to the destination. The root-level
/// placement comes before the nested one.
pub open spec fn entry_instrs(e: EntryV, root: AbsPathV, opts: PlacementOptions) -> Seq<InstrV> {
    let at_root = InstrV {
        link_path: abs_child(root, e.name),
        link_target: rel_segs(root.segments, e.destination.segments),
    };
    let deps = abs_child(root, deps_dir_name());
    let nested = InstrV {
        link_path: abs_child(deps, e.name),
        link_target: rel_segs(deps.segments, e.destination.segments),
    };
    (if opts.emit_at_workspace_root {
        seq![at_root]
    } else {
        Seq::empty()
    }) + (if opts.emit_under_node_modules {
        seq![nested]
    } else {
        Seq::empty()
    })
}

/// Folds the entries into instructions and skipped names, in resolution
/// order: an entry whose destination lies on another volume is skipped.
pub open spec fn plan_rec(
    entries: Seq<EntryV>,
    root: AbsPathV,
    opts: PlacementOptions,
    instrs: Seq<InstrV>,
    skipped: Seq<Seq<char>>,
) -> (Seq<InstrV>, Seq<Seq<char>>)
    decreases entries.len(),
{
    if entries.len() == 0 {
        (instrs, skipped)
    } else if entries[0].destination.volume == root.volume {
        plan_rec(entries.skip(1), root, opts, instrs + entry_instrs(entries[0], root, opts), skipped)
    } else {
        plan_rec(entries.skip(1), root, opts, instrs, skipped.push(entries[0].name))
    }
}

/// The full plan for a resolved link set.
pub open spec fn spec_plan(entries: Seq<EntryV>, root: AbsPathV, opts: PlacementOptions) -> (
    Seq<InstrV>,
    Seq<Seq<char>>,
) {
    plan_rec(entries, root, opts, Seq::empty(), Seq::empty())
}

/// The directory entry `name` directly below `base`.
fn abs_child_exec(base: &AbsPath, name: &String) -> (r: AbsPath)
    ensures
        r@ == abs_child(base@, name@),
{
    let mut segments = clone_strings(&base.segments);
    let ghost pre = segments@;
    segments.push(name.clone());
    proof {
        lemma_strs_view_push(pre, segments@[pre.len() as int]);
        assert(strs_view(segments@) == base@.segments.push(name@));
    }
    AbsPath { volume: base.volume.clone(), segments }
}

/// The relative path from the placement directory `dir` to `destination`,
/// both known to lie on the same volume.
fn target_from(dir: &AbsPath, destination: &AbsPath) -> (r: RelPath)
    requires
        dir@.volume == destination@.volume,
    ensures
        r@ == rel_segs(dir@.segments, destination@.segments),
{
    match relative_between(dir, destination) {
        Ok(t) => t,
        Err(_) => {
            proof {
                assert(false);
            }
            RelPath { segments: Vec::new() }
        },
    }
}

/// Computes the plan for `resolved` at `workspace_root`: for each resolved
/// name, in order, one instruction per enabled placement — the workspace
/// root before the dependency directory — and the names skipped because
/// their destination lies on another volume.
pub fn plan(
    resolved: &ResolvedLinkSet,
    workspace_root: &AbsPath,
    placement: &PlacementOptions,
) -> (r: MaterializationPlan)
    ensures
        instrs_view(r.instructions@) == spec_plan(resolved@, workspace_root@, *placement).0,
        strs_view(r.skipped@) == spec_plan(resolved@, workspace_root@, *placement).1,
{
    let ghost rootv = workspace_root@;
    let ghost opts = *placement;
    let ghost entries = resolved@;
    let mut instructions: Vec<LinkInstruction> = Vec::new();
    let mut skipped: Vec<String> = Vec::new();
    let n = resolved.len();
    let mut i: usize = 0;
    proof {
        assert(entries.skip(0) =~= entries);
        assert(instrs_view(instructions@) =~= Seq::<InstrV>::empty());
        assert(strs_view(skipped@) =~= Seq::<Seq<char>>::empty());
    }
    while i < n
        invariant
            i <= n,
            n == entries.len(),
            entries == resolved@,
            rootv == workspace_root@,
            opts == *placement,
            plan_rec(
                entries.skip(i as int),
                rootv,
                opts,
                instrs_view(instructions@),
                strs_view(skipped@),
            ) == spec_plan(entries, rootv, opts),
        decreases n - i,
    {
        proof {
            assert(entries.skip(i as int)[0] == entries[i as int]);
            assert(entries.skip(i as int).skip(1) =~= entries.skip(i as int + 1));
        }
        let e = resolved.entry_at(i);
        if e.destination.volume == workspace_root.volume {
            let ghost preinstrs = instrs_view(instructions@);
            let ghost ev = entries[i as int];
            if placement.emit_at_workspace_root {
                let link_path = abs_child_exec(workspace_root, &e.name);
                let link_target = target_from(workspace_root, &e.destination);
                let ghost pre = instructions@;
                instructions.push(LinkInstruction { link_path, link_target });
                proof {
                    lemma_instrs_view_push(pre, instructions@[pre.len() as int]);
                }
            }
            if placement.emit_under_node_modules {
                let deps = abs_child_exec(workspace_root, &String::from_str("node_modules"));
                let link_path = abs_child_exec(&deps, &e.name);
                let link_target = target_from(&deps, &e.destination);
                let ghost pre = instructions@;
                instructions.push(LinkInstruction { link_path, link_target });
                proof {
                    lemma_instrs_view_push(pre, instructions@[pre.len() as int]);
                }
            }
            proof {
                assert(instrs_view(instructions@) =~= preinstrs + entry_instrs(ev, rootv, opts));
            }
        } else {
            let ghost pre = skipped@;
            skipped.push(e.name.clone());
            proof {
                lemma_strs_view_push(pre, skipped@[pre.len() as int]);
            }
        }
        i = i + 1;
    }
    proof {
        assert(entries.skip(entries.len() as int) =~= Seq::<EntryV>::empty());
    }
    MaterializationPlan { instructions, skipped }
}

} // verus!
