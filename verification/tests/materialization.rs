use workspace_links::paths::{AbsPath, PathSeg, RelPath};
use workspace_links::plan::{plan, PlacementOptions};
use workspace_links::project::Project;
use workspace_links::project_directory::ProjectDirectory;
use workspace_links::resolver::{resolve, ResolvedLinkSet};

fn apath(segs: &[&str]) -> AbsPath {
    AbsPath {
        volume: String::new(),
        segments: segs.iter().map(|s| s.to_string()).collect(),
    }
}

fn rpath(segs: &[&str]) -> RelPath {
    RelPath {
        segments: segs
            .iter()
            .map(|s| match *s {
                ".." => PathSeg::Up,
                "." => PathSeg::Cur,
                other => PathSeg::Name(other.to_string()),
            })
            .collect(),
    }
}

#[test]
fn scenario_both_placements() {
    let mut project = Project::new(apath(&["monorepo"]));
    let mut root = ProjectDirectory::new(apath(&["monorepo", "apps", "root"]));
    root.add_link("ui".to_string(), rpath(&["..", "..", "packages", "ui"]));
    project.add_directory("root".to_string(), root);

    let set = resolve(&project, &"root".to_string()).unwrap();
    let root_ref = project.find(&"root".to_string()).unwrap();
    let opts = PlacementOptions { emit_at_workspace_root: true, emit_under_node_modules: true };
    let p = plan(&set, root_ref.root_path(), &opts);

    assert_eq!(p.skipped.len(), 0);
    assert_eq!(p.instructions.len(), 2);
    let at_root = &p.instructions[0];
    assert_eq!(at_root.link_path, apath(&["monorepo", "apps", "root", "ui"]));
    assert_eq!(at_root.link_target, rpath(&["..", "..", "packages", "ui"]));
    let nested = &p.instructions[1];
    assert_eq!(
        nested.link_path,
        apath(&["monorepo", "apps", "root", "node_modules", "ui"])
    );
    assert_eq!(nested.link_target, rpath(&["..", "..", "..", "packages", "ui"]));
}

#[test]
fn placement_only_under_dependency_dir() {
    let mut project = Project::new(apath(&["repo"]));
    let mut w = ProjectDirectory::new(apath(&["repo", "w"]));
    w.add_link("lib".to_string(), rpath(&["vendor", "lib"]));
    project.add_directory("w".to_string(), w);

    let set = resolve(&project, &"w".to_string()).unwrap();
    let w_ref = project.find(&"w".to_string()).unwrap();
    let opts = PlacementOptions { emit_at_workspace_root: false, emit_under_node_modules: true };
    let p = plan(&set, w_ref.root_path(), &opts);

    assert_eq!(p.instructions.len(), 1);
    assert_eq!(
        p.instructions[0].link_path,
        apath(&["repo", "w", "node_modules", "lib"])
    );
    assert_eq!(
        p.instructions[0].link_target,
        rpath(&["..", "vendor", "lib"])
    );
}

#[test]
fn placement_disabled_emits_nothing() {
    let mut project = Project::new(apath(&["repo"]));
    let mut w = ProjectDirectory::new(apath(&["repo", "w"]));
    w.add_link("lib".to_string(), rpath(&["vendor", "lib"]));
    project.add_directory("w".to_string(), w);

    let set = resolve(&project, &"w".to_string()).unwrap();
    let w_ref = project.find(&"w".to_string()).unwrap();
    let opts = PlacementOptions { emit_at_workspace_root: false, emit_under_node_modules: false };
    let p = plan(&set, w_ref.root_path(), &opts);
    assert_eq!(p.instructions.len(), 0);
    assert_eq!(p.skipped.len(), 0);
}

#[test]
fn other_volume_destination_is_skipped() {
    let mut set = ResolvedLinkSet::new();
    set.insert_if_absent(
        "n".to_string(),
        AbsPath { volume: "C:".to_string(), segments: vec!["x".to_string()] },
    );
    set.insert_if_absent("ok".to_string(), apath(&["repo", "dest"]));
    let root = apath(&["repo", "w"]);
    let opts = PlacementOptions { emit_at_workspace_root: true, emit_under_node_modules: false };
    let p = plan(&set, &root, &opts);

    assert_eq!(p.skipped, vec!["n".to_string()]);
    assert_eq!(p.instructions.len(), 1);
    assert_eq!(p.instructions[0].link_path, apath(&["repo", "w", "ok"]));
    assert_eq!(p.instructions[0].link_target, rpath(&["..", "dest"]));
}

#[test]
fn inherited_link_lands_at_owner_directory() {
    let mut project = Project::new(apath(&["repo"]));
    let mut a = ProjectDirectory::new(apath(&["repo", "a"]));
    a.add_link("x".to_string(), rpath(&[".", "vendor", "x"]));
    project.add_directory("a".to_string(), a);
    let mut b = ProjectDirectory::new(apath(&["repo", "b"]));
    b.add_import(&"a".to_string());
    project.add_directory("b".to_string(), b);

    let set = resolve(&project, &"b".to_string()).unwrap();
    let dest = set.lookup(&"x".to_string()).unwrap();
    assert_eq!(
        dest.segments,
        vec!["repo".to_string(), "a".to_string(), "vendor".to_string(), "x".to_string()]
    );

    let b_ref = project.find(&"b".to_string()).unwrap();
    let opts = PlacementOptions { emit_at_workspace_root: true, emit_under_node_modules: false };
    let p = plan(&set, b_ref.root_path(), &opts);
    assert_eq!(p.instructions.len(), 1);
    assert_eq!(p.instructions[0].link_path, apath(&["repo", "b", "x"]));
    assert_eq!(p.instructions[0].link_target, rpath(&["..", "a", "vendor", "x"]));
}

#[test]
fn plan_follows_resolution_order_then_placement() {
    let mut project = Project::new(apath(&["repo"]));
    let mut w = ProjectDirectory::new(apath(&["repo", "w"]));
    w.add_link("one".to_string(), rpath(&["d1"]));
    w.add_link("two".to_string(), rpath(&["d2"]));
    project.add_directory("w".to_string(), w);

    let set = resolve(&project, &"w".to_string()).unwrap();
    let w_ref = project.find(&"w".to_string()).unwrap();
    let opts = PlacementOptions { emit_at_workspace_root: true, emit_under_node_modules: true };
    let p = plan(&set, w_ref.root_path(), &opts);

    assert_eq!(p.instructions.len(), 4);
    assert_eq!(p.instructions[0].link_path, apath(&["repo", "w", "one"]));
    assert_eq!(
        p.instructions[1].link_path,
        apath(&["repo", "w", "node_modules", "one"])
    );
    assert_eq!(p.instructions[2].link_path, apath(&["repo", "w", "two"]));
    assert_eq!(
        p.instructions[3].link_path,
        apath(&["repo", "w", "node_modules", "two"])
    );
}
