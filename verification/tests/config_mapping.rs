use workspace_links::config_patch::{
    config_paths_update, wildcard_mappings, ConfigPathsUpdate,
};
use workspace_links::paths::{AbsPath, PathSeg, RelPath};
use workspace_links::resolver::ResolvedLinkSet;

fn wpath(segs: &[&str]) -> AbsPath {
    AbsPath {
        volume: String::new(),
        segments: segs.iter().map(|s| s.to_string()).collect(),
    }
}

fn wrel(segs: &[&str]) -> RelPath {
    RelPath {
        segments: segs
            .iter()
            .map(|s| match *s {
                ".." => PathSeg::Up,
                "." => PathSeg::Cur,
                other => PathSeg::Name(other.to_string()),
            })
            .collect(),
    }
}

#[test]
fn wildcard_mapping_appends_star_on_both_sides() {
    let mut set = ResolvedLinkSet::new();
    set.insert_if_absent("ui".to_string(), wpath(&["repo", "packages", "ui"]));
    let root = wpath(&["repo", "apps", "m"]);
    let mappings = wildcard_mappings(&set, &root);

    assert_eq!(mappings.len(), 1);
    assert_eq!(mappings[0].alias, wrel(&["ui", "*"]));
    assert_eq!(mappings[0].target, wrel(&["..", "..", "packages", "ui", "*"]));
}

#[test]
fn wildcard_mapping_skips_other_volume() {
    let mut set = ResolvedLinkSet::new();
    set.insert_if_absent(
        "far".to_string(),
        AbsPath { volume: "D:".to_string(), segments: vec!["x".to_string()] },
    );
    let root = wpath(&["repo"]);
    let mappings = wildcard_mappings(&set, &root);
    assert_eq!(mappings.len(), 0);
}

#[test]
fn config_update_keeps_absent_block() {
    let set = ResolvedLinkSet::new();
    let root = wpath(&["repo"]);
    let update = config_paths_update(&set, &root, false);
    assert!(matches!(update, ConfigPathsUpdate::KeepUnchanged));
}

#[test]
fn config_update_removes_empty_block() {
    let set = ResolvedLinkSet::new();
    let root = wpath(&["repo"]);
    let update = config_paths_update(&set, &root, true);
    assert!(matches!(update, ConfigPathsUpdate::RemovePaths));
}

#[test]
fn config_update_sets_mappings() {
    let mut set = ResolvedLinkSet::new();
    set.insert_if_absent("ui".to_string(), wpath(&["repo", "packages", "ui"]));
    let root = wpath(&["repo", "apps", "m"]);
    let update = config_paths_update(&set, &root, false);
    match update {
        ConfigPathsUpdate::SetPaths(mappings) => {
            assert_eq!(mappings.len(), 1);
            assert_eq!(mappings[0].alias, wrel(&["ui", "*"]));
            assert_eq!(
                mappings[0].target,
                wrel(&["..", "..", "packages", "ui", "*"])
            );
        },
        other => panic!("expected SetPaths, got {:?}", other),
    }
}
