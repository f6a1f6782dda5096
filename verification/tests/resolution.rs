use workspace_links::paths::{AbsPath, PathSeg, RelPath};
use workspace_links::project::Project;
use workspace_links::project_directory::ProjectDirectory;
use workspace_links::resolver::{resolve, ResolutionError, ResolvedLinkSet};

fn abs(segs: &[&str]) -> AbsPath {
    AbsPath {
        volume: String::new(),
        segments: segs.iter().map(|s| s.to_string()).collect(),
    }
}

fn rel(segs: &[&str]) -> RelPath {
    RelPath {
        segments: segs
            .iter()
            .map(|s| match *s {
                ".." => PathSeg::Up,
                "." => PathSeg::Cur,
                other => PathSeg::Name(other.to_string()),
            })
            .collect(),
    }
}

fn lookup_segments(set: &ResolvedLinkSet, name: &str) -> Vec<String> {
    set.lookup(&name.to_string()).expect("name not resolved").segments.clone()
}

#[test]
fn own_link_beats_import() {
    let mut project = Project::new(abs(&["repo"]));
    let mut a = ProjectDirectory::new(abs(&["repo", "a"]));
    a.add_link("n".to_string(), rel(&["a_dest"]));
    project.add_directory("a".to_string(), a);
    let mut w = ProjectDirectory::new(abs(&["repo", "w"]));
    w.add_link("n".to_string(), rel(&["w_dest"]));
    w.add_import(&"a".to_string());
    project.add_directory("w".to_string(), w);

    let set = resolve(&project, &"w".to_string()).unwrap();
    assert_eq!(lookup_segments(&set, "n"), vec!["repo", "w", "w_dest"]);
}

#[test]
fn import_order_first_wins() {
    let mut project = Project::new(abs(&["repo"]));
    let mut a = ProjectDirectory::new(abs(&["repo", "a"]));
    a.add_link("n".to_string(), rel(&["from_a"]));
    project.add_directory("a".to_string(), a);
    let mut b = ProjectDirectory::new(abs(&["repo", "b"]));
    b.add_link("n".to_string(), rel(&["from_b"]));
    project.add_directory("b".to_string(), b);
    let mut w = ProjectDirectory::new(abs(&["repo", "w"]));
    w.add_import(&"a".to_string());
    w.add_import(&"b".to_string());
    project.add_directory("w".to_string(), w);

    let set = resolve(&project, &"w".to_string()).unwrap();
    assert_eq!(lookup_segments(&set, "n"), vec!["repo", "a", "from_a"]);
}

#[test]
fn transitive_import_resolves() {
    let mut project = Project::new(abs(&["repo"]));
    let mut b = ProjectDirectory::new(abs(&["repo", "b"]));
    b.add_link("n".to_string(), rel(&["deep"]));
    project.add_directory("b".to_string(), b);
    let mut a = ProjectDirectory::new(abs(&["repo", "a"]));
    a.add_import(&"b".to_string());
    project.add_directory("a".to_string(), a);
    let mut w = ProjectDirectory::new(abs(&["repo", "w"]));
    w.add_import(&"a".to_string());
    project.add_directory("w".to_string(), w);

    let set = resolve(&project, &"w".to_string()).unwrap();
    assert_eq!(lookup_segments(&set, "n"), vec!["repo", "b", "deep"]);
}

#[test]
fn mutual_imports_cycle_detected() {
    let mut project = Project::new(abs(&["repo"]));
    let mut a = ProjectDirectory::new(abs(&["repo", "a"]));
    a.add_import(&"b".to_string());
    project.add_directory("a".to_string(), a);
    let mut b = ProjectDirectory::new(abs(&["repo", "b"]));
    b.add_import(&"a".to_string());
    project.add_directory("b".to_string(), b);

    let err_a = resolve(&project, &"a".to_string()).unwrap_err();
    assert_eq!(
        err_a,
        ResolutionError::Cycle(vec!["a".to_string(), "b".to_string(), "a".to_string()])
    );
    let err_b = resolve(&project, &"b".to_string()).unwrap_err();
    assert_eq!(
        err_b,
        ResolutionError::Cycle(vec!["b".to_string(), "a".to_string(), "b".to_string()])
    );
}

#[test]
fn self_import_cycle_detected() {
    let mut project = Project::new(abs(&["repo"]));
    let mut a = ProjectDirectory::new(abs(&["repo", "a"]));
    a.add_import(&"a".to_string());
    project.add_directory("a".to_string(), a);

    let err = resolve(&project, &"a".to_string()).unwrap_err();
    assert_eq!(err, ResolutionError::Cycle(vec!["a".to_string(), "a".to_string()]));
}

#[test]
fn unknown_import_reported() {
    let mut project = Project::new(abs(&["repo"]));
    let mut w = ProjectDirectory::new(abs(&["repo", "w"]));
    w.add_import(&"ghost".to_string());
    project.add_directory("w".to_string(), w);

    let err = resolve(&project, &"w".to_string()).unwrap_err();
    assert_eq!(err, ResolutionError::UnknownImport("ghost".to_string()));
}

#[test]
fn unknown_start_key_reported() {
    let project = Project::new(abs(&["repo"]));
    let err = resolve(&project, &"nope".to_string()).unwrap_err();
    assert_eq!(err, ResolutionError::UnknownImport("nope".to_string()));
}

#[test]
fn repeated_resolution_is_deterministic() {
    let mut project = Project::new(abs(&["repo"]));
    let mut a = ProjectDirectory::new(abs(&["repo", "a"]));
    a.add_link("y".to_string(), rel(&["ay"]));
    a.add_link("z".to_string(), rel(&["az"]));
    project.add_directory("a".to_string(), a);
    let mut w = ProjectDirectory::new(abs(&["repo", "w"]));
    w.add_link("x".to_string(), rel(&["wx"]));
    w.add_import(&"a".to_string());
    project.add_directory("w".to_string(), w);

    let first = resolve(&project, &"w".to_string()).unwrap();
    let second = resolve(&project, &"w".to_string()).unwrap();
    assert_eq!(first.len(), second.len());
    let mut i = 0;
    while i < first.len() {
        let e1 = first.entry_at(i);
        let e2 = second.entry_at(i);
        assert_eq!(e1.name, e2.name);
        assert_eq!(e1.destination, e2.destination);
        i += 1;
    }
}

#[test]
fn resolution_order_own_links_then_imports() {
    let mut project = Project::new(abs(&["repo"]));
    let mut a = ProjectDirectory::new(abs(&["repo", "a"]));
    a.add_link("y".to_string(), rel(&["ay"]));
    a.add_link("z".to_string(), rel(&["az"]));
    project.add_directory("a".to_string(), a);
    let mut w = ProjectDirectory::new(abs(&["repo", "w"]));
    w.add_link("x".to_string(), rel(&["wx"]));
    w.add_link("y".to_string(), rel(&["wy"]));
    w.add_import(&"a".to_string());
    project.add_directory("w".to_string(), w);

    let set = resolve(&project, &"w".to_string()).unwrap();
    assert_eq!(set.len(), 3);
    assert_eq!(set.entry_at(0).name, "x".to_string());
    assert_eq!(set.entry_at(1).name, "y".to_string());
    assert_eq!(set.entry_at(2).name, "z".to_string());
    assert_eq!(lookup_segments(&set, "y"), vec!["repo", "w", "wy"]);
    assert_eq!(lookup_segments(&set, "z"), vec!["repo", "a", "az"]);
}

#[test]
fn duplicate_own_link_first_wins() {
    let mut project = Project::new(abs(&["repo"]));
    let mut w = ProjectDirectory::new(abs(&["repo", "w"]));
    w.add_link("n".to_string(), rel(&["first"]));
    w.add_link("n".to_string(), rel(&["second"]));
    project.add_directory("w".to_string(), w);

    let set = resolve(&project, &"w".to_string()).unwrap();
    assert_eq!(set.len(), 1);
    assert_eq!(lookup_segments(&set, "n"), vec!["repo", "w", "first"]);
}

#[test]
fn get_links_matches_registry_resolution() {
    let mut project = Project::new(abs(&["repo"]));
    let mut a = ProjectDirectory::new(abs(&["repo", "a"]));
    a.add_link("n".to_string(), rel(&["na"]));
    project.add_directory("a".to_string(), a);
    let mut w = ProjectDirectory::new(abs(&["repo", "w"]));
    w.add_import(&"a".to_string());
    project.add_directory("w".to_string(), w);

    let via_key = resolve(&project, &"w".to_string()).unwrap();
    let w_ref = project.find(&"w".to_string()).unwrap();
    let via_node = w_ref.get_links(&project).unwrap();
    assert_eq!(via_key.len(), via_node.len());
    let mut i = 0;
    while i < via_key.len() {
        assert_eq!(via_key.entry_at(i).name, via_node.entry_at(i).name);
        assert_eq!(via_key.entry_at(i).destination, via_node.entry_at(i).destination);
        i += 1;
    }
}

#[test]
fn registry_last_registration_wins() {
    let mut project = Project::new(abs(&["repo"]));
    let first = ProjectDirectory::new(abs(&["repo", "old"]));
    project.add_directory("k".to_string(), first);
    let second = ProjectDirectory::new(abs(&["repo", "new"]));
    project.add_directory("k".to_string(), second);

    assert_eq!(project.num_dirs(), 1);
    let found = project.find(&"k".to_string()).unwrap();
    assert_eq!(found.root_path().segments, vec!["repo".to_string(), "new".to_string()]);
}

#[test]
fn empty_workspace_resolves_to_empty_set() {
    let mut project = Project::new(abs(&["repo"]));
    project.add_directory("w".to_string(), ProjectDirectory::new(abs(&["repo", "w"])));
    let set = resolve(&project, &"w".to_string()).unwrap();
    assert_eq!(set.len(), 0);
    assert!(set.lookup(&"anything".to_string()).is_none());
}

#[test]
fn workspace_accessors_reflect_declarations() {
    let mut w = ProjectDirectory::new(abs(&["repo", "w"]));
    w.add_link("a".to_string(), rel(&["da"]));
    w.add_link("b".to_string(), rel(&["..", "db"]));
    w.add_import(&"k1".to_string());
    assert_eq!(w.num_links(), 2);
    assert_eq!(w.link_at(0).link, "a".to_string());
    assert_eq!(w.link_at(1).destination_relative, rel(&["..", "db"]));
    assert_eq!(w.num_imports(), 1);
    assert_eq!(w.import_at(0), &"k1".to_string());
    assert_eq!(w.root_path(), &abs(&["repo", "w"]));
}

#[test]
fn project_keeps_its_root_path() {
    let project = Project::new(abs(&["repo", "nested"]));
    assert_eq!(project.project_path(), &abs(&["repo", "nested"]));
    assert_eq!(project.num_dirs(), 0);
}

#[test]
fn registry_iteration_follows_registration_order() {
    let mut project = Project::new(abs(&["repo"]));
    project.add_directory("b".to_string(), ProjectDirectory::new(abs(&["repo", "b"])));
    project.add_directory("a".to_string(), ProjectDirectory::new(abs(&["repo", "a"])));
    assert_eq!(project.num_dirs(), 2);
    assert_eq!(project.key_at(0), &"b".to_string());
    assert_eq!(project.key_at(1), &"a".to_string());
    assert_eq!(project.dir_at(1).root_path(), &abs(&["repo", "a"]));
}
