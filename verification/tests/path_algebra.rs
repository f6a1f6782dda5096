use workspace_links::paths::{join, relative_between, AbsPath, PathSeg, RelPath};

fn mk_abs(segs: &[&str]) -> AbsPath {
    AbsPath {
        volume: String::new(),
        segments: segs.iter().map(|s| s.to_string()).collect(),
    }
}

fn mk_abs_on(volume: &str, segs: &[&str]) -> AbsPath {
    AbsPath {
        volume: volume.to_string(),
        segments: segs.iter().map(|s| s.to_string()).collect(),
    }
}

fn mk_rel(segs: &[&str]) -> RelPath {
    RelPath {
        segments: segs
            .iter()
            .map(|s| match *s {
                ".." => PathSeg::Up,
                "." => PathSeg::Cur,
                other => PathSeg::Name(other.to_string()),
            })
            .collect(),
    }
}

#[test]
fn join_resolves_dots_and_parents() {
    let base = mk_abs(&["a", "b"]);
    let rel = mk_rel(&["..", "c", ".", "d"]);
    let joined = join(&base, &rel);
    assert_eq!(joined, mk_abs(&["a", "c", "d"]));
}

#[test]
fn join_plain_append() {
    let base = mk_abs(&["a"]);
    let rel = mk_rel(&["b", "c"]);
    assert_eq!(join(&base, &rel), mk_abs(&["a", "b", "c"]));
}

#[test]
fn join_above_root_stays_at_root() {
    let base = mk_abs(&[]);
    let rel = mk_rel(&["..", "x"]);
    assert_eq!(join(&base, &rel), mk_abs(&["x"]));
}

#[test]
fn join_keeps_volume() {
    let base = mk_abs_on("C:", &["a"]);
    let rel = mk_rel(&["b"]);
    assert_eq!(join(&base, &rel), mk_abs_on("C:", &["a", "b"]));
}

#[test]
fn relative_between_computes_ups_and_downs() {
    let from = mk_abs(&["a", "b", "c"]);
    let to = mk_abs(&["a", "d"]);
    let rel = relative_between(&from, &to).unwrap();
    assert_eq!(rel, mk_rel(&["..", "..", "d"]));
}

#[test]
fn relative_between_same_path_is_empty() {
    let from = mk_abs(&["a", "b"]);
    let to = mk_abs(&["a", "b"]);
    let rel = relative_between(&from, &to).unwrap();
    assert_eq!(rel, mk_rel(&[]));
}

#[test]
fn relative_between_target_below_dir() {
    let from = mk_abs(&["a"]);
    let to = mk_abs(&["a", "b", "c"]);
    let rel = relative_between(&from, &to).unwrap();
    assert_eq!(rel, mk_rel(&["b", "c"]));
}

#[test]
fn relative_between_volume_mismatch_reports_both() {
    let from = mk_abs(&["a"]);
    let to = mk_abs_on("C:", &["a"]);
    let err = relative_between(&from, &to).unwrap_err();
    assert_eq!(err.from_volume, "".to_string());
    assert_eq!(err.to_volume, "C:".to_string());
}

#[test]
fn join_relative_round_trip() {
    let cases: Vec<(Vec<&str>, Vec<&str>)> = vec![
        (vec!["a", "b", "c"], vec!["a", "d"]),
        (vec![], vec!["x"]),
        (vec!["x"], vec![]),
        (vec!["m", "n"], vec!["m", "n"]),
        (vec!["repo", "apps", "web"], vec!["repo", "packages", "ui"]),
    ];
    for (d, t) in cases {
        let from = mk_abs(&d);
        let to = mk_abs(&t);
        let rel = relative_between(&from, &to).unwrap();
        assert_eq!(join(&from, &rel), to);
    }
}
