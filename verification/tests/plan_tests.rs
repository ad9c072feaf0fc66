use simplesync::plan::{mirror_deletions, mkdir_paths, sorted_unique_dirs, upload_dirs};
use simplesync::pull::{path_under, pull_relative_path};

fn strings(v: &[&str]) -> Vec<String> {
    v.iter().map(|s| s.to_string()).collect()
}

#[test]
fn upload_dirs_are_sorted_and_unique() {
    let rels = strings(&["b/x.txt", "a/y.txt", "top.txt", "b/z.txt", "a/c/d.txt"]);
    assert_eq!(upload_dirs(&rels), strings(&["a", "a/c", "b"]));
    assert_eq!(upload_dirs(&strings(&["only.txt"])), Vec::<String>::new());
}

#[test]
fn mkdir_paths_go_top_down() {
    let dirs = strings(&["a", "a/c"]);
    assert_eq!(
        mkdir_paths("/Backup/", &dirs),
        strings(&["Backup", "Backup/a", "Backup", "Backup/a", "Backup/a/c"])
    );
    assert_eq!(mkdir_paths("/", &strings(&["x/y"])), strings(&["x", "x/y"]));
}

#[test]
fn mirror_deletes_what_is_not_local() {
    let rels = strings(&["a.txt", "sub/b.txt"]);
    let remote = strings(&["/Backup/a.txt", "/Backup/old.txt", "/Backup/sub/b.txt", "/Backup/sub/c.txt"]);
    assert_eq!(
        mirror_deletions("/Backup/", &rels, &remote),
        strings(&["/Backup/old.txt", "/Backup/sub/c.txt"])
    );
}

#[test]
fn sorted_unique_dirs_drop_empty_and_repeated_parents() {
    let parents = vec![Some("b".to_string()), None, Some(String::new()), Some("a".to_string()), Some("b".to_string())];
    assert_eq!(sorted_unique_dirs(&parents), strings(&["a", "b"]));
}

#[test]
fn pushed_paths_come_back_in_a_pull() {
    for remote in ["/Backup/", "/Backup", "/", "", "//deep/er//"] {
        for rel in ["a.txt", "sub/b.txt", ""] {
            let base = remote.trim_end_matches('/');
            let pushed = path_under(base, rel);
            assert_eq!(pull_relative_path(&pushed, remote), rel);
        }
    }
}

#[test]
fn a_mirror_keeps_every_local_copy() {
    let rels = strings(&["x", "y/z"]);
    let remote = strings(&["/R/x", "/R/y/z", "/R/y/w"]);
    let deleted = mirror_deletions("/R", &rels, &remote);
    assert!(!deleted.contains(&"/R/x".to_string()));
    assert!(!deleted.contains(&"/R/y/z".to_string()));
    assert_eq!(deleted, strings(&["/R/y/w"]));
}
