use vault_scan::discover::{dedup_vaults, scan_roots, user_directories, vault_at, ObsidianVault};
use vault_scan::tree::{count_markdown_files, has_marker, is_note_name, is_pruned, walkdir_scan, DirNode};

fn dir(name: &str, path: &str, files: &[&str], subdirs: Vec<DirNode>) -> DirNode {
    DirNode {
        name: name.to_string(),
        path: path.to_string(),
        files: files.iter().map(|f| f.to_string()).collect(),
        subdirs,
    }
}

fn marker(parent: &str) -> DirNode {
    dir(".obsidian", &format!("{}/.obsidian", parent), &[], vec![])
}

fn sample_tree() -> DirNode {
    let trash = dir(".trash", "/r/sub/.trash", &["note3.md"], vec![]);
    let sub = dir("sub", "/r/sub", &["note2.md"], vec![trash]);
    dir("r", "/r", &["note1.md"], vec![marker("/r"), sub])
}

#[test]
fn vault_tree_scenario() {
    let root = sample_tree();
    assert_eq!(walkdir_scan(&root, 4), vec!["/r".to_string()]);
    assert_eq!(count_markdown_files(&root), 2);
}

#[test]
fn nested_vault_not_reported() {
    let inner = dir("inner", "/h/v/inner", &[], vec![marker("/h/v/inner")]);
    let vault = dir("v", "/h/v", &[], vec![marker("/h/v"), inner]);
    let home = dir("h", "/h", &[], vec![vault]);
    assert_eq!(walkdir_scan(&home, 4), vec!["/h/v".to_string()]);
}

#[test]
fn depth_zero_inspects_root_only() {
    let child = dir("a", "/h/a", &[], vec![marker("/h/a")]);
    let home = dir("h", "/h", &[], vec![child]);
    assert!(walkdir_scan(&home, 0).is_empty());
    assert_eq!(walkdir_scan(&home, 1), vec!["/h/a".to_string()]);
    let root_vault = dir("h", "/h", &[], vec![marker("/h")]);
    assert_eq!(walkdir_scan(&root_vault, 0), vec!["/h".to_string()]);
}

#[test]
fn depth_limit_is_inclusive() {
    let deep = dir("c", "/h/a/b/c", &[], vec![marker("/h/a/b/c")]);
    let b = dir("b", "/h/a/b", &[], vec![deep]);
    let a = dir("a", "/h/a", &[], vec![b]);
    let home = dir("h", "/h", &[], vec![a]);
    assert!(walkdir_scan(&home, 2).is_empty());
    assert_eq!(walkdir_scan(&home, 3), vec!["/h/a/b/c".to_string()]);
}

#[test]
fn pruned_directories_are_skipped() {
    for name in ["node_modules", "Library", "dist", "target", ".Trash", ".cache"] {
        let path = format!("/h/{}", name);
        let v = dir(name, &path, &[], vec![marker(&path)]);
        let home = dir("h", "/h", &[], vec![v]);
        assert!(walkdir_scan(&home, 4).is_empty(), "{}", name);
        assert!(is_pruned(name));
    }
    assert!(!is_pruned("notes"));
    let named_root = dir("node_modules", "/x/node_modules", &[], vec![marker("/x/node_modules")]);
    assert_eq!(walkdir_scan(&named_root, 4), vec!["/x/node_modules".to_string()]);
}

#[test]
fn vaults_reported_in_child_order() {
    let a = dir("a", "/h/a", &[], vec![marker("/h/a")]);
    let b = dir("b", "/h/b", &[], vec![marker("/h/b")]);
    let home = dir("h", "/h", &[], vec![a, b]);
    assert_eq!(walkdir_scan(&home, 4), vec!["/h/a".to_string(), "/h/b".to_string()]);
    assert!(!has_marker(&home));
}

#[test]
fn note_names() {
    assert!(is_note_name("a.md"));
    assert!(is_note_name(".x.md"));
    assert!(!is_note_name(".md"));
    assert!(!is_note_name("a.MD"));
    assert!(!is_note_name("a.mdx"));
    assert!(!is_note_name("md"));
}

#[test]
fn count_skips_hidden_directories_only() {
    let hidden = dir(".hidden", "/v/.hidden", &["a.md"], vec![]);
    let open = dir("open", "/v/open", &["b.md", "c.txt"], vec![]);
    let v = dir("v", "/v", &[".dot.md", "d.md", "e.pdf"], vec![hidden, open]);
    assert_eq!(count_markdown_files(&v), 3);
    assert_eq!(count_markdown_files(&dir("e", "/e", &[], vec![])), 0);
}

fn vault(path: &str, n: usize) -> ObsidianVault {
    vault_at(path.to_string(), n)
}

#[test]
fn dedup_removes_overlapping_roots() {
    let found = vec![vault("/h/b", 1), vault("/h/a", 2), vault("/h/b", 3), vault("/h/a", 4)];
    let r = dedup_vaults(found);
    let paths: Vec<&str> = r.iter().map(|v| v.path.as_str()).collect();
    assert_eq!(paths, vec!["/h/a", "/h/b"]);
    assert_eq!(r[0].note_count, 2);
    assert_eq!(r[1].note_count, 1);
    assert!(dedup_vaults(vec![]).is_empty());
}

#[test]
fn vault_named_after_last_component() {
    let v = vault_at("/home/u/Notes".to_string(), 7);
    assert_eq!(v.name, "Notes");
    assert_eq!(v.path, "/home/u/Notes");
    assert_eq!(v.note_count, 7);
}

#[test]
fn roots_under_home() {
    assert_eq!(
        scan_roots("/home/u"),
        vec![
            "/home/u/Documents".to_string(),
            "/home/u/Desktop".to_string(),
            "/home/u/Obsidian".to_string(),
            "/home/u".to_string(),
        ]
    );
}

#[test]
fn user_folders() {
    let d = user_directories("/home/u");
    assert_eq!(d.home, "/home/u");
    assert_eq!(d.desktop, "/home/u/Desktop");
    assert_eq!(d.documents, "/home/u/Documents");
    assert_eq!(d.downloads, "/home/u/Downloads");
}
