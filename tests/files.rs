use vault_scan::digest::hash_bytes;
use vault_scan::files::{check_text_size, FsError, TEXT_SIZE_CAP};
use vault_scan::listing::{describe, list_directory, sort_entries, RawEntry};
use vault_scan::mime::guess_mime;

fn raw(name: &str, is_directory: bool, secs: Option<i64>) -> RawEntry {
    RawEntry {
        name: name.to_string(),
        path: format!("/d/{}", name),
        is_directory,
        size_bytes: 10,
        modified_secs: secs,
    }
}

#[test]
fn classify_ignores_case() {
    assert_eq!(guess_mime("report.MD"), "text/markdown");
    assert_eq!(guess_mime("report.md"), "text/markdown");
}

#[test]
fn classify_table() {
    assert_eq!(guess_mime("a.txt"), "text/plain");
    assert_eq!(guess_mime("a.JSON"), "application/json");
    assert_eq!(guess_mime("a.yml"), "text/yaml");
    assert_eq!(guess_mime("a.Yaml"), "text/yaml");
    assert_eq!(guess_mime("photo.JPEG"), "image/jpeg");
    assert_eq!(guess_mime("x.tar.gz"), "application/octet-stream");
    assert_eq!(guess_mime("deck.pptx"), "application/vnd.ms-powerpoint");
    assert_eq!(guess_mime("main.rs"), "text/x-rust");
    assert_eq!(guess_mime("archive.v1.go"), "text/x-go");
}

#[test]
fn classify_without_extension() {
    assert_eq!(guess_mime(""), "application/octet-stream");
    assert_eq!(guess_mime("md"), "application/octet-stream");
    assert_eq!(guess_mime("README"), "application/octet-stream");
    assert_eq!(guess_mime("name."), "application/octet-stream");
}

#[test]
fn empty_directory_lists_nothing() {
    assert!(list_directory(vec![]).is_empty());
}

#[test]
fn listing_hides_dot_entries() {
    let r = list_directory(vec![raw(".git", true, None), raw(".env", false, None), raw("a.md", false, None)]);
    assert_eq!(r.len(), 1);
    assert_eq!(r[0].name, "a.md");
    assert!(r.iter().all(|e| !e.name.starts_with('.')));
}

#[test]
fn listing_order() {
    let input = vec![
        raw("b.txt", false, None),
        raw("Zeta", true, None),
        raw("A.md", false, None),
        raw("alpha", true, None),
        raw("c.md", false, None),
    ];
    let names = |v: &Vec<vault_scan::listing::FileEntry>| -> Vec<String> { v.iter().map(|e| e.name.clone()).collect() };
    let first = list_directory(input);
    assert_eq!(names(&first), vec!["alpha", "Zeta", "A.md", "b.txt", "c.md"]);
    let again = list_directory(vec![
        raw("b.txt", false, None),
        raw("Zeta", true, None),
        raw("A.md", false, None),
        raw("alpha", true, None),
        raw("c.md", false, None),
    ]);
    assert_eq!(names(&first), names(&again));
    assert_eq!(names(&sort_entries(first)), names(&again));
}

#[test]
fn entry_description() {
    let e = describe(raw("notes.md", false, Some(0)));
    assert_eq!(e.path, "/d/notes.md");
    assert_eq!(e.mime_type, "text/markdown");
    assert_eq!(e.modified_at, "1970-01-01T00:00:00+00:00");
    assert_eq!(e.size_bytes, 10);
    let unknown = describe(raw("x", true, None));
    assert_eq!(unknown.modified_at, "");
    let out_of_range = describe(raw("y", false, Some(i64::MAX)));
    assert_eq!(out_of_range.modified_at, "");
}

#[test]
fn text_size_cap_boundary() {
    assert_eq!(TEXT_SIZE_CAP, 10 * 1024 * 1024);
    assert_eq!(check_text_size(10 * 1024 * 1024 - 1), Ok(()));
    assert_eq!(check_text_size(10 * 1024 * 1024), Err(FsError::TooLarge));
    assert_eq!(check_text_size(10 * 1024 * 1024 + 1), Err(FsError::TooLarge));
    assert_eq!(check_text_size(0), Ok(()));
}

#[test]
fn hash_is_deterministic() {
    let a = hash_bytes(b"hello world");
    let b = hash_bytes(&b"hello world".to_vec());
    assert_eq!(a, b);
    assert_eq!(a, "b94d27b9934d3e08a52e52d7da7dabfac484efe37a5380ee9088f7ace2efcde9");
    assert_ne!(hash_bytes(b"hello worle"), a);
    assert_eq!(hash_bytes(b""), "e3b0c44298fc1c149afbf4c8996fb92427ae41e4649b934ca495991b7852b855");
}


#[test]
fn entry_from_given_time() {
    let e = vault_scan::listing::entry_from(raw("pic.PNG", false, Some(5)), Some("t".to_string()));
    assert_eq!(e.modified_at, "t");
    assert_eq!(e.mime_type, "image/png");
    let f = vault_scan::listing::entry_from(raw("dir", true, None), None);
    assert_eq!(f.modified_at, "");
    assert!(f.is_directory);
}
