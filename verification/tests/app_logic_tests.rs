use explorer_rs::config::{bookmark_for, Bookmark};
use explorer_rs::fs_ops::{clipboard_text, new_text_file_candidate, rename_target};

#[test]
fn new_text_file_names() {
    assert_eq!(new_text_file_candidate("/d", 0, '/'), "/d/新しいテキスト ドキュメント.txt");
    assert_eq!(new_text_file_candidate("/d", 3, '/'), "/d/新しいテキスト ドキュメント (3).txt");
}

#[test]
fn clipboard_texts() {
    let sel = vec!["/a/x.txt".to_string(), "/a/y".to_string()];
    assert_eq!(clipboard_text(&sel, "/a", false, '/'), "/a/x.txt\n/a/y");
    assert_eq!(clipboard_text(&sel, "/a", true, '/'), "x.txt\ny");
    assert_eq!(clipboard_text(&[], "/a/b", true, '/'), "b");
    assert_eq!(clipboard_text(&[], "/", true, '/'), "/");
    assert_eq!(clipboard_text(&[], "/a/b", false, '/'), "/a/b");
}

#[test]
fn rename_targets() {
    assert_eq!(rename_target("/a/b.txt", "c.txt", '/'), "/a/c.txt");
    assert_eq!(rename_target("C:\\a\\b.txt", "c.txt", '\\'), "C:\\a\\c.txt");
    assert_eq!(rename_target("b.txt", "c.txt", '/'), "c.txt");
}

#[test]
fn bookmarks_added_once() {
    let existing = vec![Bookmark { name: "t".into(), path: "/tmp".into() }];
    assert!(bookmark_for(&existing, "/tmp", '/').is_none());
    let b = bookmark_for(&existing, "/home/u/work", '/').unwrap();
    assert_eq!((b.name.as_str(), b.path.as_str()), ("work", "/home/u/work"));
    let root = bookmark_for(&existing, "/", '/').unwrap();
    assert_eq!(root.name, "ブックマーク");
}
