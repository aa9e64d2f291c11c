use explorer_rs::config::SortBy;
use explorer_rs::fs_ops::listed_names;
use explorer_rs::paths::drive_roots;
use explorer_rs::tab::Tab;
use explorer_rs::tab_strip::{title_of, TabStrip};

fn tab(p: &str) -> Tab {
    Tab::new(p.to_string(), false, SortBy::Name, false)
}

#[test]
fn strip_keeps_one_tab_and_a_valid_active_index() {
    let mut s = TabStrip::new(tab("/a"));
    assert!(!s.close(0));
    s.open(tab("/b"));
    s.open(tab("/c"));
    assert_eq!(s.active, 2);
    assert!(s.close(2));
    assert_eq!(s.active, 1);
    assert_eq!(s.current().current, "/b");
    assert!(s.switch_to(0));
    assert!(!s.switch_to(5));
    assert!(s.close(1));
    assert_eq!(s.tabs.len(), 1);
    assert_eq!(s.active, 0);
}

#[test]
fn strip_duplicate_and_keep_only() {
    let mut s = TabStrip::new(tab("/a"));
    s.tabs[0].navigate_to_async("/b".to_string(), true, '/');
    assert!(s.duplicate(0));
    assert_eq!(s.tabs.len(), 2);
    assert_eq!(s.active, 0);
    assert_eq!(s.tabs[1].current, "/b");
    assert!(s.tabs[1].history_back.is_empty());
    assert!(s.keep_only(1));
    assert_eq!(s.tabs.len(), 1);
    assert_eq!(s.current().current, "/b");
    assert!(!s.keep_only(3));
}

#[test]
fn titles_and_roots() {
    assert_eq!(title_of("/home/u", '/'), "u");
    assert_eq!(title_of("/", '/'), "/");
    assert_eq!(title_of("C:\\", '\\'), "C:\\");
    let w = drive_roots(true);
    assert_eq!(w.len(), 26);
    assert_eq!(w[0], "A:\\");
    assert_eq!(w[25], "Z:\\");
    assert_eq!(drive_roots(false), vec!["/", "/home", "/tmp"]);
}

#[test]
fn delete_confirmation_names() {
    let paths: Vec<String> = (0..10).map(|i| format!("/d/f{i}.txt")).collect();
    let names = listed_names(&paths, 8, '/');
    assert_eq!(names.len(), 8);
    assert_eq!(names[0], "f0.txt");
    assert_eq!(listed_names(&paths[..2], 8, '/'), vec!["f0.txt", "f1.txt"]);
}
