use explorer_rs::config::SortBy;
use explorer_rs::tab::{header_clicked, hidden_by_attributes, search_matches, FileEntry, Tab};

fn row(dir: &str, name: &str, is_dir: bool, size: u64, modified: Option<i128>) -> FileEntry {
    FileEntry::from_path(&format!("{dir}/{name}"), '/', is_dir, size, modified, false).unwrap()
}

fn listed(dir: &str, rows: Vec<FileEntry>, show_hidden: bool, by: SortBy, desc: bool) -> Tab {
    let mut tab = Tab::new(dir.to_string(), show_hidden, by, desc);
    tab.refresh(rows, None, '/');
    tab
}

#[test]
fn rows_sort_with_directories_first() {
    let rows = vec![
        row("/t", "a.txt", false, 1, None),
        row("/t", "sub", true, 0, None),
        row("/t", "z.txt", false, 1, None),
    ];
    let tab = listed("/t", rows, true, SortBy::Name, false);
    assert!(tab.entries[0].is_dir);
    assert_eq!(tab.entries[0].name, "sub");
}

#[test]
fn rows_sort_naturally_by_name() {
    let rows = vec![
        row("/n", "file10.txt", false, 1, None),
        row("/n", "file2.txt", false, 1, None),
        row("/n", "file1.txt", false, 1, None),
    ];
    let tab = listed("/n", rows, true, SortBy::Name, false);
    let names: Vec<_> = tab.entries.iter().map(|e| e.name.as_str()).collect();
    assert_eq!(names, vec!["file1.txt", "file2.txt", "file10.txt"]);
}

#[test]
fn descending_order_reverses_everything() {
    let rows = vec![
        row("/n", "b", false, 2, None),
        row("/n", "d", true, 0, None),
        row("/n", "a", false, 9, None),
    ];
    let tab = listed("/n", rows, true, SortBy::Size, true);
    let names: Vec<_> = tab.entries.iter().map(|e| e.name.as_str()).collect();
    assert_eq!(names, vec!["a", "b", "d"]);
}

#[test]
fn sort_by_type_then_name() {
    let rows = vec![
        row("/n", "b.txt", false, 1, None),
        row("/n", "a.rs", false, 1, None),
        row("/n", "a.txt", false, 1, None),
    ];
    let tab = listed("/n", rows, true, SortBy::Type, false);
    let names: Vec<_> = tab.entries.iter().map(|e| e.name.as_str()).collect();
    assert_eq!(names, vec!["a.rs", "a.txt", "b.txt"]);
}

#[test]
fn sort_by_modified_puts_unknown_first() {
    let rows = vec![
        row("/n", "new", false, 1, Some(20)),
        row("/n", "none", false, 1, None),
        row("/n", "old", false, 1, Some(-5)),
    ];
    let tab = listed("/n", rows, true, SortBy::Modified, false);
    let names: Vec<_> = tab.entries.iter().map(|e| e.name.as_str()).collect();
    assert_eq!(names, vec!["none", "old", "new"]);
}

fn five() -> Tab {
    let rows = (0..5).map(|i| row("/s", &format!("f{i}.txt"), false, 1, None)).collect();
    listed("/s", rows, true, SortBy::Name, false)
}

#[test]
fn selection_range_all_and_invert() {
    let mut tab = five();
    tab.select_only(1);
    tab.select_range_to(3);
    assert_eq!(tab.selected.len(), 3);
    tab.select_all();
    assert_eq!(tab.selected.len(), tab.entries.len());
    tab.invert_selection();
    assert!(tab.selected.is_empty());
}

#[test]
fn hidden_rows_are_filtered() {
    let rows = vec![row("/h", ".hidden", false, 1, None), row("/h", "visible.txt", false, 1, None)];
    let shown = Tab::filter_listing(rows.clone(), false, "");
    assert_eq!(shown.len(), 1);
    assert_eq!(shown[0].name, "visible.txt");
    assert_eq!(Tab::filter_listing(rows.clone(), true, "").len(), 2);
    assert_eq!(Tab::filter_listing(rows, true, "VIS").len(), 1);
}

#[test]
fn focus_moves_are_clamped() {
    let rows = (0..3).map(|i| row("/f", &format!("f{i}.txt"), false, 1, None)).collect();
    let mut tab = listed("/f", rows, true, SortBy::Name, false);
    tab.select_only(0);
    tab.move_focus_by(10, false);
    assert_eq!(tab.focus, Some(2));
    tab.move_focus_by(-100, false);
    assert_eq!(tab.focus, Some(0));
    tab.move_focus_by(2, true);
    assert_eq!(tab.selected.len(), 3);
    tab.focus_first(false);
    assert_eq!(tab.focus, Some(0));
    tab.focus_last(false);
    assert_eq!(tab.focus, Some(2));
    assert_eq!(tab.selected.len(), 1);
}

#[test]
fn navigation_without_listing_clears_rows() {
    let mut tab = listed("/nav-a", vec![row("/nav-a", "x.txt", false, 1, None)], true, SortBy::Name, false);
    assert!(!tab.entries.is_empty());
    assert!(tab.navigate_to_async("/nav-b".to_string(), true, '/'));
    assert!(tab.entries.is_empty());
    assert_eq!(tab.current, "/nav-b");
    assert!(!tab.navigate_to_async("/nav-b".to_string(), true, '/'));
    assert!(!tab.navigate_to_async("/nav-c".to_string(), false, '/'));
}

#[test]
fn back_and_forward_undo_each_other() {
    let mut tab = Tab::new("/a".to_string(), true, SortBy::Name, false);
    assert!(tab.navigate_to_async("/b".to_string(), true, '/'));
    assert!(tab.go_back());
    assert_eq!(tab.current, "/a");
    assert!(tab.go_forward());
    assert_eq!(tab.current, "/b");
    assert!(!tab.go_forward());
}

#[test]
fn going_up_and_entering() {
    let mut tab = listed("/a/b", vec![row("/a/b", "sub", true, 0, None)], true, SortBy::Name, false);
    assert_eq!(tab.parent_path('/').as_deref(), Some("/a"));
    tab.select_only(0);
    assert_eq!(tab.primary_selected().map(|e| e.name.clone()), Some("sub".to_string()));
    assert_eq!(tab.selected_paths(), vec!["/a/b/sub".to_string()]);
    assert_eq!(tab.enter_primary(true, '/'), None);
    assert_eq!(tab.current, "/a/b/sub");
    assert!(tab.go_up('/', true));
    assert_eq!(tab.current, "/a/b");
}

#[test]
fn refresh_keeps_selection_by_path() {
    let mut tab = listed("/r", vec![row("/r", "b", false, 1, None), row("/r", "c", false, 1, None)], true, SortBy::Name, false);
    tab.select_only(1);
    assert_eq!(tab.selected_paths(), vec!["/r/c".to_string()]);
    tab.refresh(vec![row("/r", "c", false, 1, None), row("/r", "a", false, 1, None), row("/r", "b", false, 1, None)], None, '/');
    assert_eq!(tab.selected_paths(), vec!["/r/c".to_string()]);
}

#[test]
fn rows_from_paths() {
    let e = row("/x", ".cfg", false, 7, Some(1));
    assert!(e.is_hidden);
    assert_eq!(e.ext, "ファイル");
    let d = row("/x", "Dir.D", true, 7, None);
    assert_eq!(d.size, 0);
    assert_eq!(d.ext, "フォルダ");
    let f = row("/x", "Pic.PNG", false, 7, None);
    assert_eq!(f.ext, "png");
    assert!(FileEntry::from_path("/", '/', true, 0, None, false).is_none());
}

#[test]
fn attributes_and_search() {
    assert!(hidden_by_attributes(0x2));
    assert!(hidden_by_attributes(0x4 | 0x20));
    assert!(!hidden_by_attributes(0x20));
    assert!(search_matches("Report.TXT", "port.t"));
    assert!(!search_matches("Report.TXT", ""));
    assert!(!search_matches("abc", "abd"));
}

#[test]
fn header_clicks_flip_or_switch() {
    assert_eq!(header_clicked(SortBy::Name, false, SortBy::Name), (SortBy::Name, true));
    assert_eq!(header_clicked(SortBy::Name, true, SortBy::Name), (SortBy::Name, false));
    assert_eq!(header_clicked(SortBy::Name, true, SortBy::Size), (SortBy::Size, false));
}

#[test]
fn navigation_compares_paths_by_components() {
    let mut tab = Tab::new("/nav/a".to_string(), true, SortBy::Name, false);
    assert!(!tab.navigate_to_async("/nav/a/".to_string(), true, '/'));
    assert!(!tab.navigate_to_async("/nav//a/.".to_string(), true, '/'));
    assert_eq!(tab.current, "/nav/a");
    assert!(tab.history_back.is_empty());
    assert!(tab.navigate_to_async("/nav/b".to_string(), true, '/'));
    assert_eq!(tab.current, "/nav/b");
}

#[test]
fn refresh_keeps_selection_under_another_spelling() {
    let mut tab = listed("/r", vec![row("/r", "b", false, 1, None), row("/r", "c", false, 1, None)], true, SortBy::Name, false);
    tab.select_only(1);
    let respelled = FileEntry::from_path("/r//c", '/', false, 1, None, false).unwrap();
    tab.apply_list(vec![row("/r", "a", false, 1, None), respelled], None, '/');
    assert_eq!(tab.selected_paths(), vec!["/r//c".to_string()]);
    assert_eq!(tab.focus, Some(1));
}

#[test]
fn descending_sort_is_ascending_reversed_without_ties() {
    let rows = || vec![
        row("/s", "b10", false, 3, None),
        row("/s", "sub", true, 0, None),
        row("/s", "b2", false, 1, None),
        row("/s", "a", false, 2, None),
    ];
    let mut asc = rows();
    Tab::sort_entries(&mut asc, SortBy::Name, false);
    let mut desc = rows();
    Tab::sort_entries(&mut desc, SortBy::Name, true);
    let asc_names: Vec<String> = asc.iter().map(|e| e.name.clone()).collect();
    let mut desc_names: Vec<String> = desc.iter().map(|e| e.name.clone()).collect();
    assert_eq!(asc_names, vec!["sub", "a", "b2", "b10"]);
    desc_names.reverse();
    assert_eq!(desc_names, asc_names);
}
