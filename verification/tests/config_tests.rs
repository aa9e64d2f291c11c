use explorer_rs::config::{clean_recent, default_bookmarks, push_recent, FontPreset, SortBy, MAX_RECENT};

#[test]
fn default_sort() {
    assert_eq!(SortBy::default(), SortBy::Name);
}

#[test]
fn default_font_is_biz_ud_gothic() {
    assert_eq!(FontPreset::default(), FontPreset::BizUdGothic);
}

#[test]
fn push_recent_dedupes_and_caps() {
    let mut recent: Vec<String> = Vec::new();
    push_recent(&mut recent, "/tmp".to_string(), true, '/');
    push_recent(&mut recent, "/tmp".to_string(), true, '/');
    assert_eq!(recent.len(), 1);
    assert_eq!(recent[0], "/tmp");
    for i in 0..20 {
        push_recent(&mut recent, format!("/d{i}"), true, '/');
    }
    assert_eq!(recent.len(), MAX_RECENT);
    assert_eq!(recent[0], "/d19");
    push_recent(&mut recent, "/d10".to_string(), true, '/');
    assert_eq!(recent[0], "/d10");
    assert_eq!(recent.iter().filter(|p| p.as_str() == "/d10").count(), 1);
    let before = recent.clone();
    push_recent(&mut recent, "/not-a-dir".to_string(), false, '/');
    assert_eq!(recent, before);
}

#[test]
fn loaded_recent_list_is_cleaned() {
    let recent: Vec<String> = ["/a", "/gone", "/b", "/a", "/c"].iter().map(|s| s.to_string()).collect();
    let dirs = [true, false, true, true, true];
    assert_eq!(clean_recent(&recent, &dirs, '/'), vec!["/a", "/b", "/c"]);
    let many: Vec<String> = (0..30).map(|i| format!("/p{i}")).collect();
    let all = vec![true; 30];
    let kept = clean_recent(&many, &all, '/');
    assert_eq!(kept.len(), MAX_RECENT);
    assert_eq!(kept[0], "/p0");
}

#[test]
fn first_start_bookmarks() {
    let b = default_bookmarks(Some("/home/u".into()), None, Some("/home/u/Documents".into()), None, false, &[true, true, true]);
    let names: Vec<_> = b.iter().map(|m| (m.name.as_str(), m.path.as_str())).collect();
    assert_eq!(names, vec![("ホーム", "/home/u"), ("ドキュメント", "/home/u/Documents")]);
    let w = default_bookmarks(Some("C:\\".into()), None, None, None, true, &[true, false, true]);
    let names: Vec<_> = w.iter().map(|m| (m.name.as_str(), m.path.as_str())).collect();
    assert_eq!(names, vec![("ホーム", "C:\\"), ("E:\\", "E:\\")]);
}

#[test]
fn recent_list_compares_paths_by_components() {
    let mut recent: Vec<String> = vec!["a/".to_string()];
    push_recent(&mut recent, "a".to_string(), true, '/');
    assert_eq!(recent, vec!["a".to_string()]);
    push_recent(&mut recent, "C:/x".to_string(), true, '\\');
    push_recent(&mut recent, r"c:\x\".to_string(), true, '\\');
    assert_eq!(recent, vec![r"c:\x\".to_string(), "a".to_string()]);
    let loaded: Vec<String> = ["/a", "/a//", "/b"].iter().map(|s| s.to_string()).collect();
    assert_eq!(clean_recent(&loaded, &[true, true, true], '/'), vec!["/a", "/b"]);
}
