use explorer_rs::fs_ops::{
    fmt_time, humansize, normalize_path_input, sanitize_filename, selected_total_size,
    pick_dest, pick_new_text_file, truncate_chars, unique_dest_candidate, Clipboard, ClipboardMode,
};
use explorer_rs::tab::FileEntry;

#[test]
fn humansize_basic() {
    assert_eq!(humansize(0), "0 B");
    assert_eq!(humansize(512), "512 B");
    assert!(humansize(2048).contains("KB"));
    assert!(humansize(5 * 1024 * 1024).contains("MB"));
}

/// What the size text is computed from: `n as f64` divided by 1024 per unit
/// step, printed with one decimal.
fn float_size(n: u64) -> String {
    let units = ["B", "KB", "MB", "GB", "TB"];
    let mut v = n as f64;
    let mut i = 0;
    while v >= 1024.0 && i + 1 < units.len() {
        v /= 1024.0;
        i += 1;
    }
    if i == 0 {
        format!("{n} {}", units[i])
    } else {
        format!("{v:.1} {}", units[i])
    }
}

#[test]
fn humansize_exact_values() {
    assert_eq!(humansize(1023), "1023 B");
    assert_eq!(humansize(1024), "1.0 KB");
    assert_eq!(humansize(1536), "1.5 KB");
    assert_eq!(humansize(1280), float_size(1280));
    assert_eq!(humansize(1048575), "1024.0 KB");
    assert_eq!(humansize(1048576), "1.0 MB");
    assert_eq!(humansize(1073741824), "1.0 GB");
    assert_eq!(humansize(1099511627776), "1.0 TB");
    assert_eq!(humansize(u64::MAX), "16777216.0 TB");
}

#[test]
fn humansize_matches_float_formatting() {
    let mut samples: Vec<u64> = vec![
        0,
        1,
        1023,
        1024,
        1025,
        1075,
        1126,
        1177,
        1280,
        2304,
        3328,
        1_310_720,
        1_363_148,
        9_007_199_254_740_991,
        9_007_199_254_740_992,
        9_007_199_254_740_993,
        18_014_398_509_481_983,
        u64::MAX - 1,
        u64::MAX,
    ];
    let mut x: u64 = 0x9E37_79B9_7F4A_7C15;
    for _ in 0..20000 {
        x ^= x << 13;
        x ^= x >> 7;
        x ^= x << 17;
        samples.push(x >> (x % 64));
        samples.push((x % 4096) * 1024 / 10);
    }
    for n in samples {
        assert_eq!(humansize(n), float_size(n), "n = {n}");
    }
}

#[test]
fn sanitize_rejects_traversal() {
    assert!(sanitize_filename("ok.txt").is_some());
    assert!(sanitize_filename("../etc/passwd").is_none());
    assert!(sanitize_filename("a/b").is_none());
    assert!(sanitize_filename("a\\b").is_none());
    assert!(sanitize_filename("..").is_none());
    assert!(sanitize_filename("").is_none());
    assert!(sanitize_filename("  ").is_none());
    assert!(sanitize_filename("CON").is_none());
    assert!(sanitize_filename("con.txt").is_none());
    assert!(sanitize_filename("nul").is_none());
    assert!(sanitize_filename("bad:name").is_none());
    assert!(sanitize_filename("trailing.").is_none());
    assert!(sanitize_filename("\tfoo").is_none());
    assert!(sanitize_filename("foo ").is_none());
    assert!(sanitize_filename("COM\u{00B9}.txt").is_none());
    assert!(sanitize_filename("LPT\u{00B3}").is_none());
}

#[test]
fn sanitize_accepts_and_trims() {
    assert_eq!(sanitize_filename("ok.txt").as_deref(), Some("ok.txt"));
    assert_eq!(sanitize_filename(" ok.txt").as_deref(), Some("ok.txt"));
    assert_eq!(sanitize_filename("COM10").as_deref(), Some("COM10"));
    assert_eq!(sanitize_filename("console.log").as_deref(), Some("console.log"));
    assert_eq!(sanitize_filename("日本語.txt").as_deref(), Some("日本語.txt"));
    assert!(sanitize_filename(".").is_none());
    assert!(sanitize_filename("a*b").is_none());
    assert!(sanitize_filename("lpt1.tar.gz").is_none());
}

#[test]
fn truncate_chars_safe() {
    let s = "あいうえお日本語テスト";
    let t = truncate_chars(s, 3);
    assert!(t.starts_with("あいう"));
    assert!(!t.contains('\u{FFFD}'));
}

#[test]
fn truncate_chars_exact() {
    assert_eq!(truncate_chars("abc", 3), "abc");
    assert_eq!(truncate_chars("abcd", 3), "abc…\n\n(3文字で切り捨て)");
    assert_eq!(truncate_chars("", 0), "");
    assert_eq!(truncate_chars("x", 0), "…\n\n(0文字で切り捨て)");
}

#[test]
fn normalize_accepts_both_separators() {
    let p1 = normalize_path_input("C:/Users/foo/bar");
    let p2 = normalize_path_input("C:\\Users\\foo\\bar");
    assert!(!p1.is_empty());
    assert!(!p2.is_empty());
    let mixed = normalize_path_input("C:\\Users/foo\\bar/baz");
    assert!(!mixed.is_empty());
}

fn file(name: &str, size: u64, is_dir: bool) -> FileEntry {
    FileEntry::from_path(&format!("/d/{name}"), '/', is_dir, size, None, false).unwrap()
}

#[test]
fn total_size_skips_directories() {
    let rows = vec![file("a", 10, false), file("b", 99, true), file("c", 5, false)];
    assert_eq!(selected_total_size(&rows), 15);
    assert_eq!(selected_total_size(&[]), 0);
}

#[test]
fn paste_candidates() {
    assert_eq!(unique_dest_candidate("/dst", "/src/a.txt", 0, '/'), "/dst/a.txt");
    assert_eq!(
        unique_dest_candidate("/dst", "/src/a.txt", 2, '/'),
        "/dst/a - コピー (2).txt"
    );
    assert_eq!(
        unique_dest_candidate("/dst/", "/src/archive.tar.gz", 11, '/'),
        "/dst/archive.tar - コピー (11).gz"
    );
    assert_eq!(
        unique_dest_candidate("C:\\dst", "C:\\src\\noext", 1, '\\'),
        "C:\\dst\\noext - コピー (1)"
    );
}

#[test]
fn time_text_without_time() {
    assert_eq!(fmt_time(None), "-");
    let t = fmt_time(Some(0));
    assert_eq!(t.chars().count(), "1970/01/01 00:00".chars().count());
    let c: Vec<char> = fmt_time(Some(1_700_000_000_000_000_000)).chars().collect();
    assert_eq!(c.len(), 16);
    assert_eq!((c[4], c[7], c[10], c[13]), ('/', '/', ' ', ':'));
    assert!(c.iter().enumerate().all(|(i, ch)| [4, 7, 10, 13].contains(&i) || ch.is_ascii_digit()));
    assert!(c[0] == '2' && c[1] == '0' && c[2] == '2');
}

#[test]
fn clipboard_keeps_paths_and_mode() {
    let c = Clipboard::new(vec!["/a".to_string()], ClipboardMode::Cut);
    assert_eq!(c.paths, vec!["/a".to_string()]);
    assert_eq!(c.mode, ClipboardMode::Cut);
}

#[test]
fn unique_dest_skips_taken_names() {
    // The root directory exists everywhere this runs: candidate 0 for
    // pasting "/tmp" into "/" is taken, candidate 1 is free.
    if std::path::MAIN_SEPARATOR == '/' && std::path::Path::new("/tmp").exists() {
        assert_eq!(
            explorer_rs::fs_ops::unique_dest_for("/", "/tmp", '/'),
            "/tmp - コピー (1)"
        );
        assert_eq!(
            explorer_rs::fs_ops::unique_dest_for("/", "/surely-not-here-3f9a", '/'),
            "/surely-not-here-3f9a"
        );
    }
}

#[test]
fn paste_takes_first_free_candidate() {
    assert_eq!(pick_dest("/d", "/s/a.txt", '/', &[], 7), "/d/a.txt");
    assert_eq!(pick_dest("/d", "/s/a.txt", '/', &[true, true, false], 7), "/d/a - コピー (2).txt");
    assert_eq!(pick_dest("/d", "/s/a.txt", '/', &[true], 7), "/d/a - コピー (1).txt");
    let all = vec![true; 1000];
    assert_eq!(pick_dest("/d", "/s/a.txt", '/', &all, 123456), "/d/a - コピー (123456).txt");
    let clock_taken = vec![true; 1001];
    assert_eq!(pick_dest("/d", "/s/a.txt", '/', &clock_taken, 5), "/d/a - コピー (6).txt");
}

#[test]
fn new_text_file_takes_first_free_candidate() {
    assert_eq!(pick_new_text_file("/d", '/', &[false]), "/d/新しいテキスト ドキュメント.txt");
    assert_eq!(pick_new_text_file("/d", '/', &[true, true, false]), "/d/新しいテキスト ドキュメント (2).txt");
    let all = vec![true; 999];
    assert_eq!(pick_new_text_file("/d", '/', &all), "/d/新しいテキスト ドキュメント (999).txt");
}

#[test]
fn sanitizing_twice_changes_nothing() {
    for name in ["  report.txt", "a b", "\u{3000}メモ", "x.y.z"] {
        let once = sanitize_filename(name).unwrap();
        assert_eq!(sanitize_filename(&once), Some(once.clone()));
    }
}

#[test]
fn character_classes_agree_with_std() {
    for u in 0u32..0x3_0000 {
        if let Some(c) = char::from_u32(u) {
            assert_eq!(explorer_rs::text::char_is_whitespace(c), c.is_whitespace(), "{u:x}");
            assert_eq!(explorer_rs::text::char_is_control(c), c.is_control(), "{u:x}");
        }
    }
}

#[test]
fn time_text_is_the_utc_calendar_moved_by_less_than_a_day() {
    let secs: i64 = 1_700_000_000;
    let t = fmt_time(Some(secs as i128 * 1_000_000_000));
    let found = (-1440i64..=1440).any(|m| {
        chrono::DateTime::from_timestamp(secs + m * 60, 0).unwrap().format("%Y/%m/%d %H:%M").to_string() == t
    });
    assert!(found, "{t}");
    assert_eq!(
        chrono::DateTime::from_timestamp(secs, 0).unwrap().format("%Y/%m/%d %H:%M").to_string(),
        "2023/11/14 22:13"
    );
}
