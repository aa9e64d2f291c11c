use explorer_rs::shell::{
    icon_emoji_for, icon_pixels, icon_size, is_dir_via_attr, normalize_path_input,
    reveal_in_explorer_for, show_os_context_menu_for, to_long_path, type_name_from_utf16,
};
use explorer_rs::paths::{long_path_for, normalize_input_for, same_path_of};

fn on_windows() -> bool {
    std::path::MAIN_SEPARATOR == '\\'
}

#[test]
fn normalize_both_separators() {
    if on_windows() {
        assert_eq!(normalize_path_input("C:/Users/foo/bar"), "C:\\Users\\foo\\bar");
    } else {
        assert_eq!(normalize_path_input("C:\\Users\\foo\\bar"), "C:/Users/foo/bar");
    }
}

#[test]
fn normalize_trims() {
    let p = normalize_path_input("  C:/a  ");
    if on_windows() {
        assert_eq!(p, r"C:\a");
    } else {
        assert_eq!(p, "C:/a");
    }
}

#[test]
fn long_path_identity_for_short() {
    let p = if on_windows() { r"C:\short" } else { "/tmp/x" };
    let lp = to_long_path(p);
    assert_eq!(lp, p);
}

#[test]
fn normalize_for_each_platform() {
    assert_eq!(normalize_input_for(" //srv/share ", '\\'), "\\\\srv\\share");
    assert_eq!(normalize_input_for("a\\b/c", '/'), "a/b/c");
    assert_eq!(normalize_input_for("   ", '/'), "");
}

#[test]
fn long_paths_on_windows() {
    assert_eq!(long_path_for(r"\\server\share\x", '\\'), r"\\server\share\x");
    assert_eq!(long_path_for(r"\\?\C:\x", '\\'), r"\\?\C:\x");
    assert_eq!(long_path_for(r"C:\a\..\b", '\\'), r"\\?\C:\a\..\b");
    let long = format!("C:\\{}", "x".repeat(240));
    assert_eq!(long_path_for(&long, '\\'), format!("\\\\?\\{long}"));
    let short = format!("C:\\{}", "x".repeat(200));
    assert_eq!(long_path_for(&short, '\\'), short);
    assert_eq!(long_path_for(r"C:\a\..\b", '/'), r"C:\a\..\b");
}

#[test]
fn emoji_by_kind() {
    assert_eq!(icon_emoji_for("/d/x", true, '/'), "📁");
    assert_eq!(icon_emoji_for("/d/p.PNG", false, '/'), "🖼️");
    assert_eq!(icon_emoji_for("/d/p.svg", false, '/'), "📄");
    assert_eq!(icon_emoji_for("C:\\d\\p.svg", false, '\\'), "🖼️");
    assert_eq!(icon_emoji_for("C:\\d\\a.xz", false, '\\'), "📦");
    assert_eq!(icon_emoji_for("C:\\d\\r.docx", false, '\\'), "📘");
    assert_eq!(icon_emoji_for("C:\\d\\main.rs", false, '\\'), "📝");
    assert_eq!(icon_emoji_for("C:\\d\\setup.EXE", false, '\\'), "⚙️");
    assert_eq!(icon_emoji_for("C:\\d\\noext", false, '\\'), "📄");
}

#[test]
fn shell_refusals() {
    assert!(!is_dir_via_attr("/tmp"));
    assert_eq!(
        show_os_context_menu_for(&[], '/').unwrap_err(),
        "Windows only"
    );
    assert_eq!(
        show_os_context_menu_for(&[], '\\').unwrap_err(),
        "OS context menu hosting requires HWND"
    );
    assert_eq!(reveal_in_explorer_for("C:\\x", '\\').unwrap(), "/select,C:\\x");
    assert_eq!(reveal_in_explorer_for("/x", '/').unwrap_err(), "Windows only");
}

#[test]
fn type_names_from_shell_buffers() {
    let mut buf: Vec<u16> = " Text Document ".encode_utf16().collect();
    buf.extend([0u16; 5]);
    assert_eq!(type_name_from_utf16(&buf).as_deref(), Some("Text Document"));
    assert_eq!(type_name_from_utf16(&[0u16; 8]), None);
    assert_eq!(type_name_from_utf16(&[]), None);
    let pair_and_lone: Vec<u16> = vec![0x41, 0xD83D, 0xDE00, 0xD800, 0x42, 0];
    assert_eq!(type_name_from_utf16(&pair_and_lone).as_deref(), Some("A\u{1F600}\u{FFFD}B"));
}

#[test]
fn icon_bitmap_sizes() {
    assert_eq!(icon_size(16, 16, true), Some((16, 16)));
    assert_eq!(icon_size(16, 32, false), Some((16, 16)));
    assert_eq!(icon_size(16, 1, false), None);
    assert_eq!(icon_size(0, 16, true), None);
    assert_eq!(icon_size(16, -4, true), None);
}

#[test]
fn icon_pixels_are_converted() {
    // Colour icon without alpha: channels swapped and made opaque.
    let bits = vec![1, 2, 3, 0, 4, 5, 6, 0];
    assert_eq!(icon_pixels(&bits, true), vec![3, 2, 1, 255, 6, 5, 4, 255]);
    // Colour icon with alpha: alpha kept.
    let bits = vec![1, 2, 3, 0, 4, 5, 6, 7];
    assert_eq!(icon_pixels(&bits, true), vec![3, 2, 1, 0, 6, 5, 4, 7]);
    // Monochrome: white becomes transparent, the rest opaque.
    let bits = vec![255, 255, 255, 9, 0, 0, 0, 0, 42];
    assert_eq!(icon_pixels(&bits, false), vec![0, 0, 0, 0, 0, 0, 0, 255, 42]);
}

#[test]
fn paths_compare_by_components() {
    assert!(same_path_of("a/b", "a//b/", '/'));
    assert!(same_path_of("/a/./b", "/a/b", '/'));
    assert!(!same_path_of("./a", "a", '/'));
    assert!(!same_path_of("/a", "a", '/'));
    assert!(!same_path_of("a/..", "a", '/'));
    assert!(!same_path_of(r"a\b", "a/b", '/'));
    assert!(same_path_of(r"a\b", "a/b", '\\'));
    assert!(same_path_of(r"c:\x", "C:/x/", '\\'));
    assert!(!same_path_of(r"C:x", r"C:\x", '\\'));
    assert!(!same_path_of("", ".", '/'));
}
