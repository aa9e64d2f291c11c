use explorer_rs::app_icon::{icon_pixel, icon_rgba};
use explorer_rs::file_icons::{
    cache_key_for_sep, fallback_icon_for, fallback_svg_bytes, sanitize_for_uri, CacheKey,
    FallbackIcon, LruIconCache,
};
use explorer_rs::toolbar_icons::ToolbarIcon;

#[test]
fn lru_evicts_oldest() {
    let mut c: LruIconCache<String> = LruIconCache::with_capacity(3);
    for i in 0..4 {
        let k = CacheKey(format!("k{i}"));
        let tex = k.0.clone();
        c.insert(k, tex);
    }
    assert!(c.get(&CacheKey("k0".into())).is_none(), "oldest evicted");
    assert!(c.get(&CacheKey("k3".into())).is_some());
}

#[test]
fn lru_capacity_and_lookups() {
    let mut c: LruIconCache<u32> = LruIconCache::with_capacity(16);
    for i in 0..20u32 {
        c.insert(CacheKey(format!("k{i}")), i);
    }
    assert_eq!(c.cap(), 16);
    assert_eq!(c.len(), 16);
    assert!(c.get(&CacheKey("k3".into())).is_none());
    assert_eq!(c.get(&CacheKey("k4".into())), Some(&4));
    assert_eq!(c.get(&CacheKey("k19".into())), Some(&19));
    let z: LruIconCache<u32> = LruIconCache::with_capacity(0);
    assert_eq!(z.cap(), 1);
}

#[test]
fn lru_reinsert_refreshes() {
    let mut c: LruIconCache<&str> = LruIconCache::with_capacity(16);
    for i in 0..16 {
        c.insert(CacheKey(format!("k{i}")), "old");
    }
    c.insert(CacheKey("k0".into()), "new");
    assert_eq!(c.len(), 16);
    c.insert(CacheKey("k16".into()), "x");
    assert_eq!(c.get(&CacheKey("k0".into())), Some(&"new"));
    assert!(c.get(&CacheKey("k1".into())).is_none());
}

#[test]
fn fallback_svg_nonempty() {
    for ext in ["rs", "txt", "png", "zip", "exe", ""] {
        let b = fallback_svg_bytes(ext, false);
        assert!(b.len() > 30, "svg too small for {ext}");
    }
}

#[test]
fn fallback_kinds() {
    assert_eq!(fallback_icon_for("anything", true), FallbackIcon::Folder);
    assert_eq!(fallback_icon_for("JPG", false), FallbackIcon::Image);
    assert_eq!(fallback_icon_for("xz", false), FallbackIcon::Archive);
    assert_eq!(fallback_icon_for("dll", false), FallbackIcon::Program);
    assert_eq!(fallback_icon_for("md", false), FallbackIcon::Text);
    assert_eq!(fallback_icon_for("java", false), FallbackIcon::Code);
    assert_eq!(fallback_icon_for("", false), FallbackIcon::Generic);
    assert!(std::str::from_utf8(fallback_svg_bytes("", true)).unwrap().contains("<svg"));
}

#[test]
fn cache_keys() {
    assert_eq!(cache_key_for_sep("/a/b", true, '/').0, "__dir__");
    assert_eq!(cache_key_for_sep("/a/app.EXE", false, '/').0, "file:/a/app.EXE");
    assert_eq!(cache_key_for_sep("/a/x.Txt", false, '/').0, "ext:txt");
    assert_eq!(cache_key_for_sep("/a/noext", false, '/').0, "ext:");
    assert_eq!(sanitize_for_uri("file:/a/b.exe"), "file__a_b_exe");
}

#[test]
fn svg_assets_nonempty() {
    for ic in [
        ToolbarIcon::Back,
        ToolbarIcon::Forward,
        ToolbarIcon::Up,
        ToolbarIcon::Refresh,
        ToolbarIcon::Home,
    ] {
        let b = ic.bytes();
        assert!(b.len() > 40, "{ic:?} svg too small");
        assert!(std::str::from_utf8(b).unwrap().contains("<svg"));
    }
}

#[test]
fn toolbar_texts() {
    assert_eq!(ToolbarIcon::Up.hover(), "上へ Alt+↑");
    assert_eq!(ToolbarIcon::Home.uri(), "bytes://toolbar/home.svg");
    assert_eq!(ToolbarIcon::button_size(true), 14);
}

#[test]
fn window_icon_pixels() {
    assert_eq!(icon_pixel(0, 0), (0, 0, 0, 0));
    assert_eq!(icon_pixel(2, 10), (30, 58, 138, 255));
    assert_eq!(icon_pixel(10, 12), (255, 255, 255, 230));
    assert_eq!(icon_pixel(10, 8), (59, 130, 246, 255));
    assert_eq!(icon_pixel(25, 24), (37, 99, 235, 255));
    let rgba = icon_rgba();
    assert_eq!(rgba.len(), 32 * 32 * 4);
    let at = |x: usize, y: usize| {
        let i = 4 * (32 * y + x);
        (rgba[i], rgba[i + 1], rgba[i + 2], rgba[i + 3])
    };
    assert_eq!(at(10, 12), icon_pixel(10, 12));
    assert_eq!(at(31, 31), (0, 0, 0, 0));
}
