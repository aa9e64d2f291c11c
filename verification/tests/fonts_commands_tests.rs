use explorer_rs::commands::{search_is_current, search_status, BgEvent, Generations, PasteTally};
use explorer_rs::config::FontPreset;
use explorer_rs::fonts::{
    all_presets, order_family, preset_label, system_cjk_candidates, system_preset_to_load,
    usable_font_data, Platform,
};

#[test]
fn presets_and_labels() {
    let all = all_presets();
    assert_eq!(all.len(), 10);
    assert_eq!(all[0], FontPreset::BizUdGothic);
    assert_eq!(all[9], FontPreset::Default);
    assert_eq!(preset_label(FontPreset::BizUdGothic), "BIZ UDゴシック (標準)");
    assert_eq!(preset_label(FontPreset::Custom), "カスタムファイル…");
}

#[test]
fn font_candidates_per_platform() {
    let dirs = vec!["D:\\Win\\Fonts".to_string(), "C:\\Windows\\Fonts".to_string()];
    let c = system_cjk_candidates(FontPreset::Meiryo, Platform::Windows, &dirs);
    assert_eq!(
        c,
        vec![
            "D:\\Win\\Fonts\\meiryo.ttc",
            "D:\\Win\\Fonts\\meiryob.ttc",
            "C:\\Windows\\Fonts\\meiryo.ttc",
            "C:\\Windows\\Fonts\\meiryob.ttc"
        ]
    );
    assert!(system_cjk_candidates(FontPreset::Meiryo, Platform::OtherUnix, &dirs).is_empty());
    assert_eq!(system_cjk_candidates(FontPreset::Auto, Platform::Windows, &dirs).len(), 24);
    assert_eq!(
        system_cjk_candidates(FontPreset::Auto, Platform::MacOs, &dirs)[0],
        "/System/Library/Fonts/Hiragino Sans GB.ttc"
    );
    assert_eq!(system_cjk_candidates(FontPreset::BizUdGothic, Platform::OtherUnix, &[]).len(), 2);
    assert_eq!(system_cjk_candidates(FontPreset::NotoSansCjk, Platform::Windows, &dirs).len(), 4);
    assert!(system_cjk_candidates(FontPreset::Default, Platform::Windows, &dirs).is_empty());
}

#[test]
fn font_loading_plan() {
    assert_eq!(system_preset_to_load(FontPreset::Default, true), None);
    assert_eq!(system_preset_to_load(FontPreset::Meiryo, true), Some(FontPreset::Auto));
    assert_eq!(system_preset_to_load(FontPreset::Meiryo, false), Some(FontPreset::Meiryo));
    assert!(usable_font_data(1001));
    assert!(!usable_font_data(1000));
    let mut fam = vec!["explorer_cjk".to_string(), "Ubuntu".to_string(), "emoji".to_string()];
    order_family(&mut fam, true, true);
    assert_eq!(fam, vec!["explorer_custom", "explorer_cjk", "Ubuntu", "emoji"]);
    order_family(&mut fam, false, false);
    assert_eq!(fam, vec!["Ubuntu", "emoji"]);
}

#[test]
fn paste_tally_messages() {
    let mut t = PasteTally::new();
    t.record(Ok(()));
    t.record(Ok(()));
    assert_eq!(t.message(), "貼り付け完了: 2 件");
    t.record(Err("disk full".to_string()));
    match t.finish() {
        BgEvent::PasteDone { ok, err, message } => {
            assert_eq!((ok, err), (2, 1));
            assert_eq!(message, "貼り付け: 成功 2, 失敗 1 — disk full");
        }
        other => panic!("unexpected {other:?}"),
    }
    assert_eq!(search_status(7), "検索結果: 7 件");
}

#[test]
fn stale_listings_are_dropped() {
    let mut g = Generations::new();
    let first = g.request();
    let second = g.request();
    assert_eq!((first, second), (1, 2));
    assert!(g.waiting);
    assert!(!g.accept(first));
    assert!(g.waiting);
    assert!(g.accept(second));
    assert!(!g.waiting);
}

#[test]
fn search_results_for_current_query_only() {
    assert!(search_is_current("abc", "abc"));
    assert!(!search_is_current("abc", "  abc "));
    assert!(!search_is_current("abc", "abd"));
}
