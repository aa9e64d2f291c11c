use explorer_rs::fonts::loaded_font_name;
use explorer_rs::config::FontPreset;
use explorer_rs::fs_ops::{free_space_text, trash_error_message};
use explorer_rs::preview::{
    file_preview, folder_preview, header_label, image_preview, preview_kind, PreviewKind,
};
use explorer_rs::watch::{ChangeKind, Debouncer, WatchAction};

#[test]
fn debouncer_coalesces_bursts() {
    let mut d = Debouncer::new();
    assert_eq!(d.on_batch(&[ChangeKind::Other]), WatchAction::Wait);
    assert_eq!(
        d.on_batch(&[ChangeKind::Other, ChangeKind::Create, ChangeKind::Modify]),
        WatchAction::NotifyAndSettle
    );
    assert!(!d.pending);
    assert_eq!(d.on_timeout(), WatchAction::Wait);
    let mut p = Debouncer { pending: true };
    assert_eq!(p.on_timeout(), WatchAction::Notify);
    assert_eq!(p.on_timeout(), WatchAction::Wait);
    let mut q = Debouncer { pending: true };
    assert_eq!(q.on_batch(&[]), WatchAction::NotifyAndSettle);
}

#[test]
fn preview_kinds() {
    assert_eq!(preview_kind(true, "txt"), PreviewKind::Folder);
    assert_eq!(preview_kind(false, "MD"), PreviewKind::Text);
    assert_eq!(preview_kind(false, "ps1"), PreviewKind::Text);
    assert_eq!(preview_kind(false, "webp"), PreviewKind::Image);
    assert_eq!(preview_kind(false, "svg"), PreviewKind::Other);
    assert_eq!(preview_kind(false, "ファイル"), PreviewKind::Other);
}

#[test]
fn preview_texts() {
    assert_eq!(folder_preview("d", "/x/d", 3), "フォルダ: d\nパス: /x/d\n\n含まれる項目: 3 個");
    assert_eq!(image_preview("p.png", 2048, "/p.png"), "画像ファイル: p.png\nサイズ: 2.0 KB\nパス: /p.png");
    assert_eq!(
        file_preview("a.bin", 10, "bin", "-", "/a.bin"),
        "ファイル: a.bin\nサイズ: 10 B\n種類: bin\n更新: -\nパス: /a.bin"
    );
    assert_eq!(header_label("名前", false, true), "名前");
    assert_eq!(header_label("名前", true, true), "名前 ▼");
    assert_eq!(header_label("名前", true, false), "名前 ▲");
}

#[test]
fn operation_messages() {
    assert_eq!(free_space_text(1536, 1024 * 1024), "空き 1.5 KB / 全体 1.0 MB");
    assert_eq!(trash_error_message(&[]), None);
    let m = trash_error_message(&["/a: e1".to_string(), "/b: e2".to_string()]).unwrap();
    assert!(m.starts_with("ごみ箱へ移動できませんでした"));
    assert!(m.ends_with(": /a: e1, /b: e2"));
}

#[test]
fn font_status_names() {
    assert_eq!(loaded_font_name(Some("/f/My.ttf"), FontPreset::Auto, Some("/s/x.ttc"), '/'), "カスタム: My.ttf");
    assert_eq!(loaded_font_name(None, FontPreset::Default, None, '/'), "egui default (CJK なし)");
    assert_eq!(loaded_font_name(None, FontPreset::Meiryo, Some("C:\\W\\meiryo.ttc"), '\\'), "meiryo.ttc");
    assert_eq!(loaded_font_name(None, FontPreset::Meiryo, None, '\\'), "日本語フォント未検出");
    assert_eq!(loaded_font_name(Some("/"), FontPreset::Auto, None, '/'), "カスタム: font");
}
