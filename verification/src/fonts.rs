//! Japanese / CJK fonts: the presets offered, where each preset's font
//! files are looked for on each platform, and how the loaded fonts are put
//! in front of the built-in ones. BIZ UD Gothic is the default (standard on
//! Windows, highly readable for file names). Reading the files and handing
//! them to the user interface stays with the application.

use vstd::prelude::*;
use crate::config::{FontPreset, views};
use crate::paths;
use crate::text::to_string;

verus! {

/// Key under which the system CJK font is registered.
pub const CJK_FONT_KEY: &'static str = "explorer_cjk";

/// Key under which the user's own font file is registered.
pub const CUSTOM_FONT_KEY: &'static str = "explorer_custom";

/// The platform fonts are looked for on.
#[derive(Debug, Clone, Copy, PartialEq, Eq, Structural)]
pub enum Platform {
    Windows,
    MacOs,
    /// A Unix other than macOS.
    OtherUnix,
}

/// The views of a sequence of string slices.
pub open spec fn strs(s: Seq<&str>) -> Seq<Seq<char>> {
    s.map_values(|x: &str| x@)
}

/// Every name of `names` in every directory of `dirs` (on Windows), the
/// names of the first directory first.
pub open spec fn in_dirs(dirs: Seq<Seq<char>>, names: Seq<Seq<char>>) -> Seq<Seq<char>>
    decreases dirs.len(),
{
    if dirs.len() == 0 {
        seq![]
    } else {
        in_dirs(dirs.drop_last(), names) + names.map_values(
            |n: Seq<char>| paths::join(dirs.last(), n, '\\'),
        )
    }
}

/// Font files of BIZ UD Gothic on Windows.
pub open spec fn biz_ud_gothic_files() -> Seq<&'static str> {
    seq![
        "BIZ-UDGothicB.ttc",
        "BIZ-UDGothicR.ttc",
        "BIZUDGothic-Regular.ttf",
        "BIZUDGothic-Bold.ttf",
        "BIZ-UDGothic.ttf",
        "BIZUDGothic.ttf",
    ]
}

/// Font files of BIZ UD Gothic on other platforms.
pub open spec fn biz_ud_gothic_unix() -> Seq<&'static str> {
    seq![
        "/usr/share/fonts/truetype/bizud-gothic/BIZUDGothic-Regular.ttf",
        "/usr/share/fonts/opentype/bizud/BIZUDGothic-Regular.ttf",
    ]
}

/// Font files of BIZ UDP Gothic on Windows.
pub open spec fn biz_udp_gothic_files() -> Seq<&'static str> {
    seq![
        "BIZ-UDPGothicB.ttc",
        "BIZ-UDPGothicR.ttc",
        "BIZUDP Gothic.ttf",
        "BIZUDPGothic-Regular.ttf",
        "BIZ-UDPGothic.ttf",
        "BIZ-UDPGothic.ttc",
    ]
}

/// Japanese font files tried in turn on Windows when the choice is automatic.
pub open spec fn auto_windows_files() -> Seq<&'static str> {
    seq![
        "BIZ-UDGothicR.ttc",
        "BIZUDGothic-Regular.ttf",
        "BIZ-UDGothic.ttf",
        "BIZ-UDPGothicR.ttc",
        "BIZUDPGothic-Regular.ttf",
        "YuGothM.ttc",
        "YuGothR.ttc",
        "meiryo.ttc",
        "msgothic.ttc",
        "msmincho.ttc",
        "yumin.ttf",
        "YuMincho.ttc",
    ]
}

/// Japanese font files tried on macOS when the choice is automatic.
pub open spec fn auto_macos_files() -> Seq<&'static str> {
    seq!["/System/Library/Fonts/Hiragino Sans GB.ttc", "/Library/Fonts/Arial Unicode.ttf"]
}

/// Japanese font files tried on other Unix systems when the choice is
/// automatic.
pub open spec fn auto_unix_files() -> Seq<&'static str> {
    seq![
        "/usr/share/fonts/opentype/noto/NotoSansCJK-Regular.ttc",
        "/usr/share/fonts/opentype/noto/NotoSansCJKjp-Regular.otf",
        "/usr/share/fonts/noto-cjk/NotoSansCJK-Regular.ttc",
    ]
}

/// Font files of Yu Gothic on Windows.
pub open spec fn yu_gothic_files() -> Seq<&'static str> {
    seq!["YuGothM.ttc", "YuGothR.ttc"]
}

/// Font files of Meiryo on Windows.
pub open spec fn meiryo_files() -> Seq<&'static str> {
    seq!["meiryo.ttc", "meiryob.ttc"]
}

/// Font files of Yu Mincho on Windows.
pub open spec fn yu_mincho_files() -> Seq<&'static str> {
    seq!["yumin.ttf", "YuMincho.ttc"]
}

/// Font files of MS Gothic on Windows.
pub open spec fn ms_gothic_files() -> Seq<&'static str> {
    seq!["msgothic.ttc"]
}

/// Where Noto Sans CJK is looked for on every platform.
pub open spec fn noto_paths() -> Seq<&'static str> {
    seq![
        "/usr/share/fonts/opentype/noto/NotoSansCJK-Regular.ttc",
        "C:\\Windows\\Fonts\\NotoSansCJKjp-Regular.otf",
    ]
}

/// The font file of Noto Sans CJK in the Windows font directories.
pub open spec fn noto_files() -> Seq<&'static str> {
    seq!["NotoSansCJKjp-Regular.otf"]
}

/// Candidate system font files for a preset, ordered by preference:
/// on Windows the preset's files in each font directory of `dirs`
/// (Windows' own first); elsewhere the fixed paths of the platform.
/// The built-in and custom presets look for none.
pub open spec fn cjk_candidates(preset: FontPreset, platform: Platform, dirs: Seq<Seq<char>>) -> Seq<
    Seq<char>,
> {
    let win = platform == Platform::Windows;
    match preset {
        FontPreset::BizUdGothic => if win {
            in_dirs(dirs, strs(biz_ud_gothic_files()))
        } else {
            strs(biz_ud_gothic_unix())
        },
        FontPreset::BizUdpGothic => if win {
            in_dirs(dirs, strs(biz_udp_gothic_files()))
        } else {
            seq![]
        },
        FontPreset::Default | FontPreset::Custom => seq![],
        FontPreset::Auto => match platform {
            Platform::Windows => in_dirs(dirs, strs(auto_windows_files())),
            Platform::MacOs => strs(auto_macos_files()),
            Platform::OtherUnix => strs(auto_unix_files()),
        },
        FontPreset::YuGothic => if win {
            in_dirs(dirs, strs(yu_gothic_files()))
        } else {
            seq![]
        },
        FontPreset::Meiryo => if win {
            in_dirs(dirs, strs(meiryo_files()))
        } else {
            seq![]
        },
        FontPreset::YuMincho => if win {
            in_dirs(dirs, strs(yu_mincho_files()))
        } else {
            seq![]
        },
        FontPreset::MsGothic => if win {
            in_dirs(dirs, strs(ms_gothic_files()))
        } else {
            seq![]
        },
        FontPreset::NotoSansCjk => strs(noto_paths()) + if win {
            in_dirs(dirs, strs(noto_files()))
        } else {
            seq![]
        },
    }
}

/// Appends every name of `names`, as it is.
fn push_names(out: &mut Vec<String>, names: &Vec<&str>)
    ensures
        views(final(out)@) == views(old(out)@) + strs(names@),
{
    let mut i: usize = 0;
    while i < names.len()
        invariant
            i <= names@.len(),
            views(out@) == views(old(out)@) + strs(names@.take(i as int)),
        decreases names@.len() - i,
    {
        let ghost before = out@;
        out.push(to_string(names[i]));
        proof {
            assert(views(out@) =~= views(before).push(names@[i as int]@));
            assert(strs(names@.take(i + 1)) =~= strs(names@.take(i as int)).push(names@[i as int]@));
        }
        i = i + 1;
    }
    proof {
        assert(names@.take(names@.len() as int) =~= names@);
    }
}

/// Appends every name of `names` in every directory of `dirs`.
fn push_in_dirs(out: &mut Vec<String>, dirs: &[String], names: &Vec<&str>)
    ensures
        views(final(out)@) == views(old(out)@) + in_dirs(views(dirs@), strs(names@)),
{
    let mut d: usize = 0;
    while d < dirs.len()
        invariant
            d <= dirs@.len(),
            views(out@) == views(old(out)@) + in_dirs(views(dirs@.take(d as int)), strs(names@)),
        decreases dirs@.len() - d,
    {
        let ghost at_dir = views(out@);
        let mut i: usize = 0;
        while i < names.len()
            invariant
                d < dirs@.len(),
                i <= names@.len(),
                views(out@) == at_dir + strs(names@).take(i as int).map_values(
                    |n: Seq<char>| paths::join(dirs@[d as int]@, n, '\\'),
                ),
            decreases names@.len() - i,
        {
            let ghost before = out@;
            out.push(paths::join_name(dirs[d].as_str(), names[i], '\\'));
            proof {
                assert(views(out@) =~= views(before).push(
                    paths::join(dirs@[d as int]@, names@[i as int]@, '\\'),
                ));
                assert(strs(names@).take(i + 1) =~= strs(names@).take(i as int).push(
                    names@[i as int]@,
                ));
            }
            i = i + 1;
        }
        proof {
            let dv = views(dirs@.take(d + 1));
            assert(dv.drop_last() =~= views(dirs@.take(d as int)));
            assert(dv.last() == dirs@[d as int]@);
            assert(strs(names@).take(names@.len() as int) =~= strs(names@));
        }
        d = d + 1;
    }
    proof {
        assert(dirs@.take(dirs@.len() as int) =~= dirs@);
    }
}

/// Candidate system font files for Japanese, ordered by preference (see
/// [`cjk_candidates`]). `font_dirs` are the Windows font directories, the
/// one named by the environment first.
pub fn system_cjk_candidates(preset: FontPreset, platform: Platform, font_dirs: &[String]) -> (r:
    Vec<String>)
    ensures
        views(r@) == cjk_candidates(preset, platform, views(font_dirs@)),
{
    let mut paths: Vec<String> = Vec::new();
    let win = platform == Platform::Windows;
    match preset {
        FontPreset::BizUdGothic => {
            if win {
                let names: Vec<&str> = vec![
                    "BIZ-UDGothicB.ttc",
                    "BIZ-UDGothicR.ttc",
                    "BIZUDGothic-Regular.ttf",
                    "BIZUDGothic-Bold.ttf",
                    "BIZ-UDGothic.ttf",
                    "BIZUDGothic.ttf",
                ];
                proof {
                    assert(names@ == biz_ud_gothic_files());
                }
                push_in_dirs(&mut paths, font_dirs, &names);
            } else {
                let names: Vec<&str> = vec![
                    "/usr/share/fonts/truetype/bizud-gothic/BIZUDGothic-Regular.ttf",
                    "/usr/share/fonts/opentype/bizud/BIZUDGothic-Regular.ttf",
                ];
                proof {
                    assert(names@ == biz_ud_gothic_unix());
                }
                push_names(&mut paths, &names);
            }
        },
        FontPreset::BizUdpGothic => {
            if win {
                let names: Vec<&str> = vec![
                    "BIZ-UDPGothicB.ttc",
                    "BIZ-UDPGothicR.ttc",
                    "BIZUDP Gothic.ttf",
                    "BIZUDPGothic-Regular.ttf",
                    "BIZ-UDPGothic.ttf",
                    "BIZ-UDPGothic.ttc",
                ];
                proof {
                    assert(names@ == biz_udp_gothic_files());
                }
                push_in_dirs(&mut paths, font_dirs, &names);
            }
        },
        FontPreset::Default | FontPreset::Custom => {},
        FontPreset::Auto => {
            match platform {
                Platform::Windows => {
                    let names: Vec<&str> = vec![
                        "BIZ-UDGothicR.ttc",
                        "BIZUDGothic-Regular.ttf",
                        "BIZ-UDGothic.ttf",
                        "BIZ-UDPGothicR.ttc",
                        "BIZUDPGothic-Regular.ttf",
                        "YuGothM.ttc",
                        "YuGothR.ttc",
                        "meiryo.ttc",
                        "msgothic.ttc",
                        "msmincho.ttc",
                        "yumin.ttf",
                        "YuMincho.ttc",
                    ];
                    proof {
                        assert(names@ == auto_windows_files());
                    }
                    push_in_dirs(&mut paths, font_dirs, &names);
                },
                Platform::MacOs => {
                    let names: Vec<&str> = vec![
                        "/System/Library/Fonts/Hiragino Sans GB.ttc",
                        "/Library/Fonts/Arial Unicode.ttf",
                    ];
                    proof {
                        assert(names@ == auto_macos_files());
                    }
                    push_names(&mut paths, &names);
                },
                Platform::OtherUnix => {
                    let names: Vec<&str> = vec![
                        "/usr/share/fonts/opentype/noto/NotoSansCJK-Regular.ttc",
                        "/usr/share/fonts/opentype/noto/NotoSansCJKjp-Regular.otf",
                        "/usr/share/fonts/noto-cjk/NotoSansCJK-Regular.ttc",
                    ];
                    proof {
                        assert(names@ == auto_unix_files());
                    }
                    push_names(&mut paths, &names);
                },
            }
        },
        FontPreset::YuGothic => {
            if win {
                let names: Vec<&str> = vec!["YuGothM.ttc", "YuGothR.ttc"];
                proof {
                    assert(names@ == yu_gothic_files());
                }
                push_in_dirs(&mut paths, font_dirs, &names);
            }
        },
        FontPreset::Meiryo => {
            if win {
                let names: Vec<&str> = vec!["meiryo.ttc", "meiryob.ttc"];
                proof {
                    assert(names@ == meiryo_files());
                }
                push_in_dirs(&mut paths, font_dirs, &names);
            }
        },
        FontPreset::YuMincho => {
            if win {
                let names: Vec<&str> = vec!["yumin.ttf", "YuMincho.ttc"];
                proof {
                    assert(names@ == yu_mincho_files());
                }
                push_in_dirs(&mut paths, font_dirs, &names);
            }
        },
        FontPreset::MsGothic => {
            if win {
                let names: Vec<&str> = vec!["msgothic.ttc"];
                proof {
                    assert(names@ == ms_gothic_files());
                }
                push_in_dirs(&mut paths, font_dirs, &names);
            }
        },
        FontPreset::NotoSansCjk => {
            let fixed: Vec<&str> = vec![
                "/usr/share/fonts/opentype/noto/NotoSansCJK-Regular.ttc",
                "C:\\Windows\\Fonts\\NotoSansCJKjp-Regular.otf",
            ];
            proof {
                assert(fixed@ == noto_paths());
            }
            push_names(&mut paths, &fixed);
            if win {
                let names: Vec<&str> = vec!["NotoSansCJKjp-Regular.otf"];
                proof {
                    assert(names@ == noto_files());
                }
                push_in_dirs(&mut paths, font_dirs, &names);
            }
        },
    }
    proof {
        assert(views(Seq::<String>::empty()) =~= Seq::<Seq<char>>::empty());
        assert(Seq::<Seq<char>>::empty() + strs(noto_paths()) =~= strs(noto_paths()));
    }
    paths
}

/// Font data smaller than this many bytes is not taken for a font.
pub const MIN_FONT_BYTES: usize = 1000;

/// Whether font data of `len` bytes is taken for a font.
pub fn usable_font_data(len: usize) -> (r: bool)
    ensures
        r == (len > MIN_FONT_BYTES),
{
    len > MIN_FONT_BYTES
}

/// The preset whose system fonts are loaded: none for the built-in fonts;
/// with a custom font loaded, the automatic choice (as fallback for the
/// characters the custom font lacks); else the chosen preset.
pub open spec fn preset_to_load(preset: FontPreset, has_custom: bool) -> Option<FontPreset> {
    if preset == FontPreset::Default {
        None
    } else if has_custom {
        Some(FontPreset::Auto)
    } else {
        Some(preset)
    }
}

/// The preset whose system fonts are loaded (see [`preset_to_load`]).
pub fn system_preset_to_load(preset: FontPreset, has_custom: bool) -> (r: Option<FontPreset>)
    ensures
        r == preset_to_load(preset, has_custom),
{
    if preset == FontPreset::Default {
        None
    } else if has_custom {
        Some(FontPreset::Auto)
    } else {
        Some(preset)
    }
}

/// A font family's list after loading: the library's own keys taken out,
/// then the CJK font in front when loaded, then the custom font in front of
/// that when loaded.
pub open spec fn family_order(list: Seq<Seq<char>>, has_cjk: bool, has_custom: bool) -> Seq<Seq<char>> {
    let rest = list.filter(|n: Seq<char>| n != CJK_FONT_KEY@ && n != CUSTOM_FONT_KEY@);
    let with_cjk = if has_cjk {
        seq![CJK_FONT_KEY@] + rest
    } else {
        rest
    };
    if has_custom {
        seq![CUSTOM_FONT_KEY@] + with_cjk
    } else {
        with_cjk
    }
}

/// Reorders a font family's list (see [`family_order`]).
pub fn order_family(list: &mut Vec<String>, has_cjk: bool, has_custom: bool)
    ensures
        views(final(list)@) == family_order(views(old(list)@), has_cjk, has_custom),
{
    let ghost pred = |n: Seq<char>| n != CJK_FONT_KEY@ && n != CUSTOM_FONT_KEY@;
    let ghost old_v = views(list@);
    let mut kept: Vec<String> = Vec::new();
    if has_custom {
        kept.push(to_string(CUSTOM_FONT_KEY));
    }
    if has_cjk {
        kept.push(to_string(CJK_FONT_KEY));
    }
    let ghost head = views(kept@);
    let n = list.len();
    let mut i: usize = 0;
    while i < n
        invariant
            n == list@.len(),
            i <= n,
            old_v == views(list@),
            views(kept@) == head + old_v.take(i as int).filter(pred),
            pred == (|n: Seq<char>| n != CJK_FONT_KEY@ && n != CUSTOM_FONT_KEY@),
        decreases n - i,
    {
        let is_key = list[i] == to_string(CJK_FONT_KEY) || list[i] == to_string(CUSTOM_FONT_KEY);
        proof {
            assert(old_v.take(i + 1) == old_v.take(i as int).push(list@[i as int]@));
            old_v.take(i as int).lemma_filter_push(list@[i as int]@, pred);
        }
        let ghost before = kept@;
        if !is_key {
            kept.push(list[i].clone());
            proof {
                assert(views(kept@) =~= views(before).push(list@[i as int]@));
            }
        }
        i = i + 1;
    }
    proof {
        assert(old_v.take(n as int) == old_v);
        let rest = old_v.filter(pred);
        if has_custom && has_cjk {
            assert(head =~= seq![CUSTOM_FONT_KEY@, CJK_FONT_KEY@]);
            assert(head + rest =~= seq![CUSTOM_FONT_KEY@] + (seq![CJK_FONT_KEY@] + rest));
        } else if has_custom {
            assert(head =~= seq![CUSTOM_FONT_KEY@]);
        } else if has_cjk {
            assert(head =~= seq![CJK_FONT_KEY@]);
        } else {
            assert(head =~= Seq::<Seq<char>>::empty());
            assert(head + rest =~= rest);
        }
    }
    *list = kept;
}

/// The label of a font preset in the settings.
pub open spec fn preset_text(p: FontPreset) -> Seq<char> {
    match p {
        FontPreset::BizUdGothic => "BIZ UDゴシック (標準)"@,
        FontPreset::BizUdpGothic => "BIZ UDPゴシック"@,
        FontPreset::Auto => "自動 (BIZ UD優先)"@,
        FontPreset::YuGothic => "游ゴシック"@,
        FontPreset::Meiryo => "メイリオ"@,
        FontPreset::YuMincho => "游明朝"@,
        FontPreset::MsGothic => "ＭＳ ゴシック"@,
        FontPreset::NotoSansCjk => "Noto Sans CJK"@,
        FontPreset::Default => "egui 標準 (日本語なし)"@,
        FontPreset::Custom => "カスタムファイル…"@,
    }
}

/// The label of a font preset in the settings (see [`preset_text`]).
pub fn preset_label(p: FontPreset) -> (r: &'static str)
    ensures
        r@ == preset_text(p),
{
    match p {
        FontPreset::BizUdGothic => "BIZ UDゴシック (標準)",
        FontPreset::BizUdpGothic => "BIZ UDPゴシック",
        FontPreset::Auto => "自動 (BIZ UD優先)",
        FontPreset::YuGothic => "游ゴシック",
        FontPreset::Meiryo => "メイリオ",
        FontPreset::YuMincho => "游明朝",
        FontPreset::MsGothic => "ＭＳ ゴシック",
        FontPreset::NotoSansCjk => "Noto Sans CJK",
        FontPreset::Default => "egui 標準 (日本語なし)",
        FontPreset::Custom => "カスタムファイル…",
    }
}

/// The presets offered in the settings, in their order.
pub open spec fn preset_list() -> Seq<FontPreset> {
    seq![
        FontPreset::BizUdGothic,
        FontPreset::BizUdpGothic,
        FontPreset::Auto,
        FontPreset::YuGothic,
        FontPreset::Meiryo,
        FontPreset::YuMincho,
        FontPreset::MsGothic,
        FontPreset::NotoSansCjk,
        FontPreset::Custom,
        FontPreset::Default,
    ]
}

/// The presets offered in the settings (see [`preset_list`]).
pub fn all_presets() -> (r: Vec<FontPreset>)
    ensures
        r@ == preset_list(),
{
    let r = vec![
        FontPreset::BizUdGothic,
        FontPreset::BizUdpGothic,
        FontPreset::Auto,
        FontPreset::YuGothic,
        FontPreset::Meiryo,
        FontPreset::YuMincho,
        FontPreset::MsGothic,
        FontPreset::NotoSansCjk,
        FontPreset::Custom,
        FontPreset::Default,
    ];
    proof {
        assert(r@ == preset_list());
    }
    r
}

/// Every preset is offered exactly once.
pub proof fn every_preset_offered_once(p: FontPreset)
    ensures
        preset_list().contains(p),
        forall|i: int, j: int|
            0 <= i < j < preset_list().len() ==> preset_list()[i] != preset_list()[j],
{
    match p {
        FontPreset::BizUdGothic => assert(preset_list()[0] == p),
        FontPreset::BizUdpGothic => assert(preset_list()[1] == p),
        FontPreset::Auto => assert(preset_list()[2] == p),
        FontPreset::YuGothic => assert(preset_list()[3] == p),
        FontPreset::Meiryo => assert(preset_list()[4] == p),
        FontPreset::YuMincho => assert(preset_list()[5] == p),
        FontPreset::MsGothic => assert(preset_list()[6] == p),
        FontPreset::NotoSansCjk => assert(preset_list()[7] == p),
        FontPreset::Custom => assert(preset_list()[8] == p),
        FontPreset::Default => assert(preset_list()[9] == p),
    }
}

/// The file name of `path`, or `fallback` when it has none.
pub open spec fn name_or(path: Seq<char>, fallback: Seq<char>, sep: char) -> Seq<char> {
    match paths::file_name(path, sep) {
        Some(n) => n,
        None => fallback,
    }
}

/// The name of the font in use, for the status line: the custom font file
/// when one loaded; else nothing for the built-in preset; else the system
/// font file found, or a note that no Japanese font was found.
pub open spec fn font_name_text(
    custom: Option<Seq<char>>,
    preset: FontPreset,
    system: Option<Seq<char>>,
    sep: char,
) -> Seq<char> {
    match custom {
        Some(p) => "カスタム: "@ + name_or(p, "font"@, sep),
        None => if preset == FontPreset::Default {
            "egui default (CJK なし)"@
        } else {
            match system {
                Some(p) => name_or(p, "system CJK"@, sep),
                None => "日本語フォント未検出"@,
            }
        },
    }
}

fn file_name_or(path: &str, fallback: &str, sep: char) -> (r: String)
    ensures
        r@ == name_or(path@, fallback@, sep),
{
    match paths::file_name_of(path, sep) {
        Some(n) => n,
        None => to_string(fallback),
    }
}

/// The name of the font in use (see [`font_name_text`]): `custom` is the
/// path of the custom font file when it loaded, `system` that of the system
/// font file found for the preset.
pub fn loaded_font_name(custom: Option<&str>, preset: FontPreset, system: Option<&str>, sep: char) -> (r:
    String)
    ensures
        r@ == font_name_text(
            match custom {
                Some(p) => Some(p@),
                None => None,
            },
            preset,
            match system {
                Some(p) => Some(p@),
                None => None,
            },
            sep,
        ),
{
    match custom {
        Some(p) => {
            let mut s = to_string("カスタム: ");
            let n = file_name_or(p, "font", sep);
            crate::text::push_str(&mut s, n.as_str());
            s
        },
        None => {
            if preset == FontPreset::Default {
                to_string("egui default (CJK なし)")
            } else {
                match system {
                    Some(p) => file_name_or(p, "system CJK", sep),
                    None => to_string("日本語フォント未検出"),
                }
            }
        },
    }
}

} // verus!
