//! The preview pane and the column headers: what kind of preview a row
//! gets and the texts shown for it. Reading the file or counting a
//! folder's items stays with the application.

use vstd::prelude::*;
use crate::fs_ops;
use crate::text;
use crate::text::{push_decimal, push_str, str_eq, str_to_lowercase, to_string};

verus! {

/// What the preview pane shows for a row.
#[derive(Debug, Clone, Copy, PartialEq, Eq, Structural)]
pub enum PreviewKind {
    /// A folder: its name, path and number of items.
    Folder,
    /// A text file: its beginning.
    Text,
    /// An image: its name, size and path.
    Image,
    /// Any other file: name, size, type, modification time and path.
    Other,
}

/// Extensions of files previewed as text.
pub open spec fn text_ext(e: Seq<char>) -> bool {
    e == "txt"@ || e == "md"@ || e == "rs"@ || e == "toml"@ || e == "json"@ || e == "yaml"@ || e
        == "yml"@ || e == "csv"@ || e == "log"@ || e == "ini"@ || e == "cfg"@ || e == "py"@ || e
        == "js"@ || e == "ts"@ || e == "html"@ || e == "css"@ || e == "xml"@ || e == "bat"@ || e
        == "ps1"@ || e == "sh"@ || e == "go"@ || e == "java"@ || e == "c"@ || e == "cpp"@ || e
        == "h"@ || e == "hpp"@ || e == "cs"@
}

/// Extensions of files previewed as images.
pub open spec fn picture_ext(e: Seq<char>) -> bool {
    e == "png"@ || e == "jpg"@ || e == "jpeg"@ || e == "gif"@ || e == "bmp"@ || e == "webp"@ || e
        == "ico"@
}

/// The preview of a row: folders as folders; files by their lower-cased
/// type (the row's extension).
pub open spec fn preview_of(is_dir: bool, ext: Seq<char>) -> PreviewKind {
    let e = text::lowercase(ext);
    if is_dir {
        PreviewKind::Folder
    } else if text_ext(e) {
        PreviewKind::Text
    } else if picture_ext(e) {
        PreviewKind::Image
    } else {
        PreviewKind::Other
    }
}

/// The preview of a row (see [`preview_of`]).
pub fn preview_kind(is_dir: bool, ext: &str) -> (r: PreviewKind)
    ensures
        r == preview_of(is_dir, ext@),
{
    if is_dir {
        return PreviewKind::Folder;
    }
    let low = str_to_lowercase(ext);
    let e = low.as_str();
    if str_eq(e, "txt") || str_eq(e, "md") || str_eq(e, "rs") || str_eq(e, "toml") || str_eq(
        e,
        "json",
    ) || str_eq(e, "yaml") || str_eq(e, "yml") || str_eq(e, "csv") || str_eq(e, "log") || str_eq(
        e,
        "ini",
    ) || str_eq(e, "cfg") || str_eq(e, "py") || str_eq(e, "js") || str_eq(e, "ts") || str_eq(
        e,
        "html",
    ) || str_eq(e, "css") || str_eq(e, "xml") || str_eq(e, "bat") || str_eq(e, "ps1") || str_eq(
        e,
        "sh",
    ) || str_eq(e, "go") || str_eq(e, "java") || str_eq(e, "c") || str_eq(e, "cpp") || str_eq(
        e,
        "h",
    ) || str_eq(e, "hpp") || str_eq(e, "cs") {
        PreviewKind::Text
    } else if str_eq(e, "png") || str_eq(e, "jpg") || str_eq(e, "jpeg") || str_eq(e, "gif")
        || str_eq(e, "bmp") || str_eq(e, "webp") || str_eq(e, "ico") {
        PreviewKind::Image
    } else {
        PreviewKind::Other
    }
}

/// How many characters of a text file the preview shows.
pub const PREVIEW_CHARS: usize = 4000;

/// The preview of a folder.
pub open spec fn folder_text(name: Seq<char>, path: Seq<char>, count: nat) -> Seq<char> {
    "フォルダ: "@ + name + "\nパス: "@ + path + "\n\n含まれる項目: "@ + text::decimal(count) + " 個"@
}

/// The preview of a folder holding `count` items.
pub fn folder_preview(name: &str, path: &str, count: u64) -> (r: String)
    ensures
        r@ == folder_text(name@, path@, count as nat),
{
    let mut s = to_string("フォルダ: ");
    push_str(&mut s, name);
    push_str(&mut s, "\nパス: ");
    push_str(&mut s, path);
    push_str(&mut s, "\n\n含まれる項目: ");
    push_decimal(&mut s, count);
    push_str(&mut s, " 個");
    s
}

/// The preview of an image.
pub open spec fn image_text(name: Seq<char>, size: nat, path: Seq<char>) -> Seq<char> {
    "画像ファイル: "@ + name + "\nサイズ: "@ + fs_ops::size_text(size) + "\nパス: "@ + path
}

/// The preview of an image of `size` bytes.
pub fn image_preview(name: &str, size: u64, path: &str) -> (r: String)
    ensures
        r@ == image_text(name@, size as nat, path@),
{
    let mut s = to_string("画像ファイル: ");
    push_str(&mut s, name);
    push_str(&mut s, "\nサイズ: ");
    let h = fs_ops::humansize(size);
    push_str(&mut s, h.as_str());
    push_str(&mut s, "\nパス: ");
    push_str(&mut s, path);
    s
}

/// The preview of any other file.
pub open spec fn file_text(
    name: Seq<char>,
    size: nat,
    kind: Seq<char>,
    modified: Seq<char>,
    path: Seq<char>,
) -> Seq<char> {
    "ファイル: "@ + name + "\nサイズ: "@ + fs_ops::size_text(size) + "\n種類: "@ + kind + "\n更新: "@
        + modified + "\nパス: "@ + path
}

/// The preview of any other file of `size` bytes, type `kind`, modified at
/// the time shown as `modified`.
pub fn file_preview(name: &str, size: u64, kind: &str, modified: &str, path: &str) -> (r: String)
    ensures
        r@ == file_text(name@, size as nat, kind@, modified@, path@),
{
    let mut s = to_string("ファイル: ");
    push_str(&mut s, name);
    push_str(&mut s, "\nサイズ: ");
    let h = fs_ops::humansize(size);
    push_str(&mut s, h.as_str());
    push_str(&mut s, "\n種類: ");
    push_str(&mut s, kind);
    push_str(&mut s, "\n更新: ");
    push_str(&mut s, modified);
    push_str(&mut s, "\nパス: ");
    push_str(&mut s, path);
    s
}

/// A column header: the column's name, with `▼` or `▲` after it when the
/// list is sorted by it (descending or ascending).
pub open spec fn header_text(base: Seq<char>, active: bool, desc: bool) -> Seq<char> {
    if !active {
        base
    } else if desc {
        base + " ▼"@
    } else {
        base + " ▲"@
    }
}

/// A column header (see [`header_text`]).
pub fn header_label(base: &str, active: bool, desc: bool) -> (r: String)
    ensures
        r@ == header_text(base@, active, desc),
{
    let mut s = to_string(base);
    if active {
        if desc {
            push_str(&mut s, " ▼");
        } else {
            push_str(&mut s, " ▲");
        }
    }
    s
}

} // verus!
