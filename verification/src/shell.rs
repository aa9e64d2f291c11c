//! Shell integration: what the library decides around the operating
//! system's shell. Typed paths are normalised, long paths prefixed, a file's
//! emoji picked, type names and icon pixels cleaned up; the calls into the
//! Windows shell themselves stay with the application.

use vstd::prelude::*;
use crate::paths;
use crate::paths::main_separator;
use crate::text;
use crate::text::{chars_of, push_str, str_eq, str_to_lowercase, string_from_chars, to_string};

verus! {

// ---------------------------------------------------------------------------
// Paths typed by the user and paths handed to Win32
// ---------------------------------------------------------------------------

/// Normalize a user-entered path so both `\` and `/` are accepted on any OS:
/// trimmed, then every separator written the platform's way.
pub fn normalize_path_input(input: &str) -> (r: String)
    ensures
        r@ == paths::normalized_input(input@, '/') || r@ == paths::normalized_input(input@, '\\'),
{
    paths::normalize_input_for(input, main_separator())
}

/// Prefix `\\?\` on Windows when a path is long or climbs with `..`, for
/// Win32 long-path APIs (see [`paths::long_path`]); leaves UNC and
/// already-prefixed paths alone, and is the identity on other platforms.
pub fn to_long_path(path: &str) -> (r: String)
    ensures
        r@ == paths::long_path(path@, '/') || r@ == paths::long_path(path@, '\\'),
{
    paths::long_path_for(path, main_separator())
}

/// Whether the shell's file attributes mark `path` as a directory. The
/// shell is not asked: the answer is always `false`.
pub fn is_dir_via_attr(path: &str) -> (r: bool)
    ensures
        !r,
{
    false
}

// ---------------------------------------------------------------------------
// Shell actions that need a window or another platform
// ---------------------------------------------------------------------------

/// The error of hosting the shell's context menu: on Windows it needs a
/// window handle, elsewhere there is no such menu.
pub open spec fn context_menu_error(sep: char) -> Seq<char> {
    if sep == '\\' {
        "OS context menu hosting requires HWND"@
    } else {
        "Windows only"@
    }
}

/// Showing the shell's context menu for `paths` on the platform whose main
/// separator is `sep`: always refused (see [`context_menu_error`]).
pub fn show_os_context_menu_for(paths: &[String], sep: char) -> (r: Result<(), String>)
    ensures
        r matches Err(m) && m@ == context_menu_error(sep),
{
    if sep == '\\' {
        Err(to_string("OS context menu hosting requires HWND"))
    } else {
        Err(to_string("Windows only"))
    }
}

/// Show the shell's context menu for `paths`: always refused.
pub fn show_os_context_menu(paths: &[String]) -> (r: Result<(), String>)
    ensures
        r matches Err(m) && (m@ == context_menu_error('/') || m@ == context_menu_error('\\')),
{
    show_os_context_menu_for(paths, main_separator())
}

/// The argument that makes Windows Explorer open the folder of `path` with
/// `path` selected.
pub open spec fn select_arg(path: Seq<char>) -> Seq<char> {
    "/select,"@ + path
}

/// What revealing `path` in the file manager asks of the platform whose main
/// separator is `sep`: on Windows, running `explorer` with [`select_arg`];
/// elsewhere an error, `Windows only`.
pub fn reveal_in_explorer_for(path: &str, sep: char) -> (r: Result<String, String>)
    ensures
        sep == '\\' ==> (r matches Ok(a) && a@ == select_arg(path@)),
        sep != '\\' ==> (r matches Err(m) && m@ == "Windows only"@),
{
    if sep == '\\' {
        let mut a = to_string("/select,");
        push_str(&mut a, path);
        Ok(a)
    } else {
        Err(to_string("Windows only"))
    }
}

/// What revealing `path` in the file manager asks of this platform (see
/// [`reveal_in_explorer_for`]); the caller starts `explorer` with the
/// argument.
pub fn reveal_in_explorer(path: &str) -> (r: Result<String, String>)
    ensures
        (r matches Ok(a) && a@ == select_arg(path@)) || (r matches Err(m) && m@ == "Windows only"@),
{
    reveal_in_explorer_for(path, main_separator())
}

// ---------------------------------------------------------------------------
// Emoji for a row
// ---------------------------------------------------------------------------

/// The extension of the final component of `path`, or nothing.
pub open spec fn path_extension(path: Seq<char>, sep: char) -> Seq<char> {
    match paths::file_name(path, sep) {
        Some(n) => match paths::extension(n) {
            Some(x) => x,
            None => seq![],
        },
        None => seq![],
    }
}

/// Image extensions (Windows also counts `svg`).
pub open spec fn image_ext(e: Seq<char>, windows: bool) -> bool {
    e == "png"@ || e == "jpg"@ || e == "jpeg"@ || e == "gif"@ || e == "bmp"@ || e == "webp"@
        || e == "ico"@ || (windows && e == "svg"@)
}

/// Archive extensions (Windows also counts `bz2` and `xz`).
pub open spec fn archive_ext(e: Seq<char>, windows: bool) -> bool {
    e == "zip"@ || e == "7z"@ || e == "rar"@ || e == "tar"@ || e == "gz"@ || (windows && (e
        == "bz2"@ || e == "xz"@))
}

/// Program extensions.
pub open spec fn program_ext(e: Seq<char>) -> bool {
    e == "exe"@ || e == "msi"@ || e == "dll"@ || e == "sys"@
}

/// Source code and data extensions.
pub open spec fn code_ext(e: Seq<char>) -> bool {
    e == "rs"@ || e == "toml"@ || e == "json"@ || e == "yaml"@ || e == "yml"@ || e == "py"@ || e
        == "js"@ || e == "ts"@ || e == "go"@ || e == "c"@ || e == "cpp"@ || e == "h"@ || e
        == "cs"@ || e == "java"@
}

/// The emoji shown for a row: a folder for directories; for files, by
/// their lower-cased extension. Windows knows more kinds than other
/// platforms, which show images, archives and documents only.
pub open spec fn icon_emoji(path: Seq<char>, is_dir: bool, sep: char) -> Seq<char> {
    let e = text::lowercase(path_extension(path, sep));
    if is_dir {
        "📁"@
    } else if sep == '\\' {
        if image_ext(e, true) {
            "🖼️"@
        } else if archive_ext(e, true) {
            "📦"@
        } else if program_ext(e) {
            "⚙️"@
        } else if code_ext(e) {
            "📝"@
        } else if e == "pdf"@ {
            "📕"@
        } else if e == "doc"@ || e == "docx"@ {
            "📘"@
        } else if e == "xls"@ || e == "xlsx"@ {
            "📗"@
        } else if e == "ppt"@ || e == "pptx"@ {
            "📙"@
        } else {
            "📄"@
        }
    } else if image_ext(e, false) {
        "🖼️"@
    } else if archive_ext(e, false) {
        "📦"@
    } else {
        "📄"@
    }
}

fn is_image_ext(e: &str, windows: bool) -> (r: bool)
    ensures
        r == image_ext(e@, windows),
{
    str_eq(e, "png") || str_eq(e, "jpg") || str_eq(e, "jpeg") || str_eq(e, "gif") || str_eq(e, "bmp")
        || str_eq(e, "webp") || str_eq(e, "ico") || (windows && str_eq(e, "svg"))
}

fn is_archive_ext(e: &str, windows: bool) -> (r: bool)
    ensures
        r == archive_ext(e@, windows),
{
    str_eq(e, "zip") || str_eq(e, "7z") || str_eq(e, "rar") || str_eq(e, "tar") || str_eq(e, "gz")
        || (windows && (str_eq(e, "bz2") || str_eq(e, "xz")))
}

fn is_program_ext(e: &str) -> (r: bool)
    ensures
        r == program_ext(e@),
{
    str_eq(e, "exe") || str_eq(e, "msi") || str_eq(e, "dll") || str_eq(e, "sys")
}

fn is_code_ext(e: &str) -> (r: bool)
    ensures
        r == code_ext(e@),
{
    str_eq(e, "rs") || str_eq(e, "toml") || str_eq(e, "json") || str_eq(e, "yaml") || str_eq(e, "yml")
        || str_eq(e, "py") || str_eq(e, "js") || str_eq(e, "ts") || str_eq(e, "go") || str_eq(e, "c")
        || str_eq(e, "cpp") || str_eq(e, "h") || str_eq(e, "cs") || str_eq(e, "java")
}

/// The extension of the final component of `path` (see [`path_extension`]).
pub fn extension_of_path(path: &str, sep: char) -> (r: String)
    ensures
        r@ == path_extension(path@, sep),
{
    match paths::file_name_of(path, sep) {
        Some(n) => match paths::extension_of(n.as_str()) {
            Some(x) => x,
            None => String::new(),
        },
        None => String::new(),
    }
}

/// The emoji for a row on the platform whose main separator is `sep` (see
/// [`icon_emoji`]).
pub fn icon_emoji_for(path: &str, is_dir: bool, sep: char) -> (r: &'static str)
    ensures
        r@ == icon_emoji(path@, is_dir, sep),
{
    if is_dir {
        return "📁";
    }
    let raw = extension_of_path(path, sep);
    let low = str_to_lowercase(raw.as_str());
    let e = low.as_str();
    if sep == '\\' {
        if is_image_ext(e, true) {
            "🖼️"
        } else if is_archive_ext(e, true) {
            "📦"
        } else if is_program_ext(e) {
            "⚙️"
        } else if is_code_ext(e) {
            "📝"
        } else if str_eq(e, "pdf") {
            "📕"
        } else if str_eq(e, "doc") || str_eq(e, "docx") {
            "📘"
        } else if str_eq(e, "xls") || str_eq(e, "xlsx") {
            "📗"
        } else if str_eq(e, "ppt") || str_eq(e, "pptx") {
            "📙"
        } else {
            "📄"
        }
    } else if is_image_ext(e, false) {
        "🖼️"
    } else if is_archive_ext(e, false) {
        "📦"
    } else {
        "📄"
    }
}

/// The emoji for a row on this platform (see [`icon_emoji`]).
pub fn icon_emoji_for_path(path: &str, is_dir: bool) -> (r: &'static str)
    ensures
        r@ == icon_emoji(path@, is_dir, '/') || r@ == icon_emoji(path@, is_dir, '\\'),
{
    icon_emoji_for(path, is_dir, main_separator())
}

// ---------------------------------------------------------------------------
// What the Windows shell hands back
// ---------------------------------------------------------------------------

/// A UTF-16 unit that opens a surrogate pair.
pub open spec fn high_surrogate(u: u16) -> bool {
    0xD800 <= u <= 0xDBFF
}

/// A UTF-16 unit that closes a surrogate pair.
pub open spec fn low_surrogate(u: u16) -> bool {
    0xDC00 <= u <= 0xDFFF
}

/// The character a surrogate pair encodes.
pub open spec fn paired_char(hi: u16, lo: u16) -> char {
    (0x10000 + (hi - 0xD800) * 0x400 + (lo - 0xDC00)) as u32 as char
}

/// UTF-16 text decoded, with U+FFFD in place of each unpaired surrogate.
pub open spec fn utf16_decoded(units: Seq<u16>) -> Seq<char>
    decreases units.len(),
{
    if units.len() == 0 {
        seq![]
    } else if high_surrogate(units[0]) && units.len() >= 2 && low_surrogate(units[1]) {
        seq![paired_char(units[0], units[1])] + utf16_decoded(units.skip(2))
    } else if high_surrogate(units[0]) || low_surrogate(units[0]) {
        seq!['\u{FFFD}'] + utf16_decoded(units.skip(1))
    } else {
        seq![units[0] as u32 as char] + utf16_decoded(units.skip(1))
    }
}

/// Calls `String::from_utf16_lossy`, which decodes UTF-16 and puts U+FFFD
/// in place of invalid data, here each unpaired surrogate (see
/// [`utf16_decoded`]).
#[verifier::external_body]
fn utf16_lossy(units: &[u16]) -> (r: String)
    ensures
        r@ == utf16_decoded(units@),
{
    String::from_utf16_lossy(units)
}

/// `s` without its leading NUL characters.
pub open spec fn drop_leading_nul(s: Seq<char>) -> Seq<char>
    decreases s.len(),
{
    if s.len() > 0 && s[0] == '\0' {
        drop_leading_nul(s.drop_first())
    } else {
        s
    }
}

/// `s` without its trailing NUL characters.
pub open spec fn drop_trailing_nul(s: Seq<char>) -> Seq<char>
    decreases s.len(),
{
    if s.len() > 0 && s.last() == '\0' {
        drop_trailing_nul(s.drop_last())
    } else {
        s
    }
}

/// A type name as the shell fills it in: the UTF-16 buffer decoded, NULs
/// trimmed from both ends, then white space; `None` when nothing is left.
pub open spec fn shell_type_name(units: Seq<u16>) -> Option<Seq<char>> {
    let t = text::trim_ws(drop_trailing_nul(drop_leading_nul(utf16_decoded(units))));
    if t.len() == 0 {
        None
    } else {
        Some(t)
    }
}

fn strip_nuls(v: &Vec<char>) -> (r: Vec<char>)
    ensures
        r@ == drop_trailing_nul(drop_leading_nul(v@)),
{
    let mut a: usize = 0;
    proof {
        assert(v@.skip(0) =~= v@);
    }
    while a < v.len() && v[a] == '\0'
        invariant
            a <= v@.len(),
            drop_leading_nul(v@) == drop_leading_nul(v@.skip(a as int)),
        decreases v@.len() - a,
    {
        proof {
            assert(v@.skip(a as int).drop_first() =~= v@.skip(a + 1));
        }
        a = a + 1;
    }
    let mut b: usize = v.len();
    proof {
        assert(drop_leading_nul(v@.skip(a as int)) == v@.skip(a as int));
        assert(v@.skip(a as int) =~= v@.subrange(a as int, b as int));
    }
    while b > a && v[b - 1] == '\0'
        invariant
            a <= b <= v@.len(),
            drop_trailing_nul(drop_leading_nul(v@)) == drop_trailing_nul(v@.subrange(a as int, b as int)),
        decreases b - a,
    {
        proof {
            assert(v@.subrange(a as int, b as int).drop_last() =~= v@.subrange(a as int, b - 1));
        }
        b = b - 1;
    }
    proof {
        let t = v@.subrange(a as int, b as int);
        if t.len() > 0 {
            assert(t.last() == v@[b - 1]);
        }
        assert(drop_trailing_nul(t) == t);
    }
    let mut r: Vec<char> = Vec::new();
    let mut k: usize = a;
    while k < b
        invariant
            a <= k <= b <= v@.len(),
            r@ == v@.subrange(a as int, k as int),
        decreases b - k,
    {
        r.push(v[k]);
        proof {
            assert(v@.subrange(a as int, k + 1) =~= v@.subrange(a as int, k as int).push(v@[k as int]));
        }
        k = k + 1;
    }
    r
}

/// The type name the shell wrote into `units` (see [`shell_type_name`]).
pub fn type_name_from_utf16(units: &[u16]) -> (r: Option<String>)
    ensures
        match r {
            Some(s) => shell_type_name(units@) == Some(s@),
            None => shell_type_name(units@) is None,
        },
{
    let decoded = utf16_lossy(units);
    let v = chars_of(decoded.as_str());
    let stripped = strip_nuls(&v);
    let t = text::trim_chars(stripped.as_slice());
    if t.len() == 0 {
        None
    } else {
        Some(string_from_chars(t.as_slice()))
    }
}

/// The size of an icon bitmap: a colour bitmap as it is; a monochrome one
/// holds the mask and the image stacked, so half as high. `None` unless
/// both sides are positive.
pub open spec fn icon_dims(width: int, height: int, is_color: bool) -> Option<(int, int)> {
    let h = if is_color {
        height
    } else {
        height / 2
    };
    if width <= 0 || h <= 0 {
        None
    } else {
        Some((width, h))
    }
}

/// The size of an icon bitmap (see [`icon_dims`]).
pub fn icon_size(width: i32, height: i32, is_color: bool) -> (r: Option<(i32, i32)>)
    ensures
        match r {
            Some((w, h)) => icon_dims(width as int, height as int, is_color) == Some(
                (w as int, h as int),
            ),
            None => icon_dims(width as int, height as int, is_color) is None,
        },
{
    if width <= 0 {
        return None;
    }
    if is_color {
        if height <= 0 {
            None
        } else {
            Some((width, height))
        }
    } else if height < 2 {
        None
    } else {
        Some((width, height / 2))
    }
}

/// Some pixel of `bits` (four bytes each, the fourth being alpha) has a
/// nonzero alpha.
pub open spec fn any_alpha(bits: Seq<u8>) -> bool {
    exists|p: int| 0 <= p < bits.len() / 4 && #[trigger] bits[4 * p + 3] != 0
}

/// Byte `k` of pixel `p` once the shell's pixels are made ready for the
/// user interface. The shell gives blue, green, red, alpha; the result is
/// red, green, blue, alpha. A colour icon without any alpha is made opaque;
/// a monochrome icon turns white pixels transparent and the rest opaque.
pub open spec fn converted_byte(bits: Seq<u8>, is_color: bool, p: int, k: int) -> u8 {
    let b = bits[4 * p];
    let g = bits[4 * p + 1];
    let r = bits[4 * p + 2];
    let a = bits[4 * p + 3];
    let out_a = if is_color && any_alpha(bits) {
        a
    } else {
        255u8
    };
    if !is_color && r == 255 && g == 255 && b == 255 {
        0u8
    } else if k == 0 {
        r
    } else if k == 1 {
        g
    } else if k == 2 {
        b
    } else {
        out_a
    }
}

/// The shell's icon pixels made ready for the user interface, pixel by
/// pixel (see [`converted_byte`]); bytes after the last whole pixel stay.
pub fn icon_pixels(bits: &Vec<u8>, is_color: bool) -> (r: Vec<u8>)
    ensures
        r@.len() == bits@.len(),
        forall|p: int, k: int|
            0 <= p < bits@.len() / 4 && 0 <= k < 4 ==> #[trigger] r@[4 * p + k] == converted_byte(
                bits@,
                is_color,
                p,
                k,
            ),
        forall|i: int| 4 * (bits@.len() / 4) <= i < bits@.len() ==> #[trigger] r@[i] == bits@[i],
{
    let n = bits.len();
    let np = n / 4;
    let mut has_alpha = false;
    let mut p: usize = 0;
    while p < np
        invariant
            n == bits@.len(),
            np == n / 4,
            p <= np,
            has_alpha == exists|q: int| 0 <= q < p && #[trigger] bits@[4 * q + 3] != 0,
        decreases np - p,
    {
        if bits[4 * p + 3] != 0 {
            has_alpha = true;
        }
        p = p + 1;
    }
    proof {
        assert(has_alpha == any_alpha(bits@));
    }
    let mut out: Vec<u8> = Vec::new();
    let mut p: usize = 0;
    while p < np
        invariant
            n == bits@.len(),
            np == n / 4,
            p <= np,
            has_alpha == any_alpha(bits@),
            out@.len() == 4 * p,
            forall|q: int, k: int|
                0 <= q < p && 0 <= k < 4 ==> #[trigger] out@[4 * q + k] == converted_byte(
                    bits@,
                    is_color,
                    q,
                    k,
                ),
        decreases np - p,
    {
        let b = bits[4 * p];
        let g = bits[4 * p + 1];
        let r = bits[4 * p + 2];
        let a = bits[4 * p + 3];
        let out_a: u8 = if is_color && has_alpha {
            a
        } else {
            255
        };
        let ghost before = out@;
        if !is_color && r == 255 && g == 255 && b == 255 {
            out.push(0);
            out.push(0);
            out.push(0);
            out.push(0);
        } else {
            out.push(r);
            out.push(g);
            out.push(b);
            out.push(out_a);
        }
        proof {
            assert forall|q: int, k: int| 0 <= q < p + 1 && 0 <= k < 4 implies #[trigger] out@[4 * q
                + k] == converted_byte(bits@, is_color, q, k) by {
                if q < p {
                    assert(out@[4 * q + k] == before[4 * q + k]);
                }
            }
        }
        p = p + 1;
    }
    let mut i: usize = 4 * np;
    while i < n
        invariant
            n == bits@.len(),
            np == n / 4,
            4 * np <= i <= n,
            out@.len() == i,
            forall|q: int, k: int|
                0 <= q < np && 0 <= k < 4 ==> #[trigger] out@[4 * q + k] == converted_byte(
                    bits@,
                    is_color,
                    q,
                    k,
                ),
            forall|j: int| 4 * np <= j < i ==> #[trigger] out@[j] == bits@[j],
        decreases n - i,
    {
        let ghost before = out@;
        out.push(bits[i]);
        proof {
            assert forall|q: int, k: int| 0 <= q < np && 0 <= k < 4 implies #[trigger] out@[4 * q
                + k] == converted_byte(bits@, is_color, q, k) by {
                assert(out@[4 * q + k] == before[4 * q + k]);
            }
        }
        i = i + 1;
    }
    out
}

} // verus!
