//! Paths as text.
//!
//! The library keeps paths as strings. Their structure follows the platform's
//! rules, picked by its main separator: on Windows (`\`) both `\` and `/`
//! separate components and a leading drive `X:` is a prefix; elsewhere (`/`)
//! only `/` separates components. Separators and `.` components at the end of
//! a path do not count, a `..` component has no file name.

use vstd::prelude::*;
use crate::text;
use crate::text::{chars_of, push_char, push_chars, string_from_chars};

verus! {

/// Calls `std::path::MAIN_SEPARATOR`, the separator of path components on
/// this platform; its documentation gives `/` on Unix and `\` on Windows.
#[verifier::external_body]
pub fn main_separator() -> (c: char)
    ensures
        c == '/' || c == '\\',
{
    std::path::MAIN_SEPARATOR
}

/// `c` separates path components on the platform whose main separator is `sep`.
pub open spec fn is_sep(c: char, sep: char) -> bool {
    c == '/' || (sep == '\\' && c == '\\')
}

/// Whether `c` separates path components.
pub fn is_separator(c: char, sep: char) -> (r: bool)
    ensures
        r == is_sep(c, sep),
{
    c == '/' || (sep == '\\' && c == '\\')
}

/// An ASCII letter.
pub open spec fn is_ascii_letter(c: char) -> bool {
    ('a' <= c && c <= 'z') || ('A' <= c && c <= 'Z')
}

/// Length of the drive prefix (`X:`) of `p`: 2 on Windows when present, else 0.
pub open spec fn prefix_len(p: Seq<char>, sep: char) -> int {
    if sep == '\\' && p.len() >= 2 && is_ascii_letter(p[0]) && p[1] == ':' {
        2
    } else {
        0
    }
}

/// End of the last real component of `p[..e]`, after dropping trailing
/// separators and `.` components (not going below `lo`).
pub open spec fn name_end(p: Seq<char>, sep: char, lo: int, e: int) -> int
    decreases e - lo,
{
    if e <= lo || e > p.len() {
        if e > p.len() { p.len() as int } else { lo }
    } else if is_sep(p[e - 1], sep) {
        name_end(p, sep, lo, e - 1)
    } else if p[e - 1] == '.' && (e - 1 == lo || is_sep(p[e - 2], sep)) {
        name_end(p, sep, lo, e - 1)
    } else {
        e
    }
}

/// Start of the component that ends at `e` (not going below `lo`).
pub open spec fn piece_start(p: Seq<char>, sep: char, lo: int, e: int) -> int
    decreases e - lo,
{
    if e <= lo || e > p.len() {
        if e > p.len() { p.len() as int } else { lo }
    } else if is_sep(p[e - 1], sep) {
        e
    } else {
        piece_start(p, sep, lo, e - 1)
    }
}

/// The two dots of a parent component.
pub open spec fn dot_dot() -> Seq<char> {
    seq!['.', '.']
}

/// The final component of `p`, if there is one and it is not `..`.
pub open spec fn file_name(p: Seq<char>, sep: char) -> Option<Seq<char>> {
    let lo = prefix_len(p, sep);
    let e = name_end(p, sep, lo, p.len() as int);
    let s = piece_start(p, sep, lo, e);
    if s >= e {
        None
    } else if p.subrange(s, e) == dot_dot() {
        None
    } else {
        Some(p.subrange(s, e))
    }
}

/// `p` without its final component and the separators before it; `None`
/// when `p` has no final component (it is empty, a root or a prefix).
pub open spec fn parent(p: Seq<char>, sep: char) -> Option<Seq<char>> {
    let lo = prefix_len(p, sep);
    let e = name_end(p, sep, lo, p.len() as int);
    let s = piece_start(p, sep, lo, e);
    let root = if lo < p.len() && is_sep(p[lo], sep) { lo + 1 } else { lo };
    let pe = name_end(p, sep, lo, s);
    if s >= e {
        None
    } else {
        Some(p.take(if pe < root { root } else { pe }))
    }
}

/// Index of the last `.` in `name`, or -1.
pub open spec fn last_dot(name: Seq<char>, e: int) -> int
    decreases e,
{
    if e <= 0 || e > name.len() {
        -1
    } else if name[e - 1] == '.' {
        e - 1
    } else {
        last_dot(name, e - 1)
    }
}

/// The extension of a file name: what follows its last `.`; none when there
/// is no `.`, when the only `.` starts the name, or for `..`.
pub open spec fn extension(name: Seq<char>) -> Option<Seq<char>> {
    let d = last_dot(name, name.len() as int);
    if d <= 0 || name == dot_dot() {
        None
    } else {
        Some(name.skip(d + 1))
    }
}

/// The stem of a file name: what precedes its last `.`, or the whole name
/// when it has no extension.
pub open spec fn file_stem(name: Seq<char>) -> Seq<char> {
    let d = last_dot(name, name.len() as int);
    if d <= 0 || name == dot_dot() {
        name
    } else {
        name.take(d)
    }
}

/// `dir` joined with the relative name `name`.
pub open spec fn join(dir: Seq<char>, name: Seq<char>, sep: char) -> Seq<char> {
    if dir.len() == 0 {
        name
    } else if is_sep(dir.last(), sep) || (prefix_len(dir, sep) == 2 && dir.len() == 2) {
        dir + name
    } else {
        dir.push(sep) + name
    }
}

proof fn lemma_name_end_bounds(p: Seq<char>, sep: char, lo: int, e: int)
    requires
        0 <= lo <= e <= p.len(),
    ensures
        lo <= name_end(p, sep, lo, e) <= e,
    decreases e - lo,
{
    if e > lo {
        if is_sep(p[e - 1], sep) || (p[e - 1] == '.' && (e - 1 == lo || is_sep(p[e - 2], sep))) {
            lemma_name_end_bounds(p, sep, lo, e - 1);
        }
    }
}

proof fn lemma_piece_start_bounds(p: Seq<char>, sep: char, lo: int, e: int)
    requires
        0 <= lo <= e <= p.len(),
    ensures
        lo <= piece_start(p, sep, lo, e) <= e,
    decreases e - lo,
{
    if e > lo && !is_sep(p[e - 1], sep) {
        lemma_piece_start_bounds(p, sep, lo, e - 1);
    }
}

proof fn lemma_last_dot_bounds(name: Seq<char>, e: int)
    requires
        0 <= e <= name.len(),
    ensures
        -1 <= last_dot(name, e) < e,
        last_dot(name, e) >= 0 ==> name[last_dot(name, e)] == '.',
    decreases e,
{
    if e > 0 && name[e - 1] != '.' {
        lemma_last_dot_bounds(name, e - 1);
    }
}

fn prefix_length(p: &Vec<char>, sep: char) -> (r: usize)
    ensures
        r == prefix_len(p@, sep),
{
    if sep == '\\' && p.len() >= 2 && (('a' <= p[0] && p[0] <= 'z') || ('A' <= p[0] && p[0]
        <= 'Z')) && p[1] == ':' {
        2
    } else {
        0
    }
}

fn name_end_exec(p: &Vec<char>, sep: char, lo: usize, e: usize) -> (r: usize)
    requires
        lo <= e <= p@.len(),
    ensures
        r == name_end(p@, sep, lo as int, e as int),
        lo <= r <= e,
{
    let mut k = e;
    while k > lo && (is_separator(p[k - 1], sep) || (p[k - 1] == '.' && (k - 1 == lo
        || is_separator(p[k - 2], sep))))
        invariant
            lo <= k <= e <= p@.len(),
            name_end(p@, sep, lo as int, e as int) == name_end(p@, sep, lo as int, k as int),
        decreases k,
    {
        k = k - 1;
    }
    k
}

fn piece_start_exec(p: &Vec<char>, sep: char, lo: usize, e: usize) -> (r: usize)
    requires
        lo <= e <= p@.len(),
    ensures
        r == piece_start(p@, sep, lo as int, e as int),
        lo <= r <= e,
{
    let mut k = e;
    while k > lo && !is_separator(p[k - 1], sep)
        invariant
            lo <= k <= e <= p@.len(),
            piece_start(p@, sep, lo as int, e as int) == piece_start(p@, sep, lo as int, k as int),
        decreases k,
    {
        k = k - 1;
    }
    k
}

fn last_dot_exec(name: &Vec<char>) -> (r: usize)
    ensures
        r as int == last_dot(name@, name@.len() as int) + 1,
{
    let mut k = name.len();
    while k > 0 && name[k - 1] != '.'
        invariant
            k <= name@.len(),
            last_dot(name@, name@.len() as int) == last_dot(name@, k as int),
        decreases k,
    {
        k = k - 1;
    }
    k
}

fn is_dot_dot(v: &Vec<char>) -> (r: bool)
    ensures
        r == (v@ == dot_dot()),
{
    let r = v.len() == 2 && v[0] == '.' && v[1] == '.';
    proof {
        if v@.len() == 2 && v@[0] == '.' && v@[1] == '.' {
            assert(v@ == dot_dot());
        }
    }
    r
}

fn sub_vec(p: &Vec<char>, s: usize, e: usize) -> (r: Vec<char>)
    requires
        s <= e <= p@.len(),
    ensures
        r@ == p@.subrange(s as int, e as int),
{
    let mut r: Vec<char> = Vec::new();
    let mut k = s;
    while k < e
        invariant
            s <= k <= e <= p@.len(),
            r@ == p@.subrange(s as int, k as int),
        decreases e - k,
    {
        r.push(p[k]);
        proof {
            assert(p@.subrange(s as int, k + 1) == p@.subrange(s as int, k as int).push(p@[k as int]));
        }
        k = k + 1;
    }
    r
}

/// The final component of `p` (see [`file_name`]).
pub fn file_name_of(p: &str, sep: char) -> (r: Option<String>)
    ensures
        match r {
            Some(s) => file_name(p@, sep) == Some(s@),
            None => file_name(p@, sep) is None,
        },
{
    let v = chars_of(p);
    let lo = prefix_length(&v, sep);
    let e = name_end_exec(&v, sep, lo, v.len());
    let s = piece_start_exec(&v, sep, lo, e);
    if s >= e {
        return None;
    }
    let piece = sub_vec(&v, s, e);
    if is_dot_dot(&piece) {
        return None;
    }
    Some(string_from_chars(piece.as_slice()))
}

/// `p` without its final component (see [`parent`]).
pub fn parent_of(p: &str, sep: char) -> (r: Option<String>)
    ensures
        match r {
            Some(s) => parent(p@, sep) == Some(s@),
            None => parent(p@, sep) is None,
        },
{
    let v = chars_of(p);
    let lo = prefix_length(&v, sep);
    let e = name_end_exec(&v, sep, lo, v.len());
    let s = piece_start_exec(&v, sep, lo, e);
    if s >= e {
        return None;
    }
    let root = if lo < v.len() && is_separator(v[lo], sep) {
        lo + 1
    } else {
        lo
    };
    let pe = name_end_exec(&v, sep, lo, s);
    let end = if pe < root {
        root
    } else {
        pe
    };
    let head = sub_vec(&v, 0, end);
    proof {
        assert(v@.subrange(0, end as int) == v@.take(end as int));
    }
    Some(string_from_chars(head.as_slice()))
}

/// The extension of a file name (see [`extension`]).
pub fn extension_of(name: &str) -> (r: Option<String>)
    ensures
        match r {
            Some(s) => extension(name@) == Some(s@),
            None => extension(name@) is None,
        },
{
    let v = chars_of(name);
    let d1 = last_dot_exec(&v);
    if d1 <= 1 || is_dot_dot(&v) {
        return None;
    }
    proof {
        lemma_last_dot_bounds(v@, v@.len() as int);
        assert(v@.subrange(d1 as int, v@.len() as int) == v@.skip(d1 as int));
    }
    let tail = sub_vec(&v, d1, v.len());
    Some(string_from_chars(tail.as_slice()))
}

/// The stem of a file name (see [`file_stem`]).
pub fn stem_of(name: &str) -> (r: String)
    ensures
        r@ == file_stem(name@),
{
    let v = chars_of(name);
    let d1 = last_dot_exec(&v);
    if d1 <= 1 || is_dot_dot(&v) {
        return string_from_chars(v.as_slice());
    }
    proof {
        lemma_last_dot_bounds(v@, v@.len() as int);
        assert(v@.subrange(0, d1 - 1) == v@.take(d1 - 1));
    }
    let head = sub_vec(&v, 0, d1 - 1);
    string_from_chars(head.as_slice())
}

/// `dir` joined with the relative name `name` (see [`join`]).
pub fn join_name(dir: &str, name: &str, sep: char) -> (r: String)
    ensures
        r@ == join(dir@, name@, sep),
{
    let d = chars_of(dir);
    let n = chars_of(name);
    if d.len() == 0 {
        return string_from_chars(n.as_slice());
    }
    let last = d[d.len() - 1];
    let lo = prefix_length(&d, sep);
    let mut r = string_from_chars(d.as_slice());
    if !(is_separator(last, sep) || (lo == 2 && d.len() == 2)) {
        push_char(&mut r, sep);
    }
    push_chars(&mut r, n.as_slice());
    r
}

// ---------------------------------------------------------------------------
// Text typed into the address bar
// ---------------------------------------------------------------------------

/// Every `from` character of `s` replaced by `to`.
pub open spec fn replace_char(s: Seq<char>, from: char, to: char) -> Seq<char> {
    Seq::new(s.len(), |i: int| if s[i] == from { to } else { s[i] })
}

/// A path typed by the user, accepting both `\` and `/`: trimmed, then every
/// separator written the platform's way.
pub open spec fn normalized_input(input: Seq<char>, sep: char) -> Seq<char> {
    let s = text::trim_ws(input);
    if sep == '\\' {
        replace_char(s, '/', '\\')
    } else {
        replace_char(s, '\\', '/')
    }
}

fn replace_chars(s: &[char], from: char, to: char) -> (r: Vec<char>)
    ensures
        r@ == replace_char(s@, from, to),
{
    let mut r: Vec<char> = Vec::new();
    let mut i: usize = 0;
    while i < s.len()
        invariant
            i <= s@.len(),
            r@ == replace_char(s@.take(i as int), from, to),
        decreases s@.len() - i,
    {
        let c = s[i];
        r.push(if c == from { to } else { c });
        proof {
            assert(replace_char(s@.take(i + 1), from, to) == replace_char(s@.take(i as int), from, to).push(
                if s@[i as int] == from { to } else { s@[i as int] },
            ));
        }
        i = i + 1;
    }
    proof {
        assert(s@.take(s@.len() as int) == s@);
    }
    r
}

/// Normalize user input so both `\` and `/` are accepted as separators, for
/// the platform whose main separator is `sep`.
pub fn normalize_input_for(input: &str, sep: char) -> (r: String)
    ensures
        r@ == normalized_input(input@, sep),
{
    let v = chars_of(input);
    let t = text::trim_chars(v.as_slice());
    let n = if sep == '\\' {
        replace_chars(t.as_slice(), '/', '\\')
    } else {
        replace_chars(t.as_slice(), '\\', '/')
    };
    string_from_chars(n.as_slice())
}

// ---------------------------------------------------------------------------
// Long paths on Windows
// ---------------------------------------------------------------------------

/// `\\?\`, the prefix of Win32 long-path ("verbatim") paths.
pub open spec fn verbatim_prefix() -> Seq<char> {
    seq!['\\', '\\', '?', '\\']
}

/// An absolute Windows path not starting with two separators: a drive
/// letter, a colon and a separator.
pub open spec fn windows_drive_absolute(s: Seq<char>) -> bool {
    s.len() >= 3 && is_ascii_letter(s[0]) && s[1] == ':' && is_sep(s[2], '\\')
}

/// The path to hand to Win32 long-path APIs: on Windows, `\\?\` before an
/// absolute drive path that is long (at least 240 bytes) or holds `..`;
/// network (UNC) paths, which start with two backslashes, and paths that
/// already carry a verbatim prefix stay as they are, and so does everything
/// else. Elsewhere the path is unchanged.
pub open spec fn long_path(s: Seq<char>, sep: char) -> Seq<char> {
    if sep != '\\' {
        s
    } else if text::starts_with(s, seq!['\\', '\\']) || text::starts_with(
        s,
        seq!['/', '/', '?', '/'],
    ) {
        s
    } else if windows_drive_absolute(s) && (text::utf8_len(s) >= 240 || text::contains_seq(
        s,
        dot_dot(),
    )) {
        verbatim_prefix() + s
    } else {
        s
    }
}

fn utf8_width_exec(c: char) -> (r: u8)
    ensures
        r == text::utf8_width(c),
{
    let x = text::char_code(c);
    if x < 0x80 {
        1
    } else if x < 0x800 {
        2
    } else if x < 0x10000 {
        3
    } else {
        4
    }
}

/// Whether the UTF-8 length of `v` is at least `limit`.
fn utf8_len_at_least(v: &Vec<char>, limit: u64) -> (r: bool)
    requires
        limit < 0x1_0000,
    ensures
        r == (text::utf8_len(v@) >= limit),
{
    if limit == 0 {
        return true;
    }
    let mut total: u64 = 0;
    let mut i: usize = 0;
    while i < v.len()
        invariant
            i <= v@.len(),
            total == text::utf8_len(v@.take(i as int)),
            total < limit,
            limit < 0x1_0000,
        decreases v@.len() - i,
    {
        let w = utf8_width_exec(v[i]);
        proof {
            assert(v@.take(i + 1).drop_last() == v@.take(i as int));
        }
        total = total + (w as u64);
        if total >= limit {
            proof {
                lemma_utf8_len_prefix(v@, i + 1);
            }
            return true;
        }
        i = i + 1;
    }
    proof {
        assert(v@.take(v@.len() as int) == v@);
    }
    total >= limit
}

proof fn lemma_utf8_len_prefix(s: Seq<char>, k: int)
    requires
        0 <= k <= s.len(),
    ensures
        text::utf8_len(s.take(k)) <= text::utf8_len(s),
    decreases s.len() - k,
{
    if k < s.len() {
        lemma_utf8_len_prefix(s, k + 1);
        assert(s.take(k + 1).drop_last() == s.take(k));
    } else {
        assert(s.take(k) == s);
    }
}

/// Prefix `\\?\` on Windows when the path is long or climbs with `..`, for
/// Win32 long-path APIs (see [`long_path`]). Leaves UNC and already-prefixed
/// paths alone.
/// Elsewhere (separator `/`) the path is returned unchanged.
pub fn long_path_for(path: &str, sep: char) -> (r: String)
    ensures
        r@ == long_path(path@, sep),
{
    let v = chars_of(path);
    if sep != '\\' {
        return string_from_chars(v.as_slice());
    }
    let vp: Vec<char> = vec!['\\', '\\', '?', '\\'];
    let vp2: Vec<char> = vec!['/', '/', '?', '/'];
    let two: Vec<char> = vec!['\\', '\\'];
    proof {
        assert(vp@ == verbatim_prefix());
        assert(vp2@ == seq!['/', '/', '?', '/']);
        assert(two@ == seq!['\\', '\\']);
    }
    if text::starts_with_chars(v.as_slice(), two.as_slice()) || text::starts_with_chars(
        v.as_slice(),
        vp2.as_slice(),
    ) {
        return string_from_chars(v.as_slice());
    }
    let absolute = v.len() >= 3 && (('a' <= v[0] && v[0] <= 'z') || ('A' <= v[0] && v[0] <= 'Z'))
        && v[1] == ':' && is_separator(v[2], '\\');
    let dd: Vec<char> = vec!['.', '.'];
    proof {
        assert(dd@ == dot_dot());
    }
    if absolute && (utf8_len_at_least(&v, 240) || text::contains_chars(v.as_slice(), dd.as_slice())) {
        let mut r = string_from_chars(vp.as_slice());
        push_chars(&mut r, v.as_slice());
        return r;
    }
    string_from_chars(v.as_slice())
}

/// A typed path, once normalised, holds only the platform's own separator:
/// no `/` on Windows, no `\` elsewhere.
pub proof fn normalized_input_has_one_separator(input: Seq<char>, sep: char)
    ensures
        sep == '\\' ==> !normalized_input(input, sep).contains('/'),
        sep != '\\' ==> !normalized_input(input, sep).contains('\\'),
{
    let r = normalized_input(input, sep);
    if sep == '\\' {
        assert forall|i: int| 0 <= i < r.len() implies r[i] != '/' by {}
    } else {
        assert forall|i: int| 0 <= i < r.len() implies r[i] != '\\' by {}
    }
}

/// Handing a path to the long-path form twice changes nothing more than
/// once: what it prefixes starts with the verbatim prefix, which it leaves
/// alone.
pub proof fn long_path_is_idempotent(s: Seq<char>, sep: char)
    ensures
        long_path(long_path(s, sep), sep) == long_path(s, sep),
{
    let r = long_path(s, sep);
    if sep == '\\' && r != s {
        assert(r.take(4) =~= verbatim_prefix());
    }
}

// ---------------------------------------------------------------------------
// Path identity
// ---------------------------------------------------------------------------

/// The component that a run of characters between separators makes: none
/// when it is empty or `.`.
pub open spec fn run_name(w: Seq<char>) -> Seq<Seq<char>> {
    if w.len() == 0 || w == seq!['.'] {
        seq![]
    } else {
        seq![w]
    }
}

/// The named components of `s[i..]`, when `cur` has been read since the
/// last separator: repeated and trailing separators and `.` make none.
pub open spec fn names_from(s: Seq<char>, sep: char, i: int, cur: Seq<char>) -> Seq<Seq<char>>
    decreases s.len() - i,
{
    if i >= s.len() {
        run_name(cur)
    } else if is_sep(s[i], sep) {
        run_name(cur) + names_from(s, sep, i + 1, seq![])
    } else {
        names_from(s, sep, i + 1, cur.push(s[i]))
    }
}

/// The components of `p`: its drive letter (upper-cased), whether a root
/// separator follows it, whether a relative path starts with a `.`
/// component, and its named components. Other Windows prefixes (UNC or
/// verbatim) are read as a root followed by names.
pub open spec fn path_parts(p: Seq<char>, sep: char) -> (Option<char>, bool, bool, Seq<Seq<char>>) {
    let lo = prefix_len(p, sep);
    let drive = if lo == 2 { Some(text::ascii_upper(p[0])) } else { None };
    let rooted = lo < p.len() && is_sep(p[lo], sep);
    let cur_dir = !rooted && lo < p.len() && p[lo] == '.' && (lo + 1 == p.len() || is_sep(
        p[lo + 1],
        sep,
    ));
    (drive, rooted, cur_dir, names_from(p, sep, lo, seq![]))
}

/// `a` and `b` name the same path: they have the same components, so
/// repeated and trailing separators and inner `.` components do not count
/// (`a/b`, `a//b/` and `a/./b` are one path; `./a` is not `a`).
pub open spec fn same_path(a: Seq<char>, b: Seq<char>, sep: char) -> bool {
    path_parts(a, sep) == path_parts(b, sep)
}

/// The character sequences held by a list of character vectors.
pub open spec fn run_views(v: Seq<Vec<char>>) -> Seq<Seq<char>> {
    Seq::new(v.len(), |i: int| v[i]@)
}

/// Appends the component that the run `w` makes, if any.
fn push_run(out: &mut Vec<Vec<char>>, w: Vec<char>)
    ensures
        run_views(final(out)@) == run_views(old(out)@) + run_name(w@),
{
    let ghost before = run_views(out@);
    if w.len() == 0 || (w.len() == 1 && w[0] == '.') {
        proof {
            if w@.len() == 1 {
                assert(w@ =~= seq!['.']);
            }
            assert(before + run_name(w@) =~= before);
        }
    } else {
        proof {
            if w@ == seq!['.'] {
                assert(w@.len() == 1);
            }
        }
        let ghost wv = w@;
        out.push(w);
        proof {
            assert(run_views(out@) =~= before + seq![wv]);
        }
    }
}

/// The named components of `s[start..]` (see [`names_from`]).
fn names_exec(s: &Vec<char>, sep: char, start: usize) -> (r: Vec<Vec<char>>)
    requires
        start <= s@.len(),
    ensures
        run_views(r@) == names_from(s@, sep, start as int, seq![]),
{
    let mut out: Vec<Vec<char>> = Vec::new();
    let mut cur: Vec<char> = Vec::new();
    let mut i: usize = start;
    proof {
        assert(run_views(out@) + names_from(s@, sep, i as int, cur@) =~= names_from(s@, sep, start as int, seq![]));
    }
    while i < s.len()
        invariant
            start <= i <= s@.len(),
            run_views(out@) + names_from(s@, sep, i as int, cur@) == names_from(s@, sep, start as int, seq![]),
        decreases s@.len() - i,
    {
        let ghost od = run_views(out@);
        let ghost oc = cur@;
        if is_separator(s[i], sep) {
            let w = cur;
            push_run(&mut out, w);
            cur = Vec::new();
            proof {
                assert(od + (run_name(oc) + names_from(s@, sep, i + 1, seq![])) =~= run_views(out@)
                    + names_from(s@, sep, i + 1, cur@));
            }
        } else {
            cur.push(s[i]);
        }
        i = i + 1;
    }
    push_run(&mut out, cur);
    out
}

/// Whether two lists of components are equal.
fn names_eq(a: &Vec<Vec<char>>, b: &Vec<Vec<char>>) -> (r: bool)
    ensures
        r == (run_views(a@) == run_views(b@)),
{
    if a.len() != b.len() {
        proof {
            assert(run_views(a@).len() != run_views(b@).len());
        }
        return false;
    }
    let mut k: usize = 0;
    while k < a.len()
        invariant
            k <= a@.len(),
            a@.len() == b@.len(),
            forall|j: int| 0 <= j < k ==> run_views(a@)[j] == run_views(b@)[j],
        decreases a@.len() - k,
    {
        if !text::chars_eq(a[k].as_slice(), b[k].as_slice()) {
            proof {
                assert(run_views(a@)[k as int] != run_views(b@)[k as int]);
            }
            return false;
        }
        k = k + 1;
    }
    proof {
        assert(run_views(a@) =~= run_views(b@));
    }
    true
}

/// The components of `p` (see [`path_parts`]).
fn parts_exec(p: &str, sep: char) -> (r: (Option<char>, bool, bool, Vec<Vec<char>>))
    ensures
        path_parts(p@, sep) == (r.0, r.1, r.2, run_views(r.3@)),
{
    let v = chars_of(p);
    let lo = prefix_length(&v, sep);
    let drive = if lo == 2 {
        Some(text::to_ascii_upper(v[0]))
    } else {
        None
    };
    let rooted = lo < v.len() && is_separator(v[lo], sep);
    let cur_dir = !rooted && lo < v.len() && v[lo] == '.' && (lo + 1 == v.len() || is_separator(
        v[lo + 1],
        sep,
    ));
    let names = names_exec(&v, sep, lo);
    (drive, rooted, cur_dir, names)
}

/// Whether `a` and `b` name the same path (see [`same_path`]).
pub fn same_path_of(a: &str, b: &str, sep: char) -> (r: bool)
    ensures
        r == same_path(a@, b@, sep),
{
    let pa = parts_exec(a, sep);
    let pb = parts_exec(b, sep);
    pa.0 == pb.0 && pa.1 == pb.1 && pa.2 == pb.2 && names_eq(&pa.3, &pb.3)
}


/// The roots offered for quick access: the drives `A:\` to `Z:\` on
/// Windows, else `/`, `/home` and `/tmp` (the caller shows those that exist).
pub open spec fn root_candidates(windows: bool) -> Seq<Seq<char>> {
    if windows {
        Seq::new(26, |i: int| seq![(('A' as int) + i) as char, ':', '\\'])
    } else {
        seq!["/"@, "/home"@, "/tmp"@]
    }
}

/// The roots offered for quick access (see [`root_candidates`]).
pub fn drive_roots(windows: bool) -> (r: Vec<String>)
    ensures
        crate::config::views(r@) == root_candidates(windows),
{
    let mut out: Vec<String> = Vec::new();
    if windows {
        let mut i: u32 = 0;
        while i < 26
            invariant
                i <= 26,
                crate::config::views(out@) == root_candidates(true).take(i as int),
            decreases 26 - i,
        {
            let c = char_from_code(65 + i);
            let v: Vec<char> = vec![c, ':', '\\'];
            let ghost before = out@;
            out.push(string_from_chars(v.as_slice()));
            proof {
                assert(v@ == root_candidates(true)[i as int]);
                assert(crate::config::views(out@) =~= crate::config::views(before).push(v@));
                assert(root_candidates(true).take(i + 1) =~= root_candidates(true).take(i as int).push(
                    v@,
                ));
            }
            i = i + 1;
        }
        proof {
            assert(root_candidates(true).take(26) =~= root_candidates(true));
        }
    } else {
        out.push(crate::text::to_string("/"));
        out.push(crate::text::to_string("/home"));
        out.push(crate::text::to_string("/tmp"));
        proof {
            assert(crate::config::views(out@) =~= root_candidates(false));
        }
    }
    out
}

/// The ASCII capital letter with code `x`.
fn char_from_code(x: u32) -> (c: char)
    requires
        65 <= x < 91,
    ensures
        c as int == x,
{
    (x as u8) as char
}

} // verus!
