//! File operations' decisions: which names are acceptable, where a pasted
//! item goes, and how sizes, times and long texts are shown.

use vstd::prelude::*;
use crate::paths;
use crate::tab::FileEntry;
use crate::text;
use crate::text::{chars_of, push_char, push_chars, push_decimal, push_str, string_from_chars, to_string};

verus! {

/// Whether a clipboard holds copied or cut items.
#[derive(Debug, Clone, Copy, PartialEq, Eq, Structural)]
pub enum ClipboardMode {
    Copy,
    Cut,
}

/// Items waiting to be pasted.
#[derive(Debug, Clone)]
pub struct Clipboard {
    pub paths: Vec<String>,
    pub mode: ClipboardMode,
}

impl Clipboard {
    /// A clipboard holding `paths` in `mode`.
    pub fn new(paths: Vec<String>, mode: ClipboardMode) -> (r: Self)
        ensures
            r.paths@ == paths@,
            r.mode == mode,
    {
        Self { paths, mode }
    }
}

// ---------------------------------------------------------------------------
// Acceptable names
// ---------------------------------------------------------------------------

/// Characters Windows does not allow in a name, and control characters.
pub open spec fn forbidden_char(c: char) -> bool {
    c == '<' || c == '>' || c == ':' || c == '"' || c == '|' || c == '?' || c == '*'
        || text::control_char(c)
}

/// The part of a name before its first `.`.
pub open spec fn first_part(s: Seq<char>) -> Seq<char>
    decreases s.len(),
{
    if s.len() == 0 || s[0] == '.' {
        seq![]
    } else {
        seq![s[0]] + first_part(s.drop_first())
    }
}

/// The first three characters of `s` are `a`, `b`, `c`.
pub open spec fn begins3(s: Seq<char>, a: char, b: char, c: char) -> bool {
    s.len() >= 3 && s[0] == a && s[1] == b && s[2] == c
}

/// A Windows device name (`CON`, `PRN`, `AUX`, `NUL`, `COM1`..`COM9`,
/// `LPT1`..`LPT9`, and `COM`/`LPT` with a superscript 1, 2 or 3), upper case.
pub open spec fn is_reserved_stem(s: Seq<char>) -> bool {
    ||| (s.len() == 3 && (begins3(s, 'C', 'O', 'N') || begins3(s, 'P', 'R', 'N') || begins3(
        s,
        'A',
        'U',
        'X',
    ) || begins3(s, 'N', 'U', 'L')))
    ||| (s.len() == 4 && (begins3(s, 'C', 'O', 'M') || begins3(s, 'L', 'P', 'T')) && (('1' <= s[3]
        && s[3] <= '9') || s[3] == '\u{00B9}' || s[3] == '\u{00B2}' || s[3] == '\u{00B3}'))
}

/// The name a rename or new item may use, or `None` when `name` is refused:
/// it ends with a space or holds a forbidden character; or, trimmed, it is
/// empty, `.` or `..`, holds a separator or NUL, is a device name before its
/// first `.` (ignoring ASCII case), or ends with `.`. Otherwise the trimmed
/// name.
pub open spec fn sanitized(name: Seq<char>) -> Option<Seq<char>> {
    let t = text::trim_ws(name);
    if text::ends_with(name, seq![' ']) || exists|i: int| 0 <= i < name.len() && forbidden_char(#[trigger] name[i]) {
        None
    } else if t.len() == 0 || t == seq!['.'] || t == paths::dot_dot() {
        None
    } else if t.contains('/') || t.contains('\\') || t.contains('\0') {
        None
    } else if is_reserved_stem(text::ascii_upper_seq(first_part(t))) {
        None
    } else if text::ends_with(t, seq!['.']) {
        None
    } else {
        Some(t)
    }
}

fn has_forbidden(v: &Vec<char>) -> (r: bool)
    ensures
        r == exists|i: int| 0 <= i < v@.len() && forbidden_char(#[trigger] v@[i]),
{
    let mut i: usize = 0;
    while i < v.len()
        invariant
            i <= v@.len(),
            forall|k: int| 0 <= k < i ==> !forbidden_char(#[trigger] v@[k]),
        decreases v@.len() - i,
    {
        let c = v[i];
        if c == '<' || c == '>' || c == ':' || c == '"' || c == '|' || c == '?' || c == '*'
            || text::char_is_control(c) {
            proof {
                assert(forbidden_char(v@[i as int]));
            }
            return true;
        }
        i = i + 1;
    }
    false
}

fn has_char(v: &Vec<char>, c: char) -> (r: bool)
    ensures
        r == v@.contains(c),
{
    let mut i: usize = 0;
    while i < v.len()
        invariant
            i <= v@.len(),
            forall|k: int| 0 <= k < i ==> v@[k] != c,
        decreases v@.len() - i,
    {
        if v[i] == c {
            proof {
                assert(v@[i as int] == c);
            }
            return true;
        }
        i = i + 1;
    }
    false
}

proof fn lemma_first_part(s: Seq<char>, k: int)
    requires
        0 <= k <= s.len(),
        forall|i: int| 0 <= i < k ==> s[i] != '.',
        k == s.len() || s[k] == '.',
    ensures
        first_part(s) == s.take(k),
    decreases s.len(),
{
    if k > 0 {
        assert forall|i: int| 0 <= i < k - 1 implies s.drop_first()[i] != '.' by {
            assert(s.drop_first()[i] == s[i + 1]);
        }
        if k < s.len() {
            assert(s.drop_first()[k - 1] == s[k]);
        }
        lemma_first_part(s.drop_first(), k - 1);
        assert(seq![s[0]] + s.drop_first().take(k - 1) == s.take(k));
    } else {
        assert(s.take(0) == Seq::<char>::empty());
    }
}

fn reserved_stem(s: &Vec<char>) -> (r: bool)
    ensures
        r == is_reserved_stem(s@),
{
    let n = s.len();
    let r = if n == 3 {
        (s[0] == 'C' && s[1] == 'O' && s[2] == 'N') || (s[0] == 'P' && s[1] == 'R' && s[2] == 'N')
            || (s[0] == 'A' && s[1] == 'U' && s[2] == 'X') || (s[0] == 'N' && s[1] == 'U' && s[2]
            == 'L')
    } else if n == 4 {
        ((s[0] == 'C' && s[1] == 'O' && s[2] == 'M') || (s[0] == 'L' && s[1] == 'P' && s[2]
            == 'T')) && (('1' <= s[3] && s[3] <= '9') || s[3] == '\u{00B9}' || s[3] == '\u{00B2}'
            || s[3] == '\u{00B3}')
    } else {
        false
    };
    r
}

/// Sanitize a user-supplied rename target: reject path separators, `..`,
/// and Windows reserved names (see [`sanitized`]). A trimmed name without
/// separators that is neither `.` nor `..` is always a single path
/// component, so that needs no further check.
pub fn sanitize_filename(name: &str) -> (r: Option<String>)
    ensures
        match r {
            Some(s) => sanitized(name@) == Some(s@),
            None => sanitized(name@) is None,
        },
{
    let v = chars_of(name);
    let space: Vec<char> = vec![' '];
    proof {
        assert(space@ == seq![' ']);
    }
    if text::ends_with_chars(v.as_slice(), space.as_slice()) || has_forbidden(&v) {
        return None;
    }
    let t = text::trim_chars(v.as_slice());
    let is_dot = t.len() == 1 && t[0] == '.';
    let is_dots = t.len() == 2 && t[0] == '.' && t[1] == '.';
    proof {
        if t@.len() == 1 && t@[0] == '.' {
            assert(t@ == seq!['.']);
        }
        if t@.len() == 2 && t@[0] == '.' && t@[1] == '.' {
            assert(t@ == paths::dot_dot());
        }
    }
    if t.len() == 0 || is_dot || is_dots {
        return None;
    }
    if has_char(&t, '/') || has_char(&t, '\\') || has_char(&t, '\0') {
        return None;
    }
    let mut k: usize = 0;
    while k < t.len() && t[k] != '.'
        invariant
            k <= t@.len(),
            forall|i: int| 0 <= i < k ==> t@[i] != '.',
        decreases t@.len() - k,
    {
        k = k + 1;
    }
    let mut head: Vec<char> = Vec::new();
    let mut i: usize = 0;
    while i < k
        invariant
            i <= k <= t@.len(),
            head@ == t@.take(i as int),
        decreases k - i,
    {
        head.push(t[i]);
        proof {
            assert(t@.take(i + 1) == t@.take(i as int).push(t@[i as int]));
        }
        i = i + 1;
    }
    proof {
        lemma_first_part(t@, k as int);
    }
    let stem = text::ascii_upper_chars(head.as_slice());
    if reserved_stem(&stem) {
        return None;
    }
    let dot: Vec<char> = vec!['.'];
    proof {
        assert(dot@ == seq!['.']);
    }
    if text::ends_with_chars(t.as_slice(), dot.as_slice()) {
        return None;
    }
    Some(string_from_chars(t.as_slice()))
}

/// A name that [`sanitize_filename`] accepts is a plain name: not empty,
/// neither `.` nor `..`, without separators, NUL, forbidden characters or a
/// trailing `.`, without white space at either end, and the input with only
/// its outer white space taken off.
pub proof fn accepted_names_are_plain(name: Seq<char>)
    ensures
        sanitized(name) matches Some(t) ==> {
            &&& t.len() > 0
            &&& t != seq!['.']
            &&& t != paths::dot_dot()
            &&& !t.contains('/') && !t.contains('\\') && !t.contains('\0')
            &&& forall|i: int| 0 <= i < t.len() ==> !forbidden_char(#[trigger] t[i])
            &&& !text::ends_with(t, seq!['.'])
            &&& !text::white_space(t[0]) && !text::white_space(t.last())
            &&& t == text::trim_ws(name)
        },
{
    if sanitized(name) is Some {
        let t = text::trim_ws(name);
        let a = text::first_non_ws(name, 0);
        text::lemma_first_non_ws_bounds(name, 0);
        let b = text::end_non_ws(name, name.len() as int, a);
        text::lemma_end_non_ws_bounds(name, name.len() as int, a);
        assert forall|i: int| 0 <= i < t.len() implies !forbidden_char(#[trigger] t[i]) by {
            assert(t[i] == name[a + i]);
        }
        lemma_trim_ends(name);
    }
}

/// Sanitizing an accepted name again gives it back unchanged.
pub proof fn sanitize_is_idempotent(name: Seq<char>)
    ensures
        sanitized(name) matches Some(t) ==> sanitized(t) == Some(t),
{
    if sanitized(name) is Some {
        let t = sanitized(name)->0;
        accepted_names_are_plain(name);
        lemma_trim_plain(t);
        if text::ends_with(t, seq![' ']) {
            assert(t.skip(t.len() - 1)[0] == t.last());
            assert(text::white_space(' '));
        }
    }
}

/// A text with no white space at either end is its own trim.
proof fn lemma_trim_plain(t: Seq<char>)
    requires
        t.len() > 0,
        !text::white_space(t[0]),
        !text::white_space(t.last()),
    ensures
        text::trim_ws(t) == t,
{
    assert(text::first_non_ws(t, 0) == 0);
    assert(text::end_non_ws(t, t.len() as int, 0) == t.len());
    assert(t.subrange(0, t.len() as int) == t);
}

proof fn lemma_first_non_ws_stop(s: Seq<char>, i: int)
    requires
        0 <= i <= s.len(),
    ensures
        text::first_non_ws(s, i) < s.len() ==> !text::white_space(s[text::first_non_ws(s, i)]),
    decreases s.len() - i,
{
    if i < s.len() && text::white_space(s[i]) {
        lemma_first_non_ws_stop(s, i + 1);
    }
}

proof fn lemma_end_non_ws_stop(s: Seq<char>, j: int, lo: int)
    requires
        0 <= lo <= j <= s.len(),
    ensures
        text::end_non_ws(s, j, lo) > lo ==> !text::white_space(s[text::end_non_ws(s, j, lo) - 1]),
    decreases j - lo,
{
    if j > lo && text::white_space(s[j - 1]) {
        lemma_end_non_ws_stop(s, j - 1, lo);
    }
}

proof fn lemma_trim_ends(s: Seq<char>)
    ensures
        text::trim_ws(s).len() > 0 ==> !text::white_space(text::trim_ws(s)[0]) && !text::white_space(
            text::trim_ws(s).last(),
        ),
{
    let a = text::first_non_ws(s, 0);
    text::lemma_first_non_ws_bounds(s, 0);
    let b = text::end_non_ws(s, s.len() as int, a);
    text::lemma_end_non_ws_bounds(s, s.len() as int, a);
    lemma_first_non_ws_stop(s, 0);
    lemma_end_non_ws_stop(s, s.len() as int, a);
    let t = text::trim_ws(s);
    if t.len() > 0 {
        assert(t[0] == s[a]);
        assert(t.last() == s[b - 1]);
    }
}

/// Normalize user input so both `\` and `/` are accepted as separators.
pub fn normalize_path_input(input: &str) -> (r: String)
    ensures
        r@ == paths::normalized_input(input@, '/') || r@ == paths::normalized_input(input@, '\\'),
{
    crate::shell::normalize_path_input(input)
}

// ---------------------------------------------------------------------------
// Sizes and long texts
// ---------------------------------------------------------------------------

/// Total size of the rows that are files (directories count as 0).
pub open spec fn files_size(es: Seq<FileEntry>) -> nat
    decreases es.len(),
{
    if es.len() == 0 {
        0
    } else {
        files_size(es.drop_last()) + if es.last().is_dir {
            0
        } else {
            es.last().size as nat
        }
    }
}

proof fn lemma_files_size_prefix(es: Seq<FileEntry>, k: int)
    requires
        0 <= k <= es.len(),
    ensures
        files_size(es.take(k)) <= files_size(es),
    decreases es.len() - k,
{
    if k < es.len() {
        lemma_files_size_prefix(es, k + 1);
        assert(es.take(k + 1).drop_last() == es.take(k));
    } else {
        assert(es.take(k) == es);
    }
}

/// Sum sizes of selected file entries (directories count as 0).
pub fn selected_total_size(entries: &[FileEntry]) -> (r: u64)
    requires
        files_size(entries@) <= u64::MAX,
    ensures
        r == files_size(entries@),
{
    let mut total: u64 = 0;
    let mut i: usize = 0;
    while i < entries.len()
        invariant
            i <= entries@.len(),
            total == files_size(entries@.take(i as int)),
            files_size(entries@) <= u64::MAX,
        decreases entries@.len() - i,
    {
        proof {
            assert(entries@.take(i + 1).drop_last() == entries@.take(i as int));
            lemma_files_size_prefix(entries@, i + 1);
        }
        if !entries[i].is_dir {
            total = total + entries[i].size;
        }
        i = i + 1;
    }
    proof {
        assert(entries@.take(entries@.len() as int) == entries@);
    }
    total
}

/// The note appended to a cut text: `…`, a blank line and
/// `({max_chars}文字で切り捨て)`.
pub open spec fn cut_note(max_chars: nat) -> Seq<char> {
    seq!['…', '\n', '\n', '('] + text::decimal(max_chars) + seq!['文', '字', 'で', '切', 'り', '捨', 'て', ')']
}

/// `s` when it has at most `max_chars` characters; otherwise its first
/// `max_chars` characters followed by [`cut_note`].
pub open spec fn truncated(s: Seq<char>, max_chars: nat) -> Seq<char> {
    if s.len() <= max_chars {
        s
    } else {
        s.take(max_chars as int) + cut_note(max_chars)
    }
}

/// Truncate a string by Unicode scalar values (safe for multi-byte UTF-8).
pub fn truncate_chars(s: &str, max_chars: usize) -> (r: String)
    ensures
        r@ == truncated(s@, max_chars as nat),
{
    let v = chars_of(s);
    if v.len() <= max_chars {
        return string_from_chars(v.as_slice());
    }
    let mut head: Vec<char> = Vec::new();
    let mut i: usize = 0;
    while i < max_chars
        invariant
            i <= max_chars < v@.len(),
            head@ == v@.take(i as int),
        decreases max_chars - i,
    {
        head.push(v[i]);
        proof {
            assert(v@.take(i + 1) == v@.take(i as int).push(v@[i as int]));
        }
        i = i + 1;
    }
    let mut r = string_from_chars(head.as_slice());
    let open: Vec<char> = vec!['…', '\n', '\n', '('];
    let close: Vec<char> = vec!['文', '字', 'で', '切', 'り', '捨', 'て', ')'];
    push_chars(&mut r, open.as_slice());
    push_decimal(&mut r, max_chars as u64);
    push_chars(&mut r, close.as_slice());
    proof {
        assert(open@ == seq!['…', '\n', '\n', '(']);
        assert(close@ == seq!['文', '字', 'で', '切', 'り', '捨', 'て', ')']);
        assert(r@ =~= v@.take(max_chars as int) + cut_note(max_chars as nat));
    }
    r
}

/// Truncation keeps whole characters: the result starts with the first
/// `max_chars` characters of the text (all of it when shorter), and a text
/// that fits comes back unchanged.
pub proof fn truncation_keeps_leading_chars(s: Seq<char>, max_chars: nat)
    ensures
        text::starts_with(truncated(s, max_chars), s.take(if s.len() <= max_chars {
            s.len() as int
        } else {
            max_chars as int
        })),
        s.len() <= max_chars ==> truncated(s, max_chars) == s,
{
    let k = if s.len() <= max_chars {
        s.len() as int
    } else {
        max_chars as int
    };
    let r = truncated(s, max_chars);
    assert(r.take(k) =~= s.take(k));
}

// ---------------------------------------------------------------------------
// Sizes for people
// ---------------------------------------------------------------------------

/// 2^53: every natural number below it is exactly an `f64`.
pub open spec fn exact_limit() -> nat {
    0x20_0000_0000_0000
}

/// The power of two that brings `n` below [`exact_limit`] when `n` is
/// divided by it, i.e. the spacing of `f64` values around `n`: 1 below the
/// limit, doubled for each halving above it.
pub open spec fn scale(n: nat) -> nat
    decreases n,
{
    if n < exact_limit() {
        1
    } else {
        2 * scale(n / 2)
    }
}

/// `a / d` rounded to the nearest integer, ties to the even one.
pub open spec fn round_half_even(a: nat, d: nat) -> nat {
    let q = a / d;
    let r = a % d;
    if 2 * r > d || (2 * r == d && q % 2 == 1) {
        q + 1
    } else {
        q
    }
}

/// The value of `n as f64`, which rounds to the nearest `f64`, ties to
/// even: `n` itself below 2^53, else the nearest multiple of [`scale`].
pub open spec fn f64_value(n: nat) -> nat {
    if n < exact_limit() {
        n
    } else {
        round_half_even(n, scale(n)) * scale(n)
    }
}

/// `1024` to the power `i`.
pub open spec fn pow1024(i: nat) -> nat
    decreases i,
{
    if i == 0 {
        1
    } else {
        1024 * pow1024((i - 1) as nat)
    }
}

/// The unit a size is shown in: the largest `i` up to 4 (terabytes) with
/// `1024^i <= n`.
pub open spec fn size_unit(n: nat) -> nat {
    if n >= pow1024(4) {
        4
    } else if n >= pow1024(3) {
        3
    } else if n >= pow1024(2) {
        2
    } else if n >= pow1024(1) {
        1
    } else {
        0
    }
}

/// The name of unit `i`.
pub open spec fn unit_name(i: nat) -> Seq<char> {
    if i == 0 {
        "B"@
    } else if i == 1 {
        "KB"@
    } else if i == 2 {
        "MB"@
    } else if i == 3 {
        "GB"@
    } else {
        "TB"@
    }
}

/// The shown number of a size of `n` bytes in tenths of its unit: the
/// `f64` value of `n` divided by `1024^i`, to one decimal, ties to even.
pub open spec fn size_tenths(n: nat) -> nat {
    round_half_even(f64_value(n) * 10, pow1024(size_unit(n)))
}

/// A size for people: `{n} B` below 1 KB, else the number in its unit with
/// one decimal, a space and the unit (`KB`, `MB`, `GB` or `TB`).
pub open spec fn size_text(n: nat) -> Seq<char> {
    let i = size_unit(n);
    if i == 0 {
        text::decimal(n) + " B"@
    } else {
        let t = size_tenths(n);
        text::decimal(t / 10) + seq!['.', text::decimal_char(t % 10), ' '] + unit_name(i)
    }
}

fn round_half_even_exec(a: u128, d: u128) -> (r: u128)
    requires
        0 < d <= 0x1_0000_0000_0000_0000,
        a < 0x1_0000_0000_0000_0000_0000_0000_0000,
    ensures
        r == round_half_even(a as nat, d as nat),
{
    let q = a / d;
    let r = a % d;
    if 2 * r > d || (2 * r == d && q % 2 == 1) {
        q + 1
    } else {
        q
    }
}

/// The value of `n as f64`, as an integer (see [`f64_value`]).
fn f64_value_of(n: u64) -> (f: u128)
    ensures
        f == f64_value(n as nat),
        f < 0x1_0000_0000_0000_0000_0000_0000,
{
    if n < 0x20_0000_0000_0000 {
        return n as u128;
    }
    let mut m: u64 = n;
    let mut u: u64 = 1;
    while m >= 0x20_0000_0000_0000
        invariant
            u >= 1,
            m >= 1,
            m as int == n as int / u as int,
            u * m <= n,
            u <= 0x1000,
            scale(n as nat) == u * scale(m as nat),
        decreases m,
    {
        proof {
            vstd::arithmetic::div_mod::lemma_div_denominator(n as int, u as int, 2);
            let sm = scale((m / 2) as nat);
            assert(scale(m as nat) == 2 * sm);
            assert(u * (2 * sm) == (u * 2) * sm) by (nonlinear_arith);
            assert((u * 2) * (m / 2) <= u * m) by (nonlinear_arith)
                requires m >= 1;
            assert(u <= 0x800) by (nonlinear_arith)
                requires u * m <= n, m >= 0x20_0000_0000_0000, n <= 0xffff_ffff_ffff_ffff;
        }
        m = m / 2;
        u = u * 2;
    }
    proof {
        assert(scale(m as nat) == 1);
        assert(n as int / u as int == m);
    }
    let q = n / u;
    let r = n % u;
    assert(q == m);
    let q2: u64 = if 2 * (r as u128) > u as u128 || (2 * (r as u128) == u as u128 && q % 2 == 1) {
        q + 1
    } else {
        q
    };
    proof {
        assert(u * scale(m as nat) == u * 1);
        assert(u as nat == scale(n as nat));
        assert(q2 as nat == round_half_even(n as nat, u as nat));
        assert((q2 as int) * (u as int) < 0x1_0000_0000_0000_0000_0000_0000) by (nonlinear_arith)
            requires q2 <= 0x20_0000_0000_0000, u <= 0x1000;
    }
    (q2 as u128) * (u as u128)
}

proof fn lemma_pow1024_values()
    ensures
        pow1024(0) == 1,
        pow1024(1) == 1024,
        pow1024(2) == 1_048_576,
        pow1024(3) == 1_073_741_824,
        pow1024(4) == 1_099_511_627_776,
{
    reveal_with_fuel(pow1024, 5);
}

/// Human-readable size: `{n} B` below 1 KB, else one decimal in KB, MB, GB
/// or TB (see [`size_text`]).
pub fn humansize(n: u64) -> (r: String)
    ensures
        r@ == size_text(n as nat),
{
    proof {
        lemma_pow1024_values();
    }
    let (i, d): (u64, u128) = if n >= 1_099_511_627_776 {
        (4, 1_099_511_627_776)
    } else if n >= 1_073_741_824 {
        (3, 1_073_741_824)
    } else if n >= 1_048_576 {
        (2, 1_048_576)
    } else if n >= 1024 {
        (1, 1024)
    } else {
        (0, 1)
    };
    if i == 0 {
        let mut s = text::decimal_string(n);
        push_str(&mut s, " B");
        return s;
    }
    let f = f64_value_of(n);
    let t = round_half_even_exec(f * 10, d);
    let mut s = String::new();
    text::push_decimal_wide(&mut s, t / 10);
    push_char(&mut s, '.');
    push_char(&mut s, text::digit_char((t % 10) as u64));
    push_char(&mut s, ' ');
    let unit = if i == 1 {
        "KB"
    } else if i == 2 {
        "MB"
    } else if i == 3 {
        "GB"
    } else {
        "TB"
    };
    push_str(&mut s, unit);
    proof {
        assert(s@ =~= text::decimal((t / 10) as nat) + seq!['.', text::decimal_char((t % 10) as nat), ' ']
            + unit_name(i as nat));
    }
    s
}

/// The free-space line of a drive: `空き {free} / 全体 {total}`, both as
/// [`size_text`].
pub open spec fn free_space_line(free: nat, total: nat) -> Seq<char> {
    "空き "@ + size_text(free) + " / 全体 "@ + size_text(total)
}

/// The free-space line of a drive with `free` of `total` bytes free (see
/// [`free_space_line`]); the sizes are asked of the system by the caller.
pub fn free_space_text(free: u64, total: u64) -> (r: String)
    ensures
        r@ == free_space_line(free as nat, total as nat),
{
    let mut s = to_string("空き ");
    let f = humansize(free);
    push_str(&mut s, f.as_str());
    push_str(&mut s, " / 全体 ");
    let t = humansize(total);
    push_str(&mut s, t.as_str());
    s
}

/// The failures of moving items to the trash, each `{path}: {error}`,
/// joined by `, `.
pub open spec fn joined(items: Seq<Seq<char>>) -> Seq<char>
    decreases items.len(),
{
    if items.len() == 0 {
        seq![]
    } else if items.len() == 1 {
        items[0]
    } else {
        joined(items.drop_last()) + ", "@ + items.last()
    }
}

/// The error of moving items to the trash: none when nothing failed, else
/// a note that the trash may be off (suggesting Shift+Del) and the joined
/// failures.
pub open spec fn trash_error(failures: Seq<Seq<char>>) -> Option<Seq<char>> {
    if failures.len() == 0 {
        None
    } else {
        Some(
            "ごみ箱へ移動できませんでした（ごみ箱が無効/利用不可の可能性。Shift+Delで完全削除を試してください）: "@ + joined(
                failures,
            ),
        )
    }
}

/// The error of moving items to the trash, given the failures of the
/// items (see [`trash_error`]).
pub fn trash_error_message(failures: &[String]) -> (r: Option<String>)
    ensures
        match r {
            Some(m) => trash_error(crate::config::views(failures@)) == Some(m@),
            None => trash_error(crate::config::views(failures@)) is None,
        },
{
    let ghost fv = crate::config::views(failures@);
    if failures.len() == 0 {
        return None;
    }
    let mut list = String::new();
    let mut i: usize = 0;
    while i < failures.len()
        invariant
            i <= failures@.len(),
            fv == crate::config::views(failures@),
            list@ == joined(fv.take(i as int)),
        decreases failures@.len() - i,
    {
        proof {
            assert(fv.take(i + 1).drop_last() =~= fv.take(i as int));
            assert(fv.take(i + 1).last() == failures@[i as int]@);
        }
        if i > 0 {
            push_str(&mut list, ", ");
        } else {
            proof {
                assert(fv.take(1)[0] == failures@[0]@);
                assert(list@ + failures@[0]@ =~= failures@[0]@);
            }
        }
        push_str(&mut list, failures[i].as_str());
        i = i + 1;
    }
    proof {
        assert(fv.take(failures@.len() as int) =~= fv);
    }
    let mut m = to_string(
        "ごみ箱へ移動できませんでした（ごみ箱が無効/利用不可の可能性。Shift+Delで完全削除を試してください）: ",
    );
    push_str(&mut m, list.as_str());
    Some(m)
}

// ---------------------------------------------------------------------------
// Where pasted items go
// ---------------------------------------------------------------------------

/// Calls `Path::exists` (through `Path::new`): whether something is at `p`
/// on disk right now. Nothing is stated of the answer, which depends on the
/// file system.
#[verifier::external_body]
fn path_exists(p: &str) -> bool {
    std::path::Path::new(p).exists()
}

/// `std::time::SystemTime`, a reading of the system clock; opaque here.
#[verifier::external_type_specification]
#[verifier::external_body]
pub struct ExSystemTime(std::time::SystemTime);

/// Calls `SystemTime::now`. Nothing is stated of the value, which is the
/// time.
#[verifier::external_body]
fn system_now() -> std::time::SystemTime {
    std::time::SystemTime::now()
}

/// Calls `SystemTime::duration_since` with `UNIX_EPOCH`: the time passed
/// since the Unix epoch, `None` for a time before it. Nothing more is
/// stated of the value.
#[verifier::external_body]
fn since_unix_epoch(t: &std::time::SystemTime) -> Option<std::time::Duration> {
    t.duration_since(std::time::UNIX_EPOCH).ok()
}

/// Calls `Duration::as_nanos`. Durations are opaque here, so nothing is
/// stated of the number.
#[verifier::external_body]
fn duration_nanos(d: &std::time::Duration) -> u128 {
    d.as_nanos()
}

/// Nanoseconds since the Unix epoch, truncated to 64 bits, or 0 when the
/// clock is before the epoch; where the paste candidates tried after the
/// first thousand start.
fn uuid_like() -> u64 {
    let now = system_now();
    match since_unix_epoch(&now) {
        Some(d) => {
            let n = duration_nanos(&d);
            (n % 0x1_0000_0000_0000_0000) as u64
        },
        None => 0,
    }
}

/// The " - コピー (" between a copy's stem and its number.
pub open spec fn copy_marker() -> Seq<char> {
    seq![' ', '-', ' ', 'コ', 'ピ', 'ー', ' ', '(']
}

/// The stem used for numbered copies of `src`: its file stem, or `file`.
pub open spec fn copy_stem(src: Seq<char>, sep: char) -> Seq<char> {
    match paths::file_name(src, sep) {
        Some(n) => paths::file_stem(n),
        None => seq!['f', 'i', 'l', 'e'],
    }
}

/// The suffix used for numbered copies of `src`: `.` and its extension, or nothing.
pub open spec fn copy_ext(src: Seq<char>, sep: char) -> Seq<char> {
    match paths::file_name(src, sep) {
        Some(n) => match paths::extension(n) {
            Some(x) => seq!['.'] + x,
            None => seq![],
        },
        None => seq![],
    }
}

/// Candidate destination number `counter` for pasting `src` into
/// `dest_dir`: the file name itself for 0, else
/// `{stem} - コピー ({counter}){ext}`.
pub open spec fn dest_candidate(dest_dir: Seq<char>, src: Seq<char>, counter: nat, sep: char) -> Seq<char> {
    if counter == 0 {
        paths::join(
            dest_dir,
            match paths::file_name(src, sep) {
                Some(n) => n,
                None => seq![],
            },
            sep,
        )
    } else {
        paths::join(
            dest_dir,
            copy_stem(src, sep) + copy_marker() + text::decimal(counter) + seq![')'] + copy_ext(src, sep),
            sep,
        )
    }
}

/// Destination candidate `counter` for pasting `src` into `dest_dir` (see
/// [`dest_candidate`]).
pub fn unique_dest_candidate(dest_dir: &str, src: &str, counter: u64, sep: char) -> (r: String)
    ensures
        r@ == dest_candidate(dest_dir@, src@, counter as nat, sep),
{
    let name = paths::file_name_of(src, sep);
    if counter == 0 {
        let n = match name {
            Some(n) => n,
            None => String::new(),
        };
        return paths::join_name(dest_dir, n.as_str(), sep);
    }
    let (stem, ext) = match name {
        Some(n) => {
            let st = paths::stem_of(n.as_str());
            let ex = match paths::extension_of(n.as_str()) {
                Some(x) => {
                    let mut e = String::new();
                    push_char(&mut e, '.');
                    push_str(&mut e, x.as_str());
                    proof {
                        assert(Seq::<char>::empty().push('.') + x@ == seq!['.'] + x@);
                    }
                    e
                },
                None => String::new(),
            };
            (st, ex)
        },
        None => {
            let v: Vec<char> = vec!['f', 'i', 'l', 'e'];
            proof {
                assert(v@ == seq!['f', 'i', 'l', 'e']);
            }
            (string_from_chars(v.as_slice()), String::new())
        },
    };
    let mut leaf = stem;
    let marker: Vec<char> = vec![' ', '-', ' ', 'コ', 'ピ', 'ー', ' ', '('];
    proof {
        assert(marker@ == copy_marker());
    }
    push_chars(&mut leaf, marker.as_slice());
    push_decimal(&mut leaf, counter);
    push_char(&mut leaf, ')');
    push_str(&mut leaf, ext.as_str());
    proof {
        assert(leaf@ =~= copy_stem(src@, sep) + copy_marker() + text::decimal(counter as nat) + seq![')']
            + copy_ext(src@, sep));
    }
    paths::join_name(dest_dir, leaf.as_str(), sep)
}

/// The first index from `i` on at which `taken` is not `true`: an index
/// past its end counts as not taken.
pub open spec fn first_free_from(taken: Seq<bool>, i: int) -> int
    decreases taken.len() - i,
{
    if i >= taken.len() || !taken[i] {
        i
    } else {
        first_free_from(taken, i + 1)
    }
}

/// The number of the `i`-th destination candidate tried: 0 to 999 first,
/// then `clock`, `clock + 1`, and so on.
pub open spec fn tried_number(i: int, clock: u64) -> int {
    if i < 1000 {
        i
    } else {
        clock + (i - 1000)
    }
}

/// Where a paste of `src` into `dest_dir` goes, when `taken[i]` tells
/// whether something is at the `i`-th candidate tried (see
/// [`tried_number`] and [`dest_candidate`]): the first one not taken.
pub open spec fn dest_choice(dest_dir: Seq<char>, src: Seq<char>, sep: char, taken: Seq<bool>, clock: u64) -> Seq<
    char,
> {
    dest_candidate(dest_dir, src, tried_number(first_free_from(taken, 0), clock) as nat, sep)
}

proof fn lemma_first_free_steps(taken: Seq<bool>, i: int)
    requires
        0 <= i <= taken.len(),
        forall|j: int| 0 <= j < i ==> #[trigger] taken[j],
    ensures
        first_free_from(taken, 0) == first_free_from(taken, i),
    decreases i,
{
    if i > 0 {
        lemma_first_free_steps(taken, i - 1);
    }
}

/// The first index not taken (see [`first_free_from`]), at most `limit`.
fn first_free_below(taken: &[bool], limit: usize) -> (k: usize)
    ensures
        k as int == if first_free_from(taken@, 0) < limit { first_free_from(taken@, 0) } else { limit as int },
{
    let mut k: usize = 0;
    while k < limit && k < taken.len() && taken[k]
        invariant
            k <= limit,
            k <= taken@.len(),
            forall|j: int| 0 <= j < k ==> #[trigger] taken@[j],
        decreases limit - k,
    {
        k = k + 1;
    }
    proof {
        lemma_first_free_steps(taken@, k as int);
        lemma_first_free_bounds(taken@, k as int);
    }
    k
}

proof fn lemma_first_free_bounds(taken: Seq<bool>, i: int)
    requires
        0 <= i <= taken.len(),
    ensures
        i <= first_free_from(taken, i) <= taken.len(),
    decreases taken.len() - i,
{
    if i < taken.len() && taken[i] {
        lemma_first_free_bounds(taken, i + 1);
    }
}

/// Where a paste goes, given what is at the candidates tried (see
/// [`dest_choice`]).
pub fn pick_dest(dest_dir: &str, src: &str, sep: char, taken: &[bool], clock: u64) -> (r: String)
    requires
        taken@.len() <= 1000 + (u64::MAX - clock),
    ensures
        r@ == dest_choice(dest_dir@, src@, sep, taken@, clock),
{
    let k = first_free_below(taken, taken.len());
    proof {
        lemma_first_free_bounds(taken@, 0);
    }
    if k < 1000 {
        unique_dest_candidate(dest_dir, src, k as u64, sep)
    } else {
        unique_dest_candidate(dest_dir, src, clock + (k as u64 - 1000), sep)
    }
}

/// Unique destination path that does not overwrite existing files, on the
/// platform whose main separator is `sep`: asks the disk about candidates 0
/// to 999 in turn (see [`dest_candidate`]), then about the candidates
/// numbered by the clock and upwards, until one is free, and takes it (see
/// [`dest_choice`]); only when every number up to the largest is taken does
/// it take that last one unasked. What the disk answers is not stated, so
/// the result is stated for the answers it gave, whatever they were.
pub fn unique_dest_for(dest_dir: &str, src: &str, sep: char) -> (r: String)
    ensures
        exists|taken: Seq<bool>, clock: u64|
            taken.len() <= 1000 + (u64::MAX - clock) && r@ == #[trigger] dest_choice(dest_dir@, src@, sep, taken, clock),
{
    let mut taken: Vec<bool> = Vec::new();
    let mut counter: u64 = 0;
    while counter <= 999
        invariant
            counter <= 1000,
            taken@.len() == counter,
        decreases 1000 - counter,
    {
        let dst = unique_dest_candidate(dest_dir, src, counter, sep);
        if !path_exists(dst.as_str()) {
            taken.push(false);
            return pick_dest(dest_dir, src, sep, taken.as_slice(), 0);
        }
        taken.push(true);
        counter = counter + 1;
    }
    let clock = uuid_like();
    let mut number: u64 = clock;
    while number < u64::MAX
        invariant
            clock <= number,
            taken@.len() == 1000 + (number - clock),
        decreases u64::MAX - number,
    {
        let dst = unique_dest_candidate(dest_dir, src, number, sep);
        if !path_exists(dst.as_str()) {
            taken.push(false);
            return pick_dest(dest_dir, src, sep, taken.as_slice(), clock);
        }
        taken.push(true);
        number = number + 1;
    }
    pick_dest(dest_dir, src, sep, taken.as_slice(), clock)
}

/// Unique destination path for pasting `src` into `dest_dir` on this
/// platform (see [`unique_dest_for`]).
pub fn unique_dest(dest_dir: &str, src: &str) -> (r: String)
    ensures
        exists|taken: Seq<bool>, clock: u64|
            taken.len() <= 1000 + (u64::MAX - clock) && (r@ == #[trigger] dest_choice(dest_dir@, src@, '/', taken, clock)
                || r@ == dest_choice(dest_dir@, src@, '\\', taken, clock)),
{
    let sep = paths::main_separator();
    let r = unique_dest_for(dest_dir, src, sep);
    proof {
        let (taken, clock) = choose|taken: Seq<bool>, clock: u64|
            taken.len() <= 1000 + (u64::MAX - clock) && r@ == #[trigger] dest_choice(dest_dir@, src@, sep, taken, clock);
        assert(r@ == dest_choice(dest_dir@, src@, '/', taken, clock) || r@ == dest_choice(
            dest_dir@,
            src@,
            '\\',
            taken,
            clock,
        ));
    }
    r
}

/// The name of new text file number `k`: `新しいテキスト ドキュメント.txt` for
/// 0, else `新しいテキスト ドキュメント ({k}).txt`.
pub open spec fn new_text_name(k: nat) -> Seq<char> {
    if k == 0 {
        "新しいテキスト ドキュメント.txt"@
    } else {
        "新しいテキスト ドキュメント ("@ + text::decimal(k) + ").txt"@
    }
}

/// Path of new text file candidate `k` in `dir` (see [`new_text_name`]).
pub fn new_text_file_candidate(dir: &str, k: u64, sep: char) -> (r: String)
    ensures
        r@ == paths::join(dir@, new_text_name(k as nat), sep),
{
    let name = if k == 0 {
        to_string("新しいテキスト ドキュメント.txt")
    } else {
        let mut n = to_string("新しいテキスト ドキュメント (");
        push_decimal(&mut n, k);
        push_str(&mut n, ").txt");
        n
    };
    paths::join_name(dir, name.as_str(), sep)
}

/// Where a new text file goes in `dir`, when `taken[k]` tells whether
/// something is at candidate `k` (see [`new_text_name`]): the first of
/// candidates 0 to 998 not taken, else candidate 999.
pub open spec fn new_text_choice(dir: Seq<char>, sep: char, taken: Seq<bool>) -> Seq<char> {
    let k = first_free_from(taken, 0);
    paths::join(dir, new_text_name(if k < 999 { k as nat } else { 999 }), sep)
}

/// Where a new text file goes, given what is at the candidates (see
/// [`new_text_choice`]).
pub fn pick_new_text_file(dir: &str, sep: char, taken: &[bool]) -> (r: String)
    ensures
        r@ == new_text_choice(dir@, sep, taken@),
{
    let k = first_free_below(taken, 999);
    new_text_file_candidate(dir, k as u64, sep)
}

/// Where a new text file goes in `dir`: asks the disk about candidates 0 to
/// 998 in turn (see [`new_text_name`]) until one is free and takes it, else
/// candidate 999 (see [`new_text_choice`]). What the disk answers is not
/// stated, so the result is stated for the answers it gave, whatever they
/// were.
pub fn new_text_file_path(dir: &str, sep: char) -> (r: String)
    ensures
        exists|taken: Seq<bool>| taken.len() <= 999 && r@ == #[trigger] new_text_choice(dir@, sep, taken),
{
    let mut taken: Vec<bool> = Vec::new();
    let mut k: u64 = 0;
    while k < 999
        invariant
            k <= 999,
            taken@.len() == k,
        decreases 999 - k,
    {
        let p = new_text_file_candidate(dir, k, sep);
        if !path_exists(p.as_str()) {
            taken.push(false);
            return pick_new_text_file(dir, sep, taken.as_slice());
        }
        taken.push(true);
        k = k + 1;
    }
    pick_new_text_file(dir, sep, taken.as_slice())
}

/// The text put on the clipboard by "copy path" (or "copy name"): the
/// selected paths (or their file names, a path without one standing for
/// itself), one per line; with nothing selected, the current directory (or
/// its name).
pub open spec fn copied_text(selected: Seq<Seq<char>>, current: Seq<char>, names_only: bool, sep: char) -> Seq<
    char,
> {
    if selected.len() == 0 {
        shown_as(current, names_only, sep)
    } else {
        joined_lines(selected.map_values(|p: Seq<char>| shown_as(p, names_only, sep)))
    }
}

/// A path as copied: itself, or its file name when names are asked for and
/// it has one.
pub open spec fn shown_as(p: Seq<char>, names_only: bool, sep: char) -> Seq<char> {
    if names_only {
        match paths::file_name(p, sep) {
            Some(n) => n,
            None => p,
        }
    } else {
        p
    }
}

/// Lines joined by line breaks.
pub open spec fn joined_lines(items: Seq<Seq<char>>) -> Seq<char>
    decreases items.len(),
{
    if items.len() == 0 {
        seq![]
    } else if items.len() == 1 {
        items[0]
    } else {
        joined_lines(items.drop_last()) + seq!['\n'] + items.last()
    }
}

fn shown_path(p: &str, names_only: bool, sep: char) -> (r: String)
    ensures
        r@ == shown_as(p@, names_only, sep),
{
    if names_only {
        match paths::file_name_of(p, sep) {
            Some(n) => n,
            None => to_string(p),
        }
    } else {
        to_string(p)
    }
}

/// The text "copy path" or "copy name" puts on the clipboard (see
/// [`copied_text`]).
pub fn clipboard_text(selected: &[String], current: &str, names_only: bool, sep: char) -> (r: String)
    ensures
        r@ == copied_text(crate::config::views(selected@), current@, names_only, sep),
{
    let ghost sv = crate::config::views(selected@);
    if selected.len() == 0 {
        return shown_path(current, names_only, sep);
    }
    let ghost f = |p: Seq<char>| shown_as(p, names_only, sep);
    let mut out = String::new();
    let mut i: usize = 0;
    while i < selected.len()
        invariant
            i <= selected@.len(),
            sv == crate::config::views(selected@),
            f == (|p: Seq<char>| shown_as(p, names_only, sep)),
            out@ == joined_lines(sv.take(i as int).map_values(f)),
        decreases selected@.len() - i,
    {
        proof {
            assert(sv.take(i + 1).map_values(f).drop_last() =~= sv.take(i as int).map_values(f));
            assert(sv.take(i + 1).map_values(f).last() == shown_as(selected@[i as int]@, names_only, sep));
        }
        let piece = shown_path(selected[i].as_str(), names_only, sep);
        if i > 0 {
            push_char(&mut out, '\n');
            proof {
                assert(out@ == joined_lines(sv.take(i as int).map_values(f)) + seq!['\n']);
            }
        } else {
            proof {
                assert(sv.take(1).map_values(f)[0] == piece@);
                assert(out@ + piece@ =~= piece@);
            }
        }
        push_str(&mut out, piece.as_str());
        i = i + 1;
    }
    proof {
        assert(sv.take(selected@.len() as int) =~= sv);
    }
    out
}

/// The names shown when asking to confirm a delete: the first `limit`
/// items (all when fewer), each by its file name (a path without one by
/// itself).
pub open spec fn listed_names_of(paths: Seq<Seq<char>>, limit: nat, sep: char) -> Seq<Seq<char>> {
    let k = if paths.len() <= limit {
        paths.len() as int
    } else {
        limit as int
    };
    paths.take(k).map_values(|p: Seq<char>| shown_as(p, true, sep))
}

/// The names shown when asking to confirm a delete (see
/// [`listed_names_of`]).
pub fn listed_names(paths: &[String], limit: usize, sep: char) -> (r: Vec<String>)
    ensures
        crate::config::views(r@) == listed_names_of(crate::config::views(paths@), limit as nat, sep),
{
    let ghost pv = crate::config::views(paths@);
    let k = if paths.len() <= limit {
        paths.len()
    } else {
        limit
    };
    let mut out: Vec<String> = Vec::new();
    let mut i: usize = 0;
    while i < k
        invariant
            k <= paths@.len(),
            i <= k,
            pv == crate::config::views(paths@),
            crate::config::views(out@) == pv.take(i as int).map_values(
                |p: Seq<char>| shown_as(p, true, sep),
            ),
        decreases k - i,
    {
        let ghost before = out@;
        out.push(shown_path(paths[i].as_str(), true, sep));
        proof {
            assert(crate::config::views(out@) =~= crate::config::views(before).push(
                shown_as(paths@[i as int]@, true, sep),
            ));
            assert(pv.take(i + 1).map_values(|p: Seq<char>| shown_as(p, true, sep)) =~= pv.take(
                i as int,
            ).map_values(|p: Seq<char>| shown_as(p, true, sep)).push(shown_as(pv[i as int], true, sep)));
        }
        i = i + 1;
    }
    out
}

/// Where a row is renamed to: `new_name` in the row's parent directory
/// (in `.` when the path has no parent).
pub open spec fn rename_path(path: Seq<char>, new_name: Seq<char>, sep: char) -> Seq<char> {
    paths::join(
        match paths::parent(path, sep) {
            Some(d) => d,
            None => "."@,
        },
        new_name,
        sep,
    )
}

/// Where a row at `path` is renamed to (see [`rename_path`]).
pub fn rename_target(path: &str, new_name: &str, sep: char) -> (r: String)
    ensures
        r@ == rename_path(path@, new_name@, sep),
{
    let dir = match paths::parent_of(path, sep) {
        Some(d) => d,
        None => to_string("."),
    };
    paths::join_name(dir.as_str(), new_name, sep)
}

// ---------------------------------------------------------------------------
// Times
// ---------------------------------------------------------------------------

/// An ASCII decimal digit.
pub open spec fn digit(c: char) -> bool {
    '0' <= c && c <= '9'
}

/// `/MM/DD HH:MM` with a digit for each letter.
pub open spec fn date_clock_tail(u: Seq<char>) -> bool {
    &&& u.len() == 12
    &&& u[0] == '/' && u[3] == '/' && u[6] == ' ' && u[9] == ':'
    &&& digit(u[1]) && digit(u[2]) && digit(u[4]) && digit(u[5])
    &&& digit(u[7]) && digit(u[8]) && digit(u[10]) && digit(u[11])
}

/// The text chrono writes for the pattern `%Y/%m/%d %H:%M`: a year of four
/// digits (years 0 to 9999), or a sign and at least four digits (other
/// years), then `/MM/DD HH:MM`.
pub open spec fn minute_stamp(t: Seq<char>) -> bool {
    ||| (t.len() == 16 && (forall|i: int| 0 <= i < 4 ==> digit(#[trigger] t[i])) && date_clock_tail(
        t.skip(4),
    ))
    ||| (t.len() >= 17 && (t[0] == '+' || t[0] == '-') && (forall|i: int|
        1 <= i < t.len() - 12 ==> digit(#[trigger] t[i])) && date_clock_tail(t.skip(t.len() - 12)))
}

/// Year, month and day of day `z`, counted from 1970-01-01, in the
/// proleptic Gregorian calendar (days are grouped in 400-year eras of
/// 146097 days, each year counted from March so that the leap day ends it).
pub open spec fn civil_from_days(z: int) -> (int, int, int) {
    let z2 = z + 719468;
    let era = z2 / 146097;
    let doe = z2 % 146097;
    let yoe = (doe - doe / 1460 + doe / 36524 - doe / 146096) / 365;
    let doy = doe - (365 * yoe + yoe / 4 - yoe / 100);
    let mp = (5 * doy + 2) / 153;
    let d = doy - (153 * mp + 2) / 5 + 1;
    let m = if mp < 10 { mp + 3 } else { mp - 9 };
    (yoe + era * 400 + if m <= 2 { 1int } else { 0int }, m, d)
}

/// Two decimal digits of `v` (0 to 99).
pub open spec fn two_digits(v: int) -> Seq<char> {
    seq![text::decimal_char((v / 10) as nat), text::decimal_char((v % 10) as nat)]
}

/// `s` with zeros in front up to four characters.
pub open spec fn zero_padded4(s: Seq<char>) -> Seq<char> {
    if s.len() >= 4 {
        s
    } else {
        Seq::new((4 - s.len()) as nat, |i: int| '0') + s
    }
}

/// How `%Y` writes year `y`: four digits for years 0 to 9999, else a sign
/// and at least four digits.
pub open spec fn year_text(y: int) -> Seq<char> {
    if 0 <= y <= 9999 {
        zero_padded4(text::decimal(y as nat))
    } else if y > 9999 {
        seq!['+'] + zero_padded4(text::decimal(y as nat))
    } else {
        seq!['-'] + zero_padded4(text::decimal((-y) as nat))
    }
}

/// The `%Y/%m/%d %H:%M` text of second `s` after the Unix epoch, read on
/// the UTC clock of the proleptic Gregorian calendar.
pub open spec fn civil_stamp(s: int) -> Seq<char> {
    let (y, m, d) = civil_from_days(s / 86400);
    let r = s % 86400;
    year_text(y) + seq!['/'] + two_digits(m) + seq!['/'] + two_digits(d) + seq![' '] + two_digits(
        r / 3600,
    ) + seq![':'] + two_digits((r % 3600) / 60)
}

/// `t` is the calendar text of a second less than a day away from `secs`.
pub open spec fn shifted_stamp(t: Seq<char>, secs: int) -> bool {
    exists|off: int| -86400 < off < 86400 && t == #[trigger] civil_stamp(secs + off)
}

/// `secs` lies within [`CALENDAR_SECONDS`] of the epoch and `nsecs` is under
/// a billion.
pub open spec fn within_calendar(secs: int, nsecs: int) -> bool {
    -CALENDAR_SECONDS <= secs <= CALENDAR_SECONDS && 0 <= nsecs < 1_000_000_000
}

/// A bound on seconds from the epoch (about 253,000 years) well inside
/// chrono's date range, the day before and after included.
pub const CALENDAR_SECONDS: i64 = 8_000_000_000_000;

/// The last second (`9999-12-31 23:59:59` UTC, less one day) up to which
/// every time zone's local year still has four digits.
pub const LAST_FOUR_DIGIT_SECOND: i64 = 253_402_214_399;

/// The instant `secs` seconds and `nsecs` nanoseconds after the Unix epoch
/// in the machine's time zone, formatted with the pattern `%Y/%m/%d %H:%M`:
/// calls chrono's `DateTime::from_timestamp`, then `with_timezone(&Local)`,
/// then `format(pattern)` turned into a `String`. The three calls share one
/// wrapper because chrono's `DateTime` cannot be given a type specification
/// (its type parameter is bounded by chrono's `TimeZone` trait).
/// The pattern is that one pattern: chrono's `to_string` panics on a pattern
/// with an unknown item. `from_timestamp` gives `None` only for a second
/// count outside its date range (years -262144 to 262143) or a nanosecond
/// count it refuses, so within [`CALENDAR_SECONDS`] of the epoch, with fewer
/// than a billion nanoseconds, the result is there. chrono formats the UTC
/// date and time moved by the local offset, a `FixedOffset`, which is always
/// less than a day; so the text is the calendar text of a second less than
/// a day away from `secs` (see [`civil_stamp`]), and between the epoch and
/// [`LAST_FOUR_DIGIT_SECOND`] its year has four digits. Which offset that is
/// depends on the machine's time zone and is left unsaid, as is which
/// inputs outside that range give `None`. chrono panics on time-zone data
/// it cannot use (an offset of a day or more, a lookup that fails), which
/// rests on the machine, not on the arguments.
#[verifier::external_body]
fn local_time_text(secs: i64, nsecs: u32, pattern: &str) -> (r: Option<String>)
    requires
        pattern@ == "%Y/%m/%d %H:%M"@,
    ensures
        r is Some ==> minute_stamp(r->0@),
        0 <= secs <= LAST_FOUR_DIGIT_SECOND && nsecs < 1_000_000_000 ==> r is Some && r->0@.len() == 16,
        within_calendar(secs as int, nsecs as int) ==> r is Some && shifted_stamp(r->0@, secs as int),
{
    match chrono::DateTime::from_timestamp(secs, nsecs) {
        Some(d) => Some(d.with_timezone(&chrono::Local).format(pattern).to_string()),
        None => None,
    }
}

/// Seconds and nanoseconds of an instant given in nanoseconds, the seconds
/// rounded down (as chrono counts them).
pub open spec fn split_nanos(n: int) -> (int, int) {
    (n / 1_000_000_000, n % 1_000_000_000)
}

fn split_instant(n: i128) -> (r: (i64, u32))
    requires
        -0x7fff_ffff_ffff_ffff * 1_000_000_000 <= n < 0x7fff_ffff_ffff_ffff * 1_000_000_000,
    ensures
        r.0 as int == split_nanos(n as int).0,
        r.1 as int == split_nanos(n as int).1,
{
    if n >= 0 {
        let q = n / 1_000_000_000;
        let r = n % 1_000_000_000;
        (q as i64, r as u32)
    } else {
        let m = 0 - n;
        let q = m / 1_000_000_000;
        let r = m % 1_000_000_000;
        if r == 0 {
            proof {
                assert(n == -(q * 1_000_000_000));
                assert((n as int) / 1_000_000_000 == -q) by (nonlinear_arith)
                    requires n == -(q * 1_000_000_000);
                assert((n as int) % 1_000_000_000 == 0) by (nonlinear_arith)
                    requires n == -(q * 1_000_000_000);
            }
            ((0 - q) as i64, 0)
        } else {
            proof {
                assert(m == q * 1_000_000_000 + r);
                assert((n as int) / 1_000_000_000 == -q - 1) by (nonlinear_arith)
                    requires n == -(q * 1_000_000_000 + r), 0 < r < 1_000_000_000;
                assert((n as int) % 1_000_000_000 == 1_000_000_000 - r) by (nonlinear_arith)
                    requires n == -(q * 1_000_000_000 + r), 0 < r < 1_000_000_000;
            }
            ((0 - q - 1) as i64, (1_000_000_000 - r) as u32)
        }
    }
}

/// A modification time as `YYYY/MM/DD HH:MM` in the local time zone, or `-`
/// when there is none (or chrono cannot place it).
pub fn fmt_time(t: Option<i128>) -> (r: String)
    requires
        t matches Some(n) ==> -0x7fff_ffff_ffff_ffff * 1_000_000_000 <= n < 0x7fff_ffff_ffff_ffff
            * 1_000_000_000,
    ensures
        t is None ==> r@ == seq!['-'],
        t is Some ==> r@ == seq!['-'] || minute_stamp(r@),
        t matches Some(n) && 0 <= n < (LAST_FOUR_DIGIT_SECOND + 1) * 1_000_000_000 ==> minute_stamp(r@)
            && r@.len() == 16,
        t is Some && -CALENDAR_SECONDS * 1_000_000_000 <= t->0 < CALENDAR_SECONDS * 1_000_000_000
            ==> shifted_stamp(r@, split_nanos(t->0 as int).0),
{
    let dash = || -> (s: String)
        ensures s@ == seq!['-'],
    {
        let mut s = String::new();
        push_char(&mut s, '-');
        s
    };
    match t {
        None => dash(),
        Some(n) => {
            let (secs, nsecs) = split_instant(n);
            proof {
                if 0 <= n < (LAST_FOUR_DIGIT_SECOND + 1) * 1_000_000_000 {
                    assert(0 <= (n as int) / 1_000_000_000 <= LAST_FOUR_DIGIT_SECOND) by (nonlinear_arith)
                        requires 0 <= n < (LAST_FOUR_DIGIT_SECOND + 1) * 1_000_000_000;
                }
                if -CALENDAR_SECONDS * 1_000_000_000 <= n < CALENDAR_SECONDS * 1_000_000_000 {
                    assert(-CALENDAR_SECONDS <= (n as int) / 1_000_000_000 < CALENDAR_SECONDS) by (nonlinear_arith)
                        requires -CALENDAR_SECONDS * 1_000_000_000 <= n < CALENDAR_SECONDS * 1_000_000_000;
                }
            }
            match local_time_text(secs, nsecs, "%Y/%m/%d %H:%M") {
                Some(s) => s,
                None => dash(),
            }
        },
    }
}

} // verus!
