//! File icons: the cache that keeps the most recently loaded icons, the
//! key an icon is cached under, and the bundled fallback icons shown when
//! the system has none.

use vstd::prelude::*;
use crate::paths;
use crate::shell;
use crate::text;
use crate::text::{push_char, push_str, str_eq, str_to_lowercase, to_string};

verus! {

/// Cache key: the text an icon is cached under.
#[derive(Debug, Clone, Hash, PartialEq, Eq)]
pub struct CacheKey(pub String);

// ---------------------------------------------------------------------------
// The cache
// ---------------------------------------------------------------------------

/// No two entries have the same key.
pub open spec fn distinct_keys<T>(s: Seq<(Seq<char>, T)>) -> bool {
    forall|i: int, j: int| 0 <= i < j < s.len() ==> #[trigger] s[i].0 != #[trigger] s[j].0
}

/// The value stored under `k`: that of the last entry with key `k`.
pub open spec fn lookup<T>(s: Seq<(Seq<char>, T)>, k: Seq<char>) -> Option<T>
    decreases s.len(),
{
    if s.len() == 0 {
        None
    } else if s.last().0 == k {
        Some(s.last().1)
    } else {
        lookup(s.drop_last(), k)
    }
}

/// The entries whose key is not `k`, in order.
pub open spec fn without<T>(s: Seq<(Seq<char>, T)>, k: Seq<char>) -> Seq<(Seq<char>, T)>
    decreases s.len(),
{
    if s.len() == 0 {
        s
    } else if s.last().0 == k {
        without(s.drop_last(), k)
    } else {
        without(s.drop_last(), k).push(s.last())
    }
}

/// The last `cap` entries (all of them when there are no more).
pub open spec fn most_recent<T>(s: Seq<(Seq<char>, T)>, cap: nat) -> Seq<(Seq<char>, T)> {
    if s.len() > cap {
        s.skip(s.len() - cap)
    } else {
        s
    }
}

/// The entries after storing `v` under `k`: any entry of `k` leaves, the
/// new one goes last, and only the `cap` most recent stay.
pub open spec fn after_insert<T>(s: Seq<(Seq<char>, T)>, k: Seq<char>, v: T, cap: nat) -> Seq<
    (Seq<char>, T),
> {
    most_recent(without(s, k).push((k, v)), cap)
}

/// LRU cache for file icons, holding at most its capacity of entries and
/// dropping the least recently stored one first.
pub struct LruIconCache<T> {
    entries: Vec<(CacheKey, T)>,
    cap: usize,
}

/// An entry with its key as text.
pub open spec fn item<T>(e: (CacheKey, T)) -> (Seq<char>, T) {
    (e.0.0@, e.1)
}

/// Entries with their keys as text.
pub open spec fn items<T>(es: Seq<(CacheKey, T)>) -> Seq<(Seq<char>, T)> {
    es.map_values(|e: (CacheKey, T)| item(e))
}

proof fn lemma_view_remove<T>(es: Seq<(CacheKey, T)>, i: int)
    requires
        0 <= i < es.len(),
    ensures
        items(es.remove(i)) == items(es).remove(i),
{
    assert(items(es.remove(i)) =~= items(es).remove(i));
}

proof fn lemma_view_push<T>(es: Seq<(CacheKey, T)>, e: (CacheKey, T))
    ensures
        items(es.push(e)) == items(es).push(item(e)),
{
    assert(items(es.push(e)) =~= items(es).push(item(e)));
}

proof fn lemma_without_len<T>(s: Seq<(Seq<char>, T)>, k: Seq<char>)
    ensures
        without(s, k).len() <= s.len(),
    decreases s.len(),
{
    if s.len() > 0 {
        lemma_without_len(s.drop_last(), k);
    }
}

impl<T> View for LruIconCache<T> {
    type V = Seq<(Seq<char>, T)>;

    /// The entries, least recently stored first, with their keys as text.
    closed spec fn view(&self) -> Seq<(Seq<char>, T)> {
        items(self.entries@)
    }
}

impl<T> LruIconCache<T> {
    /// The most entries the cache keeps.
    pub closed spec fn capacity(&self) -> nat {
        self.cap as nat
    }

    /// At least one entry fits, there are no more than fit, and no key
    /// occurs twice.
    pub closed spec fn wf(&self) -> bool {
        &&& self.cap >= 1
        &&& self.entries@.len() <= self.cap
        &&& distinct_keys(self@)
    }

    /// A valid cache has room for at least one entry and holds no more than
    /// its capacity, each key once; so storing under a key and then looking
    /// it up gives what was stored (see [`get_after_insert`]).
    pub proof fn valid_cache_has_room(&self)
        requires
            self.wf(),
        ensures
            self.capacity() >= 1,
            self@.len() <= self.capacity(),
            distinct_keys(self@),
    {
    }

    /// An empty cache for `cap` entries (for one when `cap` is 0).
    pub fn with_capacity(cap: usize) -> (r: Self)
        ensures
            r.wf(),
            r@ == Seq::<(Seq<char>, T)>::empty(),
            r.capacity() == if cap == 0 {
                1
            } else {
                cap as nat
            },
    {
        let c = if cap == 0 {
            1
        } else {
            cap
        };
        let r = LruIconCache { entries: Vec::new(), cap: c };
        proof {
            assert(r@ =~= Seq::<(Seq<char>, T)>::empty());
        }
        r
    }

    /// The icon stored under `key`, if any.
    pub fn get(&self, key: &CacheKey) -> (r: Option<&T>)
        requires
            self.wf(),
        ensures
            match r {
                Some(v) => lookup(self@, key.0@) == Some(*v),
                None => lookup(self@, key.0@) is None,
            },
    {
        let mut i: usize = self.entries.len();
        proof {
            assert(self@.take(self@.len() as int) =~= self@);
        }
        while i > 0
            invariant
                i <= self.entries@.len(),
                lookup(self@, key.0@) == lookup(self@.take(i as int), key.0@),
            decreases i,
        {
            proof {
                assert(self@.take(i as int).drop_last() == self@.take(i - 1));
                assert(self@.take(i as int).last() == self@[i - 1]);
            }
            if self.entries[i - 1].0.0 == key.0 {
                return Some(&self.entries[i - 1].1);
            }
            i = i - 1;
        }
        None
    }

    /// Index of the entry with key `key`, or the number of entries when
    /// there is none.
    fn position_of(&self, key: &CacheKey) -> (i: usize)
        ensures
            i <= self@.len(),
            forall|j: int| 0 <= j < i ==> self@[j].0 != key.0@,
            i < self@.len() ==> self@[i as int].0 == key.0@,
    {
        let n = self.entries.len();
        let mut i: usize = 0;
        while i < n
            invariant
                n == self.entries@.len(),
                i <= n,
                forall|j: int| 0 <= j < i ==> self@[j].0 != key.0@,
            ensures
                i <= n,
                forall|j: int| 0 <= j < i ==> self@[j].0 != key.0@,
                i < n ==> self@[i as int].0 == key.0@,
            decreases n - i,
        {
            if self.entries[i].0.0 == key.0 {
                break;
            }
            i = i + 1;
        }
        i
    }

    /// Store `tex` under `key`: an earlier icon of `key` leaves, the new one
    /// becomes the most recent, and when the cache holds more than its
    /// capacity the least recently stored icon is dropped.
    pub fn insert(&mut self, key: CacheKey, tex: T)
        requires
            old(self).wf(),
        ensures
            final(self).wf(),
            final(self).capacity() == old(self).capacity(),
            final(self)@ == after_insert(old(self)@, key.0@, tex, old(self).capacity()),
    {
        let ghost s0 = self@;
        let ghost k = key.0@;
        let ghost cap = self.cap as nat;
        let n = self.entries.len();
        let i = self.position_of(&key);
        if i < n {
            let ghost e0 = self.entries@;
            let _old = self.entries.remove(i);
            assert(self@ == without(s0, k)) by {
                lemma_view_remove(e0, i as int);
                lemma_remove_is_without(s0, k, i as int);
            }
        } else {
            assert(self@ == without(s0, k)) by {
                lemma_without_absent(s0, k);
            }
        }
        let ghost e1 = self.entries@;
        self.entries.push((key, tex));
        assert(self@ == without(s0, k).push((k, tex))) by {
            lemma_view_push(e1, (key, tex));
        }
        let ghost e2 = self.entries@;
        let ghost t = self@;
        assert(t.len() <= cap + 1) by {
            lemma_without_len(s0, k);
        }
        if self.entries.len() > self.cap {
            let _gone = self.entries.remove(0);
            assert(self@ == t.skip(1)) by {
                lemma_view_remove(e2, 0);
                assert(t.remove(0) =~= t.skip(1));
            }
        }
        assert(distinct_keys(self@) && self@.len() <= cap) by {
            lemma_after_insert_wf(s0, k, tex, cap);
        }
    }

    /// How many icons the cache holds.
    pub fn len(&self) -> (r: usize)
        ensures
            r == self@.len(),
    {
        self.entries.len()
    }

    /// The most icons the cache keeps.
    pub fn cap(&self) -> (r: usize)
        ensures
            r == self.capacity(),
    {
        self.cap
    }
}

proof fn lemma_without_absent<T>(s: Seq<(Seq<char>, T)>, k: Seq<char>)
    requires
        forall|j: int| 0 <= j < s.len() ==> s[j].0 != k,
    ensures
        without(s, k) == s,
    decreases s.len(),
{
    if s.len() > 0 {
        lemma_without_absent(s.drop_last(), k);
        assert(s.drop_last().push(s.last()) =~= s);
    }
}

proof fn lemma_remove_is_without<T>(s: Seq<(Seq<char>, T)>, k: Seq<char>, idx: int)
    requires
        distinct_keys(s),
        0 <= idx < s.len(),
        s[idx].0 == k,
    ensures
        s.remove(idx) == without(s, k),
    decreases s.len(),
{
    if idx == s.len() - 1 {
        assert forall|j: int| 0 <= j < s.drop_last().len() implies s.drop_last()[j].0 != k by {
            assert(s[j].0 != s[idx].0);
        }
        lemma_without_absent(s.drop_last(), k);
        assert(s.remove(idx) =~= s.drop_last());
    } else {
        assert(s.last().0 != k) by {
            assert(s[idx].0 != s[s.len() - 1].0);
        }
        lemma_remove_is_without(s.drop_last(), k, idx);
        assert(s.remove(idx) =~= s.drop_last().remove(idx).push(s.last()));
    }
}

proof fn lemma_without_facts<T>(s: Seq<(Seq<char>, T)>, k: Seq<char>)
    requires
        distinct_keys(s),
    ensures
        distinct_keys(without(s, k)),
        without(s, k).len() <= s.len(),
        forall|j: int| 0 <= j < without(s, k).len() ==> without(s, k)[j].0 != k,
        forall|j: int|
            0 <= j < without(s, k).len() ==> exists|m: int| 0 <= m < s.len() && #[trigger] s[m]
                == #[trigger] without(s, k)[j],
    decreases s.len(),
{
    if s.len() > 0 {
        let d = s.drop_last();
        assert(distinct_keys(d));
        lemma_without_facts(d, k);
        let w = without(d, k);
        if s.last().0 != k {
            let w2 = w.push(s.last());
            assert forall|a: int, b: int| 0 <= a < b < w2.len() implies #[trigger] w2[a].0
                != #[trigger] w2[b].0 by {
                if b == w2.len() - 1 {
                    let m = choose|m: int| 0 <= m < d.len() && d[m] == w[a];
                    assert(s[m] == d[m]);
                    assert(s[m].0 != s[s.len() - 1].0);
                }
            }
            assert forall|j: int| 0 <= j < w2.len() implies exists|m: int|
                0 <= m < s.len() && #[trigger] s[m] == #[trigger] w2[j] by {
                if j == w2.len() - 1 {
                    assert(s[s.len() - 1] == w2[j]);
                } else {
                    let m = choose|m: int| 0 <= m < d.len() && d[m] == w[j];
                    assert(s[m] == w2[j]);
                }
            }
        } else {
            assert forall|j: int| 0 <= j < w.len() implies exists|m: int|
                0 <= m < s.len() && #[trigger] s[m] == #[trigger] w[j] by {
                let m = choose|m: int| 0 <= m < d.len() && d[m] == w[j];
                assert(s[m] == w[j]);
            }
        }
    }
}

proof fn lemma_lookup_without<T>(s: Seq<(Seq<char>, T)>, k: Seq<char>, k2: Seq<char>)
    requires
        k2 != k,
    ensures
        lookup(without(s, k), k2) == lookup(s, k2),
    decreases s.len(),
{
    if s.len() > 0 {
        lemma_lookup_without(s.drop_last(), k, k2);
        if s.last().0 != k {
            assert(without(s, k).push(s.last()).drop_last() =~= without(s, k));
            assert(without(s.drop_last(), k).push(s.last()).drop_last() =~= without(
                s.drop_last(),
                k,
            ));
        }
    }
}

proof fn lemma_after_insert_wf<T>(s: Seq<(Seq<char>, T)>, k: Seq<char>, v: T, cap: nat)
    requires
        distinct_keys(s),
        s.len() <= cap,
        cap >= 1,
    ensures
        distinct_keys(after_insert(s, k, v, cap)),
        after_insert(s, k, v, cap).len() <= cap,
{
    lemma_without_facts(s, k);
    let w = without(s, k);
    let t = w.push((k, v));
    assert(distinct_keys(t)) by {
        assert forall|a: int, b: int| 0 <= a < b < t.len() implies #[trigger] t[a].0
            != #[trigger] t[b].0 by {
            if b == t.len() - 1 {
                assert(w[a].0 != k);
            } else {
                assert(t[a] == w[a] && t[b] == w[b]);
            }
        }
    }
    let r = after_insert(s, k, v, cap);
    if t.len() > cap {
        assert forall|a: int, b: int| 0 <= a < b < r.len() implies #[trigger] r[a].0
            != #[trigger] r[b].0 by {
            assert(r[a] == t[a + (t.len() - cap)]);
            assert(r[b] == t[b + (t.len() - cap)]);
        }
    }
}

/// Right after `v` is stored under `k`, looking `k` up gives `v`: the new
/// entry is the most recent one, which is never the one dropped.
pub proof fn get_after_insert<T>(s: Seq<(Seq<char>, T)>, k: Seq<char>, v: T, cap: nat)
    requires
        cap >= 1,
    ensures
        lookup(after_insert(s, k, v, cap), k) == Some(v),
{
    let t = without(s, k).push((k, v));
    let r = after_insert(s, k, v, cap);
    assert(r.last() == (k, v));
}

/// Storing under `k` leaves what every other key looks up to as long as
/// nothing is dropped: when the cache is below its capacity, or when `k`
/// was already in it.
pub proof fn insert_keeps_other_keys<T>(
    s: Seq<(Seq<char>, T)>,
    k: Seq<char>,
    v: T,
    cap: nat,
    k2: Seq<char>,
)
    requires
        distinct_keys(s),
        s.len() <= cap,
        s.len() < cap || lookup(s, k) is Some,
        k2 != k,
    ensures
        lookup(after_insert(s, k, v, cap), k2) == lookup(s, k2),
{
    lemma_without_facts(s, k);
    if s.len() == cap {
        lemma_lookup_some_has_key(s, k);
        let idx = choose|i: int| 0 <= i < s.len() && s[i].0 == k;
        lemma_remove_is_without(s, k, idx);
    }
    let t = without(s, k).push((k, v));
    assert(after_insert(s, k, v, cap) == t);
    assert(t.drop_last() == without(s, k));
    lemma_lookup_without(s, k, k2);
}

proof fn lemma_lookup_some_has_key<T>(s: Seq<(Seq<char>, T)>, k: Seq<char>)
    requires
        lookup(s, k) is Some,
    ensures
        exists|i: int| 0 <= i < s.len() && s[i].0 == k,
    decreases s.len(),
{
    if s.last().0 == k {
        assert(s[s.len() - 1].0 == k);
    } else {
        lemma_lookup_some_has_key(s.drop_last(), k);
        let i = choose|i: int| 0 <= i < s.drop_last().len() && s.drop_last()[i].0 == k;
        assert(s[i].0 == k);
    }
}

/// Storing a new key in a full cache drops exactly the least recently
/// stored entry: the rest keep their order and the new entry comes last.
pub proof fn insert_into_full_drops_oldest<T>(s: Seq<(Seq<char>, T)>, k: Seq<char>, v: T, cap: nat)
    requires
        s.len() == cap,
        cap >= 1,
        lookup(s, k) is None,
    ensures
        after_insert(s, k, v, cap) == s.drop_first().push((k, v)),
{
    assert forall|j: int| 0 <= j < s.len() implies s[j].0 != k by {
        if s[j].0 == k {
            lemma_lookup_none_no_key(s, k, j);
        }
    }
    lemma_without_absent(s, k);
    assert(s.push((k, v)).skip(1) =~= s.drop_first().push((k, v)));
}

proof fn lemma_lookup_none_no_key<T>(s: Seq<(Seq<char>, T)>, k: Seq<char>, j: int)
    requires
        lookup(s, k) is None,
        0 <= j < s.len(),
    ensures
        s[j].0 != k,
    decreases s.len(),
{
    if j < s.len() - 1 {
        assert(s.last().0 != k);
        lemma_lookup_none_no_key(s.drop_last(), k, j);
        assert(s.drop_last()[j] == s[j]);
    }
}

/// The cache never holds more entries than its capacity, and storing keeps
/// it that way.
pub proof fn insert_stays_within_capacity<T>(s: Seq<(Seq<char>, T)>, k: Seq<char>, v: T, cap: nat)
    requires
        s.len() <= cap,
    ensures
        after_insert(s, k, v, cap).len() <= cap,
{
}

// ---------------------------------------------------------------------------
// Keys and fallback icons
// ---------------------------------------------------------------------------

/// The key an icon is cached under: one key for all directories; one per
/// file for programs, icons and shortcuts (`exe`, `ico`, `lnk`), whose
/// icons differ file by file; else one per lower-cased extension.
pub open spec fn cache_key(path: Seq<char>, is_dir: bool, sep: char) -> Seq<char> {
    let e = text::lowercase(shell::path_extension(path, sep));
    if is_dir {
        "__dir__"@
    } else if e == "exe"@ || e == "ico"@ || e == "lnk"@ {
        "file:"@ + path
    } else {
        "ext:"@ + e
    }
}

/// The key the icon of `path` is cached under on the platform whose main
/// separator is `sep` (see [`cache_key`]).
pub fn cache_key_for_sep(path: &str, is_dir: bool, sep: char) -> (r: CacheKey)
    ensures
        r.0@ == cache_key(path@, is_dir, sep),
{
    if is_dir {
        return CacheKey(to_string("__dir__"));
    }
    let raw = shell::extension_of_path(path, sep);
    let e = str_to_lowercase(raw.as_str());
    if str_eq(e.as_str(), "exe") || str_eq(e.as_str(), "ico") || str_eq(e.as_str(), "lnk") {
        let mut k = to_string("file:");
        push_str(&mut k, path);
        CacheKey(k)
    } else {
        let mut k = to_string("ext:");
        push_str(&mut k, e.as_str());
        CacheKey(k)
    }
}

/// The key the icon of `path` is cached under on this platform.
pub fn cache_key_for(path: &str, is_dir: bool) -> (r: CacheKey)
    ensures
        r.0@ == cache_key(path@, is_dir, '/') || r.0@ == cache_key(path@, is_dir, '\\'),
{
    cache_key_for_sep(path, is_dir, paths::main_separator())
}

/// A character allowed in an icon's URI as it is: an ASCII letter or digit.
pub open spec fn uri_safe(c: char) -> bool {
    ('a' <= c && c <= 'z') || ('A' <= c && c <= 'Z') || ('0' <= c && c <= '9')
}

/// `s` with every character other than an ASCII letter or digit replaced
/// by `_`.
pub open spec fn uri_text(s: Seq<char>) -> Seq<char> {
    Seq::new(s.len(), |i: int| if uri_safe(s[i]) { s[i] } else { '_' })
}

/// `s` made safe for an icon's URI (see [`uri_text`]).
pub fn sanitize_for_uri(s: &str) -> (r: String)
    ensures
        r@ == uri_text(s@),
{
    let v = text::chars_of(s);
    let mut r = String::new();
    let mut i: usize = 0;
    while i < v.len()
        invariant
            i <= v@.len(),
            v@ == s@,
            r@ == uri_text(v@.take(i as int)),
        decreases v@.len() - i,
    {
        let c = v[i];
        let safe = ('a' <= c && c <= 'z') || ('A' <= c && c <= 'Z') || ('0' <= c && c <= '9');
        push_char(&mut r, if safe { c } else { '_' });
        proof {
            assert(uri_text(v@.take(i + 1)) =~= uri_text(v@.take(i as int)).push(
                if uri_safe(v@[i as int]) { v@[i as int] } else { '_' },
            ));
        }
        i = i + 1;
    }
    proof {
        assert(v@.take(v@.len() as int) == v@);
    }
    r
}

/// The bundled icons shown when the system gives none.
#[derive(Debug, Clone, Copy, PartialEq, Eq, Structural)]
pub enum FallbackIcon {
    Folder,
    Image,
    Archive,
    Program,
    Text,
    Code,
    Generic,
}

/// The bundled icon for a file of extension `ext` (compared ignoring ASCII
/// case), or for a directory.
pub open spec fn fallback_icon(ext: Seq<char>, is_dir: bool) -> FallbackIcon {
    let e = text::ascii_lower_seq(ext);
    if is_dir {
        FallbackIcon::Folder
    } else if shell::image_ext(e, true) {
        FallbackIcon::Image
    } else if shell::archive_ext(e, true) {
        FallbackIcon::Archive
    } else if shell::program_ext(e) {
        FallbackIcon::Program
    } else if e == "txt"@ || e == "md"@ || e == "log"@ || e == "ini"@ || e == "cfg"@ {
        FallbackIcon::Text
    } else if shell::code_ext(e) {
        FallbackIcon::Code
    } else {
        FallbackIcon::Generic
    }
}

/// The bundled icon for a file of extension `ext`, or for a directory (see
/// [`fallback_icon`]).
pub fn fallback_icon_for(ext: &str, is_dir: bool) -> (r: FallbackIcon)
    ensures
        r == fallback_icon(ext@, is_dir),
{
    if is_dir {
        return FallbackIcon::Folder;
    }
    let v = text::chars_of(ext);
    let low = text::ascii_lower_chars(v.as_slice());
    let s = text::string_from_chars(low.as_slice());
    let e = s.as_str();
    if str_eq(e, "png") || str_eq(e, "jpg") || str_eq(e, "jpeg") || str_eq(e, "gif") || str_eq(
        e,
        "bmp",
    ) || str_eq(e, "webp") || str_eq(e, "ico") || str_eq(e, "svg") {
        FallbackIcon::Image
    } else if str_eq(e, "zip") || str_eq(e, "7z") || str_eq(e, "rar") || str_eq(e, "tar") || str_eq(
        e,
        "gz",
    ) || str_eq(e, "bz2") || str_eq(e, "xz") {
        FallbackIcon::Archive
    } else if str_eq(e, "exe") || str_eq(e, "msi") || str_eq(e, "dll") || str_eq(e, "sys") {
        FallbackIcon::Program
    } else if str_eq(e, "txt") || str_eq(e, "md") || str_eq(e, "log") || str_eq(e, "ini") || str_eq(
        e,
        "cfg",
    ) {
        FallbackIcon::Text
    } else if str_eq(e, "rs") || str_eq(e, "toml") || str_eq(e, "json") || str_eq(e, "yaml")
        || str_eq(e, "yml") || str_eq(e, "py") || str_eq(e, "js") || str_eq(e, "ts") || str_eq(
        e,
        "go",
    ) || str_eq(e, "c") || str_eq(e, "cpp") || str_eq(e, "h") || str_eq(e, "cs") || str_eq(
        e,
        "java",
    ) {
        FallbackIcon::Code
    } else {
        FallbackIcon::Generic
    }
}

/// The SVG source of a bundled icon.
pub open spec fn fallback_svg(icon: FallbackIcon) -> Seq<char> {
    match icon {
        FallbackIcon::Folder => FOLDER_SVG@,
        FallbackIcon::Image => IMAGE_SVG@,
        FallbackIcon::Archive => ARCHIVE_SVG@,
        FallbackIcon::Program => PROGRAM_SVG@,
        FallbackIcon::Text => TEXT_SVG@,
        FallbackIcon::Code => CODE_SVG@,
        FallbackIcon::Generic => GENERIC_SVG@,
    }
}

/// A folder.
pub const FOLDER_SVG: &'static str = "<svg xmlns=\"http://www.w3.org/2000/svg\" viewBox=\"0 0 24 24\" fill=\"none\" stroke=\"currentColor\" stroke-width=\"2\"><path d=\"M3 6h7l2 2h9v11H3z\"/></svg>";

/// A picture.
pub const IMAGE_SVG: &'static str = "<svg xmlns=\"http://www.w3.org/2000/svg\" viewBox=\"0 0 24 24\" fill=\"none\" stroke=\"currentColor\" stroke-width=\"2\"><rect x=\"3\" y=\"4\" width=\"18\" height=\"16\"/><path d=\"M3 17l5-5 4 4 3-3 6 6\"/></svg>";

/// A box.
pub const ARCHIVE_SVG: &'static str = "<svg xmlns=\"http://www.w3.org/2000/svg\" viewBox=\"0 0 24 24\" fill=\"none\" stroke=\"currentColor\" stroke-width=\"2\"><rect x=\"3\" y=\"4\" width=\"18\" height=\"5\"/><path d=\"M5 9v11h14V9M10 13h4\"/></svg>";

/// A gear-like program window.
pub const PROGRAM_SVG: &'static str = "<svg xmlns=\"http://www.w3.org/2000/svg\" viewBox=\"0 0 24 24\" fill=\"none\" stroke=\"currentColor\" stroke-width=\"2\"><rect x=\"3\" y=\"4\" width=\"18\" height=\"16\"/><path d=\"M3 8h18M8 13l2 2-2 2\"/></svg>";

/// A page of text.
pub const TEXT_SVG: &'static str = "<svg xmlns=\"http://www.w3.org/2000/svg\" viewBox=\"0 0 24 24\" fill=\"none\" stroke=\"currentColor\" stroke-width=\"2\"><path d=\"M6 2h9l4 4v16H6zM9 10h7M9 14h7M9 18h5\"/></svg>";

/// A page of code.
pub const CODE_SVG: &'static str = "<svg xmlns=\"http://www.w3.org/2000/svg\" viewBox=\"0 0 24 24\" fill=\"none\" stroke=\"currentColor\" stroke-width=\"2\"><path d=\"M6 2h9l4 4v16H6zM11 11l-2 3 2 3M14 11l2 3-2 3\"/></svg>";

/// A blank page.
pub const GENERIC_SVG: &'static str = "<svg xmlns=\"http://www.w3.org/2000/svg\" viewBox=\"0 0 24 24\" fill=\"none\" stroke=\"currentColor\" stroke-width=\"2\"><path d=\"M6 2h9l4 4v16H6zM15 2v4h4\"/></svg>";

/// The SVG source of a bundled icon (see [`fallback_svg`]).
pub fn fallback_svg_text(icon: FallbackIcon) -> (r: &'static str)
    ensures
        r@ == fallback_svg(icon),
{
    match icon {
        FallbackIcon::Folder => FOLDER_SVG,
        FallbackIcon::Image => IMAGE_SVG,
        FallbackIcon::Archive => ARCHIVE_SVG,
        FallbackIcon::Program => PROGRAM_SVG,
        FallbackIcon::Text => TEXT_SVG,
        FallbackIcon::Code => CODE_SVG,
        FallbackIcon::Generic => GENERIC_SVG,
    }
}

/// Bundled fallback SVG sources, as UTF-8 bytes (see [`fallback_icon`] and
/// [`fallback_svg`]). Used when the system has no icon for a file.
pub fn fallback_svg_bytes(ext: &str, is_dir: bool) -> (r: &'static [u8])
    ensures
        r@ == vstd::utf8::encode_utf8(fallback_svg(fallback_icon(ext@, is_dir))),
{
    fallback_svg_text(fallback_icon_for(ext, is_dir)).as_bytes()
}

} // verus!
