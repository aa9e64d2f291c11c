//! User commands and what background workers report back, with the tally
//! a paste keeps while it copies or moves items one by one.

use vstd::prelude::*;
use crate::tab::FileEntry;
use crate::text;
use crate::text::{push_decimal, push_str, to_string};

verus! {

/// All user-facing operations funnel through this enum.
#[derive(Debug, Clone, Copy, PartialEq, Eq, Structural)]
pub enum Command {
    Copy,
    Cut,
    Paste,
    Delete { permanent: bool },
    Rename,
    NewFolder,
    NewTextFile,
    SelectAll,
    Refresh,
    GoUp,
    GoBack,
    GoForward,
    OpenPrimary,
    AddBookmark,
    Search,
    ConfirmDelete { permanent: bool },
    CancelDialog,
}

/// Results delivered from background workers back to the UI thread.
#[derive(Debug)]
pub enum BgEvent {
    SearchDone { query: String, results: Vec<FileEntry> },
    PasteDone { ok: usize, err: usize, message: String },
    /// Something changed in a watched directory.
    FsChanged,
    /// A directory listing finished; `generation` tells which request it
    /// answers.
    ListDone { generation: u64, is_pane2: bool, entries: Vec<FileEntry>, error: Option<String> },
}

/// The message shown when a paste ends: the count of pasted items, or the
/// counts of successes and failures with the last error.
pub open spec fn paste_message(ok: nat, err: nat, last_err: Seq<char>) -> Seq<char> {
    if err == 0 {
        "貼り付け完了: "@ + text::decimal(ok) + " 件"@
    } else {
        "貼り付け: 成功 "@ + text::decimal(ok) + ", 失敗 "@ + text::decimal(err) + " — "@ + last_err
    }
}

/// The counts a paste keeps while it works through its items.
#[derive(Debug, Clone)]
pub struct PasteTally {
    pub ok: usize,
    pub err: usize,
    /// The message of the latest failure (empty before any).
    pub last_err: String,
}

impl PasteTally {
    /// No item handled yet.
    pub fn new() -> (r: Self)
        ensures
            r.ok == 0,
            r.err == 0,
            r.last_err@ == Seq::<char>::empty(),
    {
        PasteTally { ok: 0, err: 0, last_err: String::new() }
    }

    /// Counts the outcome of one item: a success, or a failure whose
    /// message becomes the latest.
    pub fn record(&mut self, outcome: Result<(), String>)
        requires
            old(self).ok + old(self).err < usize::MAX,
        ensures
            outcome is Ok ==> final(self).ok == old(self).ok + 1 && final(self).err == old(self).err
                && final(self).last_err@ == old(self).last_err@,
            outcome matches Err(m) ==> final(self).ok == old(self).ok && final(self).err == old(
                self,
            ).err + 1 && final(self).last_err@ == m@,
    {
        match outcome {
            Ok(()) => {
                self.ok = self.ok + 1;
            },
            Err(m) => {
                self.err = self.err + 1;
                self.last_err = m;
            },
        }
    }

    /// The message shown when the paste ends (see [`paste_message`]).
    pub fn message(&self) -> (r: String)
        ensures
            r@ == paste_message(self.ok as nat, self.err as nat, self.last_err@),
    {
        if self.err == 0 {
            let mut s = to_string("貼り付け完了: ");
            push_decimal(&mut s, self.ok as u64);
            push_str(&mut s, " 件");
            s
        } else {
            let mut s = to_string("貼り付け: 成功 ");
            push_decimal(&mut s, self.ok as u64);
            push_str(&mut s, ", 失敗 ");
            push_decimal(&mut s, self.err as u64);
            push_str(&mut s, " — ");
            push_str(&mut s, self.last_err.as_str());
            proof {
                assert(s@ =~= paste_message(self.ok as nat, self.err as nat, self.last_err@));
            }
            s
        }
    }

    /// The event that reports the finished paste.
    pub fn finish(self) -> (r: BgEvent)
        ensures
            r matches BgEvent::PasteDone { ok, err, message } && ok == self.ok && err == self.err
                && message@ == paste_message(self.ok as nat, self.err as nat, self.last_err@),
    {
        let message = self.message();
        BgEvent::PasteDone { ok: self.ok, err: self.err, message }
    }
}

/// The status shown when a search ends.
pub open spec fn search_status_text(n: nat) -> Seq<char> {
    "検索結果: "@ + text::decimal(n) + " 件"@
}

/// The status shown when a search ends with `n` results.
pub fn search_status(n: usize) -> (r: String)
    ensures
        r@ == search_status_text(n as nat),
{
    let mut s = to_string("検索結果: ");
    push_decimal(&mut s, n as u64);
    push_str(&mut s, " 件");
    s
}

/// Which background listing is the latest: every request gets a new
/// generation number, and only the answer carrying the latest one is
/// applied, so a slow answer to an older request never overwrites newer
/// state.
#[derive(Debug, Clone, Copy, PartialEq, Eq, Structural)]
pub struct Generations {
    /// The generation of the latest request.
    pub latest: u64,
    /// Whether the latest request is still unanswered.
    pub waiting: bool,
}

impl Generations {
    /// No request yet.
    pub fn new() -> (r: Self)
        ensures
            r.latest == 0,
            !r.waiting,
    {
        Generations { latest: 0, waiting: false }
    }

    /// Starts a new request and returns its generation, one more than the
    /// previous one.
    pub fn request(&mut self) -> (g: u64)
        requires
            old(self).latest < u64::MAX,
        ensures
            g == old(self).latest + 1,
            final(self).latest == g,
            final(self).waiting,
    {
        self.latest = self.latest + 1;
        self.waiting = true;
        self.latest
    }

    /// An answer of generation `g` arrived: it is applied exactly when it
    /// answers the latest request, which then stops waiting.
    pub fn accept(&mut self, g: u64) -> (r: bool)
        ensures
            r == applies(*old(self), g),
            final(self).latest == old(self).latest,
            final(self).waiting == (old(self).waiting && !r),
    {
        if g == self.latest {
            self.waiting = false;
            true
        } else {
            false
        }
    }
}

/// An answer is applied exactly when it carries the latest generation.
pub open spec fn applies(t: Generations, g: u64) -> bool {
    g == t.latest
}

/// Stale answers never overwrite newer state: once a later request has been
/// made, an answer to an earlier one is dropped, however late it arrives and
/// whatever was answered in between.
pub proof fn stale_answers_are_dropped(t: Generations, earlier: u64)
    requires
        earlier < t.latest,
    ensures
        !applies(t, earlier),
{
}

/// Search results are shown only while the search box still holds, as it
/// stands, the query they were computed for.
pub fn search_is_current(result_query: &str, current_query: &str) -> (r: bool)
    ensures
        r == (result_query@ == current_query@),
{
    text::str_eq(result_query, current_query)
}

} // verus!
