//! The row of tabs of a window: there is always at least one, and the
//! active one always exists.

use vstd::prelude::*;
use crate::paths;
use crate::tab::Tab;
use crate::text::to_string;

verus! {

/// The tabs of a window and which one is active.
pub struct TabStrip {
    pub tabs: Vec<Tab>,
    pub active: usize,
}

/// The title of a tab: the name of its directory, or the whole path when
/// it has none (a root).
pub open spec fn tab_title(current: Seq<char>, sep: char) -> Seq<char> {
    match paths::file_name(current, sep) {
        Some(n) => n,
        None => current,
    }
}

/// The title of a tab showing `current` (see [`tab_title`]).
pub fn title_of(current: &str, sep: char) -> (r: String)
    ensures
        r@ == tab_title(current@, sep),
{
    match paths::file_name_of(current, sep) {
        Some(n) => n,
        None => to_string(current),
    }
}

/// A fresh tab on the same directory with the same settings, listed anew:
/// no history, rows or selection.
fn fresh_copy(t: &Tab) -> (r: Tab)
    ensures
        r@.current == t@.current,
        r@.entries.len() == 0,
        r@.selected.is_empty(),
        r@.back.len() == 0,
        r@.forward.len() == 0,
        r@.show_hidden == t@.show_hidden,
        r@.sort_by == t@.sort_by,
        r@.sort_desc == t@.sort_desc,
{
    Tab::new(t.current.clone(), t.show_hidden, t.sort_by, t.sort_desc)
}

impl TabStrip {
    /// At least one tab, and the active one exists.
    pub open spec fn wf(&self) -> bool {
        self.tabs@.len() >= 1 && self.active < self.tabs@.len()
    }

    /// A window with the one tab `first`, active.
    pub fn new(first: Tab) -> (r: Self)
        ensures
            r.wf(),
            r.tabs@ == seq![first],
            r.active == 0,
    {
        let mut tabs: Vec<Tab> = Vec::new();
        tabs.push(first);
        TabStrip { tabs, active: 0 }
    }

    /// The active tab.
    pub fn current(&self) -> (r: &Tab)
        requires
            self.wf(),
        ensures
            *r == self.tabs@[self.active as int],
    {
        &self.tabs[self.active]
    }

    /// Opens `t` after the others and makes it active.
    pub fn open(&mut self, t: Tab)
        requires
            old(self).wf(),
        ensures
            final(self).wf(),
            final(self).tabs@ == old(self).tabs@.push(t),
            final(self).active == old(self).tabs@.len(),
    {
        self.tabs.push(t);
        self.active = self.tabs.len() - 1;
    }

    /// Makes tab `i` active when it exists.
    pub fn switch_to(&mut self, i: usize) -> (r: bool)
        requires
            old(self).wf(),
        ensures
            final(self).wf(),
            r == (i < old(self).tabs@.len()),
            final(self).tabs@ == old(self).tabs@,
            final(self).active == if r {
                i
            } else {
                old(self).active
            },
    {
        if i < self.tabs.len() {
            self.active = i;
            true
        } else {
            false
        }
    }

    /// Closes tab `i` unless it is the last one left: the tabs after it move
    /// up one place, and when the active index no longer exists the last tab
    /// becomes active.
    pub fn close(&mut self, i: usize) -> (r: bool)
        requires
            old(self).wf(),
        ensures
            final(self).wf(),
            r == (i < old(self).tabs@.len() && old(self).tabs@.len() > 1),
            r ==> final(self).tabs@ == old(self).tabs@.remove(i as int),
            r ==> final(self).active == if old(self).active >= old(self).tabs@.len() - 1 {
                (old(self).tabs@.len() - 2) as usize
            } else {
                old(self).active
            },
            !r ==> final(self).tabs@ == old(self).tabs@ && final(self).active == old(self).active,
    {
        if i >= self.tabs.len() || self.tabs.len() <= 1 {
            return false;
        }
        let _closed = self.tabs.remove(i);
        if self.active >= self.tabs.len() {
            self.active = self.tabs.len() - 1;
        }
        true
    }

    /// Opens a fresh copy of tab `i` (same directory and settings) after the
    /// others, leaving the active tab as it is.
    pub fn duplicate(&mut self, i: usize) -> (r: bool)
        requires
            old(self).wf(),
        ensures
            final(self).wf(),
            r == (i < old(self).tabs@.len()),
            r ==> final(self).tabs@.len() == old(self).tabs@.len() + 1 && final(self).tabs@.take(
                old(self).tabs@.len() as int,
            ) == old(self).tabs@ && final(self).tabs@.last()@.current == old(self).tabs@[i as int]@.current
                && final(self).tabs@.last()@.back.len() == 0,
            !r ==> final(self).tabs@ == old(self).tabs@,
            final(self).active == old(self).active,
    {
        if i >= self.tabs.len() {
            return false;
        }
        let t = fresh_copy(&self.tabs[i]);
        let ghost before = self.tabs@;
        self.tabs.push(t);
        proof {
            assert(self.tabs@.take(before.len() as int) =~= before);
        }
        true
    }

    /// Closes every tab but `i`, which stays as a fresh copy (same directory
    /// and settings, no history) and becomes active.
    pub fn keep_only(&mut self, i: usize) -> (r: bool)
        requires
            old(self).wf(),
        ensures
            final(self).wf(),
            r == (i < old(self).tabs@.len()),
            r ==> final(self).tabs@.len() == 1 && final(self).active == 0 && final(self).tabs@[0]@.current
                == old(self).tabs@[i as int]@.current && final(self).tabs@[0]@.back.len() == 0,
            !r ==> final(self).tabs@ == old(self).tabs@ && final(self).active == old(self).active,
    {
        if i >= self.tabs.len() {
            return false;
        }
        let t = fresh_copy(&self.tabs[i]);
        let mut tabs: Vec<Tab> = Vec::new();
        tabs.push(t);
        self.tabs = tabs;
        self.active = 0;
        true
    }
}

} // verus!
