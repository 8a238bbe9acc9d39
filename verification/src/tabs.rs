use vstd::prelude::*;
use crate::path::Path;
use crate::tab::{fresh_tab, Tab, TabM};

verus! {

/// The ordered collection of tabs and the index of the active one. It never
/// shrinks below one tab: closing the last tab is refused here and handled by
/// the quit flow instead.
pub struct Tabs {
    pub items: Vec<Tab>,
    pub idx: usize,
}

/// The abstract value of a tab collection.
pub open spec fn tabs_view(v: Seq<Tab>) -> Seq<TabM> {
    Seq::new(v.len(), |i: int| v[i].m())
}

/// The active index after the tab at `i` is removed: indices above the
/// removed slot shift down, and the index is clamped to the new length; so
/// closing the active tab moves to the tab that shifts into its slot, or to
/// the new last tab.
pub open spec fn idx_after_close(idx: int, i: int, new_len: int) -> int {
    if idx > i {
        idx - 1
    } else if idx >= new_len {
        new_len - 1
    } else {
        idx
    }
}

impl Tabs {
    pub open spec fn m(&self) -> Seq<TabM> {
        tabs_view(self.items@)
    }

    pub open spec fn wf(&self) -> bool {
        &&& self.items@.len() >= 1
        &&& self.idx < self.items@.len()
        &&& forall|i: int| 0 <= i < self.m().len() ==> (#[trigger] self.m()[i]).wf()
    }

    /// A collection of one fresh tab at the given directory.
    pub fn new(path: &Path) -> (r: Tabs)
        ensures
            r.wf(),
            r.m() == seq![fresh_tab(path@)],
            r.idx == 0,
    {
        let t = Tab::new(path);
        let mut items: Vec<Tab> = Vec::new();
        items.push(t);
        let r = Tabs { items, idx: 0 };
        proof {
            assert(r.m() =~= seq![fresh_tab(path@)]);
        }
        r
    }

    /// The number of tabs.
    pub fn len(&self) -> (r: usize)
        ensures
            r == self.m().len(),
    {
        self.items.len()
    }

    /// The index of the active tab.
    pub fn idx(&self) -> (r: usize)
        ensures
            r == self.idx,
    {
        self.idx
    }

    /// The active tab.
    pub fn active(&self) -> (t: &Tab)
        requires
            self.wf(),
        ensures
            *t == self.items@[self.idx as int],
            t.m() == self.m()[self.idx as int],
    {
        &self.items[self.idx]
    }

    /// The active tab, for mutation.
    pub fn active_mut(&mut self) -> (t: &mut Tab)
        requires
            old(self).wf(),
        ensures
            *t == old(self).items@[old(self).idx as int],
            final(self).items@ == old(self).items@.update(old(self).idx as int, *final(t)),
            final(self).idx == old(self).idx,
    {
        let i = self.idx;
        &mut self.items[i]
    }

    /// Makes the tab at `i` active. Nothing changes for an index out of range
    /// or already active.
    pub fn switch(&mut self, i: usize) -> (r: bool)
        requires
            old(self).wf(),
        ensures
            final(self).wf(),
            final(self).items == old(self).items,
            r == (i < old(self).m().len() && i != old(self).idx),
            r ==> final(self).idx == i,
            !r ==> final(self).idx == old(self).idx,
    {
        if i < self.items.len() && i != self.idx {
            self.idx = i;
            true
        } else {
            false
        }
    }

    /// Opens a fresh tab at the given directory just after the active tab,
    /// and makes it active.
    pub fn open(&mut self, path: &Path) -> (r: bool)
        requires
            old(self).wf(),
        ensures
            final(self).wf(),
            final(self).m() == old(self).m().insert(old(self).idx + 1, fresh_tab(path@)),
            final(self).idx == old(self).idx + 1,
            r == true,
    {
        let t = Tab::new(path);
        let n: usize = self.items.len();
        proof {
            assert(self.idx < n);
        }
        let at = self.idx + 1;
        self.items.insert(at, t);
        self.idx = at;
        proof {
            assert(self.m() =~= old(self).m().insert(old(self).idx + 1, fresh_tab(path@)));
        }
        true
    }

    /// Opens a copy of the active tab just after it, and makes the copy
    /// active.
    pub fn duplicate(&mut self) -> (r: bool)
        requires
            old(self).wf(),
        ensures
            final(self).wf(),
            final(self).m() == old(self).m().insert(
                old(self).idx + 1,
                old(self).m()[old(self).idx as int],
            ),
            final(self).idx == old(self).idx + 1,
            r == true,
    {
        let t = self.items[self.idx].dup();
        let n: usize = self.items.len();
        proof {
            assert(self.idx < n);
        }
        let at = self.idx + 1;
        self.items.insert(at, t);
        self.idx = at;
        proof {
            assert(self.m() =~= old(self).m().insert(
                old(self).idx + 1,
                old(self).m()[old(self).idx as int],
            ));
        }
        true
    }

    /// Closes the tab at `i` and re-aims the active index. Refused when only
    /// one tab remains, or for an index out of range.
    pub fn close(&mut self, i: usize) -> (r: bool)
        requires
            old(self).wf(),
        ensures
            final(self).wf(),
            r == (old(self).m().len() > 1 && i < old(self).m().len()),
            !r ==> final(self).items == old(self).items && final(self).idx == old(self).idx,
            r ==> final(self).m() == old(self).m().remove(i as int) && final(self).idx
                == idx_after_close(old(self).idx as int, i as int, old(self).m().len() - 1),
    {
        if self.items.len() <= 1 || i >= self.items.len() {
            return false;
        }
        self.items.remove(i);
        if self.idx > i {
            self.idx = self.idx - 1;
        } else if self.idx >= self.items.len() {
            self.idx = self.items.len() - 1;
        }
        proof {
            assert(self.m() =~= old(self).m().remove(i as int));
        }
        true
    }
}

} // verus!
