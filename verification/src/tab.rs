use vstd::prelude::*;
use crate::file::FilesOp;
use crate::folder::{folder_update, Folder, FolderM};
use crate::file::files_view;
use crate::path::Path;
use crate::preview::{PreviewM, PreviewSlot};

verus! {

/// One independent navigation context: the current directory's folder, its
/// parent's folder (absent only at the filesystem root), the archive of
/// previously visited folders, and the preview slot.
pub struct Tab {
    pub current: Folder,
    pub parent: Option<Folder>,
    pub history: Vec<Folder>,
    pub preview: PreviewSlot,
}

/// The abstract value of a `Tab`.
#[verifier::ext_equal]
pub ghost struct TabM {
    pub current: FolderM,
    pub parent: Option<FolderM>,
    pub history: Seq<FolderM>,
    pub preview: PreviewM,
}

/// The abstract value of an archive.
pub open spec fn folders_view(v: Seq<Folder>) -> Seq<FolderM> {
    Seq::new(v.len(), |i: int| v[i].m())
}

/// The first archive index whose folder is rooted at the given path.
pub open spec fn hist_index(h: Seq<FolderM>, p: Seq<Seq<char>>) -> Option<int>
    decreases h.len(),
{
    if h.len() == 0 {
        None
    } else if h[0].cwd == p {
        Some(0)
    } else {
        match hist_index(h.skip(1), p) {
            Some(i) => Some(i + 1),
            None => None::<int>,
        }
    }
}

/// `hist_index` yields the least matching index, exactly when the archive
/// holds a folder for the path.
pub proof fn lemma_hist_index(h: Seq<FolderM>, p: Seq<Seq<char>>)
    ensures
        match hist_index(h, p) {
            Some(i) => 0 <= i < h.len() && h[i].cwd == p && (forall|j: int|
                0 <= j < i ==> h[j].cwd != p),
            None => forall|j: int| 0 <= j < h.len() ==> h[j].cwd != p,
        },
    decreases h.len(),
{
    if h.len() == 0 {
    } else if h[0].cwd == p {
    } else {
        lemma_hist_index(h.skip(1), p);
        assert(forall|j: int| 1 <= j < h.len() ==> h[j] == h.skip(1)[j - 1]);
    }
}

/// An empty, non-search folder at the given path.
pub open spec fn empty_folder(cwd: Seq<Seq<char>>) -> FolderM {
    FolderM {
        cwd,
        files: Seq::empty(),
        hovered: None,
        selected: Seq::empty(),
        in_search: false,
    }
}

/// An empty synthetic search listing rooted at the given path.
pub open spec fn empty_search_folder(cwd: Seq<Seq<char>>) -> FolderM {
    FolderM {
        cwd,
        files: Seq::empty(),
        hovered: None,
        selected: Seq::empty(),
        in_search: true,
    }
}

/// The tab that navigation opens at a directory: empty listings for it and
/// for its parent, no archive, nothing previewed.
pub open spec fn fresh_tab(p: Seq<Seq<char>>) -> TabM {
    TabM {
        current: empty_folder(p),
        parent: if p.len() == 0 {
            None
        } else {
            Some(empty_folder(p.drop_last()))
        },
        history: Seq::empty(),
        preview: crate::preview::empty_preview(),
    }
}

/// Backing out of the current directory: the parent folder becomes current,
/// and the new parent is taken from the archive when one is archived for that
/// path, else created empty. A tab at the root stays put.
pub open spec fn tab_leave(t: TabM) -> TabM {
    match t.parent {
        None => t,
        Some(p) => {
            let base = TabM { current: p, parent: None, history: t.history, preview: t.preview };
            if p.cwd.len() == 0 {
                base
            } else {
                match hist_index(t.history, p.cwd.drop_last()) {
                    Some(k) => TabM {
                        parent: Some(t.history[k]),
                        history: t.history.remove(k),
                        ..base
                    },
                    None => TabM { parent: Some(empty_folder(p.cwd.drop_last())), ..base },
                }
            }
        },
    }
}

impl TabM {
    pub open spec fn wf(&self) -> bool {
        &&& self.current.wf()
        &&& (self.parent matches Some(p) ==> p.wf() && !p.in_search)
        &&& (!self.current.in_search ==> {
            if self.current.cwd.len() == 0 {
                self.parent is None
            } else {
                self.parent matches Some(p) && p.cwd == self.current.cwd.drop_last()
            }
        })
        &&& (forall|i: int| 0 <= i < self.history.len() ==> (#[trigger] self.history[i]).wf()
            && !self.history[i].in_search)
        &&& (forall|i: int, j: int| 0 <= i < j < self.history.len()
            ==> (#[trigger] self.history[i]).cwd != (#[trigger] self.history[j]).cwd)
    }
}

/// Finds the first folder of the list rooted at the given path.
pub fn folder_position(v: &Vec<Folder>, p: &Path) -> (r: Option<usize>)
    ensures
        match r {
            Some(i) => hist_index(folders_view(v@), p@) == Some(i as int),
            None => hist_index(folders_view(v@), p@) is None,
        },
{
    proof {
        lemma_hist_index(folders_view(v@), p@);
    }
    let mut i: usize = 0;
    while i < v.len()
        invariant
            i <= v.len(),
            forall|j: int| 0 <= j < i ==> folders_view(v@)[j].cwd != p@,
            match hist_index(folders_view(v@), p@) {
                Some(k) => 0 <= k < v@.len() && folders_view(v@)[k].cwd == p@ && (forall|j: int|
                    0 <= j < k ==> folders_view(v@)[j].cwd != p@),
                None => forall|j: int| 0 <= j < v@.len() ==> folders_view(v@)[j].cwd != p@,
            },
        decreases v.len() - i,
    {
        if v[i].cwd.eq_path(p) {
            proof {
                assert(folders_view(v@)[i as int].cwd == p@);
                let k = hist_index(folders_view(v@), p@).unwrap();
                assert(!(k < i) && !(i < k));
            }
            return Some(i);
        }
        i = i + 1;
    }
    None
}

impl Tab {
    pub open spec fn m(&self) -> TabM {
        TabM {
            current: self.current.m(),
            parent: match self.parent {
                Some(p) => Some(p.m()),
                None => None,
            },
            history: folders_view(self.history@),
            preview: self.preview.m(),
        }
    }

    pub open spec fn wf(&self) -> bool {
        self.m().wf()
    }

    /// A fresh tab at the given directory, with an empty listing for it and
    /// for its parent, no archive, and an empty preview.
    pub fn new(path: &Path) -> (r: Tab)
        ensures
            r.m() == fresh_tab(path@),
            r.wf(),
    {
        let parent = match path.parent() {
            Some(pp) => Some(Folder::new(&pp)),
            None => None,
        };
        let r = Tab {
            current: Folder::new(path),
            parent,
            history: Vec::new(),
            preview: PreviewSlot::new(),
        };
        proof {
            assert(r.m().current =~= empty_folder(path@));
            if path@.len() > 0 {
                assert(r.m().parent.unwrap() =~= empty_folder(path@.drop_last()));
            }
            assert(r.m().history =~= Seq::<FolderM>::empty());
            assert(r.m() =~= fresh_tab(path@));
        }
        r
    }

    /// Whether the archive holds a folder for the given path.
    pub fn history_contains(&self, p: &Path) -> (r: bool)
        ensures
            r == (hist_index(self.m().history, p@) is Some),
    {
        folder_position(&self.history, p).is_some()
    }

    /// Applies a listing to the archived folder for `op.path`, creating an
    /// empty archive entry first when none exists.
    pub fn history_update(&mut self, op: FilesOp)
        requires
            old(self).wf(),
        ensures
            final(self).wf(),
            final(self).m() == (TabM {
                history: match hist_index(old(self).m().history, op.path@) {
                    Some(k) => old(self).m().history.update(
                        k,
                        folder_update(old(self).m().history[k], files_view(op.files@)),
                    ),
                    None => old(self).m().history.push(
                        folder_update(empty_folder(op.path@), files_view(op.files@)),
                    ),
                },
                ..old(self).m()
            }),
    {
        proof {
            lemma_hist_index(self.m().history, op.path@);
        }
        match folder_position(&self.history, &op.path) {
            Some(k) => {
                let mut f = self.history.remove(k);
                f.update(op);
                self.history.insert(k, f);
                proof {
                    assert(folders_view(self.history@) =~= old(self).m().history.update(
                        k as int,
                        folder_update(old(self).m().history[k as int], files_view(op.files@)),
                    ));
                    assert(self.m() =~= (TabM {
                        history: folders_view(self.history@),
                        ..old(self).m()
                    }));
                }
            },
            None => {
                let mut f = Folder::new(&op.path);
                proof {
                    assert(f.m() =~= empty_folder(op.path@));
                }
                f.update(op);
                self.history.push(f);
                proof {
                    assert(folders_view(self.history@) =~= old(self).m().history.push(
                        folder_update(empty_folder(op.path@), files_view(op.files@)),
                    ));
                    assert(self.m() =~= (TabM {
                        history: folders_view(self.history@),
                        ..old(self).m()
                    }));
                }
            },
        }
    }

    /// Archives a folder under its own path, replacing any archived folder
    /// with the same path.
    pub fn history_insert(&mut self, f: Folder)
        requires
            old(self).wf(),
            f.wf(),
            !f.m().in_search,
        ensures
            final(self).wf(),
            final(self).m() == (TabM {
                history: match hist_index(old(self).m().history, f.m().cwd) {
                    Some(k) => old(self).m().history.update(k, f.m()),
                    None => old(self).m().history.push(f.m()),
                },
                ..old(self).m()
            }),
    {
        proof {
            lemma_hist_index(self.m().history, f.m().cwd);
        }
        match folder_position(&self.history, &f.cwd) {
            Some(k) => {
                self.history.remove(k);
                self.history.insert(k, f);
                proof {
                    assert(self.m() =~= (TabM {
                        history: old(self).m().history.update(k as int, f.m()),
                        ..old(self).m()
                    }));
                }
            },
            None => {
                self.history.push(f);
                proof {
                    assert(self.m() =~= (TabM {
                        history: old(self).m().history.push(f.m()),
                        ..old(self).m()
                    }));
                }
            },
        }
    }

    /// Backs the tab out of a directory that no longer exists: the parent
    /// folder becomes current, and a new parent is taken from the archive, or
    /// created empty. At the root nothing happens.
    pub fn leave(&mut self) -> (r: bool)
        requires
            old(self).wf(),
        ensures
            final(self).wf(),
            final(self).m() == tab_leave(old(self).m()),
            r == (old(self).m().parent is Some),
    {
        let par = self.parent.take();
        match par {
            None => {
                proof {
                    assert(self.m() =~= old(self).m());
                }
                false
            },
            Some(p) => {
                self.current = p;
                match self.current.cwd.parent() {
                    None => {
                        self.parent = None;
                        proof {
                            assert(self.m().history =~= old(self).m().history);
                        }
                    },
                    Some(pp) => {
                        proof {
                            lemma_hist_index(folders_view(self.history@), pp@);
                        }
                        match folder_position(&self.history, &pp) {
                            Some(k) => {
                                let f = self.history.remove(k);
                                self.parent = Some(f);
                                proof {
                                    assert(self.m().history =~= old(self).m().history.remove(
                                        k as int,
                                    ));
                                }
                            },
                            None => {
                                let f = Folder::new(&pp);
                                proof {
                                    assert(f.m() =~= empty_folder(pp@));
                                }
                                self.parent = Some(f);
                                proof {
                                    assert(self.m().history =~= old(self).m().history);
                                }
                            },
                        }
                    },
                }
                proof {
                    assert(self.m() =~= tab_leave(old(self).m()));
                }
                true
            },
        }
    }

    /// An independent copy of the tab.
    pub fn dup(&self) -> (r: Tab)
        ensures
            r.m() == self.m(),
    {
        let mut hist: Vec<Folder> = Vec::new();
        let mut i: usize = 0;
        while i < self.history.len()
            invariant
                i <= self.history.len(),
                hist@.len() == i,
                forall|j: int| 0 <= j < i ==> hist@[j].m() == self.history@[j].m(),
            decreases self.history.len() - i,
        {
            hist.push(self.history[i].dup());
            i = i + 1;
        }
        let r = Tab {
            current: self.current.dup(),
            parent: match &self.parent {
                Some(p) => Some(p.dup()),
                None => None,
            },
            history: hist,
            preview: self.preview.dup(),
        };
        proof {
            assert(r.m().history =~= self.m().history);
            assert(r.m() =~= self.m());
        }
        r
    }
}

} // verus!
