use vstd::prelude::*;
use crate::file::{contains_path, index_of_path, files_view, lemma_index_of_path, position_of, File,
    FileM, FilesOp};
use crate::path::{paths_view, Path};

verus! {

/// One directory's materialized listing, with the navigation cursor and the
/// multi-select set. `in_search` marks a synthetic search-result listing.
pub struct Folder {
    pub cwd: Path,
    pub files: Vec<File>,
    pub hovered: Option<usize>,
    pub selected: Vec<Path>,
    pub in_search: bool,
}

/// The abstract value of a `Folder`. The cursor is the index of the hovered
/// entry.
#[verifier::ext_equal]
pub ghost struct FolderM {
    pub cwd: Seq<Seq<char>>,
    pub files: Seq<FileM>,
    pub hovered: Option<int>,
    pub selected: Seq<Seq<Seq<char>>>,
    pub in_search: bool,
}

impl FolderM {
    pub open spec fn wf(&self) -> bool {
        match self.hovered {
            Some(i) => 0 <= i < self.files.len(),
            None => true,
        }
    }

    /// The path of the hovered entry, if any.
    pub open spec fn hovered_path(&self) -> Option<Seq<Seq<char>>> {
        match self.hovered {
            Some(i) => Some(self.files[i].path),
            None => None,
        }
    }

    /// The hovered entry itself, if any.
    pub open spec fn hovered_file(&self) -> Option<FileM> {
        match self.hovered {
            Some(i) => Some(self.files[i]),
            None => None,
        }
    }
}

/// The cursor after a listing replaces the old one: an entry with the
/// previously hovered path keeps the cursor (identity by path); otherwise the
/// cursor falls to the old index if still present, else to the last entry,
/// else to nothing. A folder that hovered nothing hovers the first entry.
pub open spec fn hover_after(old_files: Seq<FileM>, old_h: Option<int>, new_files: Seq<FileM>)
    -> Option<int> {
    match old_h {
        Some(i) => {
            match index_of_path(new_files, old_files[i].path) {
                Some(j) => Some(j),
                None => if i < new_files.len() {
                    Some(i)
                } else if new_files.len() > 0 {
                    Some(new_files.len() - 1)
                } else {
                    None
                },
            }
        }
        None => if new_files.len() > 0 {
            Some(0int)
        } else {
            None
        },
    }
}

/// The first index of the multi-select set holding the given path.
pub open spec fn sel_index(sel: Seq<Seq<Seq<char>>>, p: Seq<Seq<char>>) -> Option<int>
    decreases sel.len(),
{
    if sel.len() == 0 {
        None
    } else if sel[0] == p {
        Some(0)
    } else {
        match sel_index(sel.skip(1), p) {
            Some(i) => Some(i + 1),
            None => None::<int>,
        }
    }
}

/// `sel_index` yields the least matching index, exactly when the set holds
/// the path.
pub proof fn lemma_sel_index(sel: Seq<Seq<Seq<char>>>, p: Seq<Seq<char>>)
    ensures
        match sel_index(sel, p) {
            Some(i) => 0 <= i < sel.len() && sel[i] == p && (forall|j: int|
                0 <= j < i ==> sel[j] != p),
            None => forall|j: int| 0 <= j < sel.len() ==> sel[j] != p,
        },
    decreases sel.len(),
{
    if sel.len() == 0 {
    } else if sel[0] == p {
    } else {
        lemma_sel_index(sel.skip(1), p);
        assert(forall|j: int| 1 <= j < sel.len() ==> sel[j] == sel.skip(1)[j - 1]);
    }
}

/// A full listing replacement, with the cursor re-validated.
pub open spec fn folder_update(f: FolderM, files: Seq<FileM>) -> FolderM {
    FolderM { files, hovered: hover_after(f.files, f.hovered, files), ..f }
}

/// Moving the cursor to the entry with the given path; nothing moves when the
/// listing has no such entry.
pub open spec fn folder_rehover(f: FolderM, p: Seq<Seq<char>>) -> FolderM {
    match index_of_path(f.files, p) {
        Some(j) => FolderM { hovered: Some(j), ..f },
        None => f,
    }
}

impl Folder {
    pub open spec fn m(&self) -> FolderM {
        FolderM {
            cwd: self.cwd@,
            files: files_view(self.files@),
            hovered: match self.hovered {
                Some(i) => Some(i as int),
                None => None,
            },
            selected: paths_view(self.selected@),
            in_search: self.in_search,
        }
    }

    pub open spec fn wf(&self) -> bool {
        self.m().wf()
    }

    /// An empty listing for the given directory.
    pub fn new(path: &Path) -> (r: Folder)
        ensures
            r.m() =~= (FolderM {
                cwd: path@,
                files: Seq::empty(),
                hovered: None,
                selected: Seq::empty(),
                in_search: false,
            }),
            r.wf(),
    {
        Folder {
            cwd: path.dup(),
            files: Vec::new(),
            hovered: None,
            selected: Vec::new(),
            in_search: false,
        }
    }

    /// An empty synthetic search listing rooted at the given directory.
    pub fn new_search(path: &Path) -> (r: Folder)
        ensures
            r.m() =~= (FolderM {
                cwd: path@,
                files: Seq::empty(),
                hovered: None,
                selected: Seq::empty(),
                in_search: true,
            }),
            r.wf(),
    {
        Folder {
            cwd: path.dup(),
            files: Vec::new(),
            hovered: None,
            selected: Vec::new(),
            in_search: true,
        }
    }

    /// Replaces the listing with the entries of `op` and re-validates the
    /// cursor.
    pub fn update(&mut self, op: FilesOp) -> (r: bool)
        requires
            old(self).wf(),
        ensures
            final(self).m() == folder_update(old(self).m(), files_view(op.files@)),
            final(self).wf(),
            r == true,
    {
        let new_h: Option<usize> = match self.hovered {
            Some(i) => {
                match position_of(&op.files, &self.files[i].path) {
                    Some(j) => Some(j),
                    None => {
                        proof {
                            lemma_index_of_path(files_view(op.files@), self.files@[i as int].path@);
                        }
                        if i < op.files.len() {
                            Some(i)
                        } else if op.files.len() > 0 {
                            Some(op.files.len() - 1)
                        } else {
                            None
                        }
                    },
                }
            },
            None => if op.files.len() > 0 {
                Some(0)
            } else {
                None
            },
        };
        proof {
            if self.hovered is Some {
                let i = self.hovered.unwrap();
                lemma_index_of_path(files_view(op.files@), files_view(self.files@)[i as int].path);
            }
        }
        self.files = op.files;
        self.hovered = new_h;
        proof {
            assert(self.m() =~= folder_update(old(self).m(), files_view(self.files@)));
        }
        true
    }

    /// Moves the cursor to the entry with the given path, if present. Reports
    /// whether the cursor moved.
    pub fn hover(&mut self, p: &Path) -> (r: bool)
        requires
            old(self).wf(),
        ensures
            final(self).m() == folder_rehover(old(self).m(), p@),
            final(self).wf(),
            r == (final(self).m().hovered != old(self).m().hovered),
    {
        match position_of(&self.files, p) {
            Some(j) => {
                let changed = match self.hovered {
                    Some(i) => i != j,
                    None => true,
                };
                self.hovered = Some(j);
                proof {
                    lemma_index_of_path(files_view(self.files@), p@);
                    assert(self.m() =~= folder_rehover(old(self).m(), p@));
                }
                changed
            },
            None => {
                proof {
                    assert(self.m() =~= folder_rehover(old(self).m(), p@));
                }
                false
            },
        }
    }

    /// Whether the multi-select set is non-empty.
    pub fn has_selected(&self) -> (r: bool)
        ensures
            r == (self.m().selected.len() > 0),
    {
        self.selected.len() > 0
    }

    /// Adds the given path to the multi-select set, or removes it when
    /// already selected. Reports whether the set now holds it.
    pub fn toggle_select(&mut self, p: &Path) -> (r: bool)
        ensures
            final(self).m() == (match sel_index(old(self).m().selected, p@) {
                Some(k) => (FolderM { selected: old(self).m().selected.remove(k), ..old(self).m() }),
                None => (FolderM { selected: old(self).m().selected.push(p@), ..old(self).m() }),
            }),
            final(self).wf() == old(self).wf(),
            r == (sel_index(old(self).m().selected, p@) is None),
    {
        proof {
            lemma_sel_index(self.m().selected, p@);
        }
        let mut i: usize = 0;
        while i < self.selected.len()
            invariant
                *self == *old(self),
                i <= self.selected.len(),
                forall|j: int| 0 <= j < i ==> paths_view(self.selected@)[j] != p@,
            decreases self.selected.len() - i,
        {
            if self.selected[i].eq_path(p) {
                proof {
                    lemma_sel_index(old(self).m().selected, p@);
                    assert(paths_view(self.selected@)[i as int] == p@);
                    let k = sel_index(old(self).m().selected, p@).unwrap();
                    assert(!(k < i) && !(i < k));
                }
                self.selected.remove(i);
                proof {
                    assert(self.m() =~= (FolderM {
                        selected: old(self).m().selected.remove(i as int),
                        ..old(self).m()
                    }));
                }
                return false;
            }
            i = i + 1;
        }
        proof {
            lemma_sel_index(old(self).m().selected, p@);
            if sel_index(old(self).m().selected, p@) is Some {
                let k = sel_index(old(self).m().selected, p@).unwrap();
                assert(paths_view(self.selected@)[k] != p@);
            }
        }
        self.selected.push(p.dup());
        proof {
            assert(self.m() =~= (FolderM {
                selected: old(self).m().selected.push(p@),
                ..old(self).m()
            }));
        }
        true
    }

    /// An independent copy of the folder.
    pub fn dup(&self) -> (r: Folder)
        ensures
            r.m() == self.m(),
    {
        let mut fs: Vec<File> = Vec::new();
        let mut i: usize = 0;
        while i < self.files.len()
            invariant
                i <= self.files.len(),
                fs@.len() == i,
                forall|j: int| 0 <= j < i ==> fs@[j].m() == self.files@[j].m(),
            decreases self.files.len() - i,
        {
            fs.push(self.files[i].dup());
            i = i + 1;
        }
        let r = Folder {
            cwd: self.cwd.dup(),
            files: fs,
            hovered: self.hovered,
            selected: crate::path::dup_paths(&self.selected),
            in_search: self.in_search,
        };
        proof {
            assert(r.m() =~= self.m());
        }
        r
    }
}

/// A run of listing replacements applied to one folder, oldest first.
pub open spec fn folder_after_reads(f: FolderM, listings: Seq<Seq<FileM>>) -> FolderM
    decreases listings.len(),
{
    if listings.len() == 0 {
        f
    } else {
        folder_after_reads(folder_update(f, listings[0]), listings.skip(1))
    }
}

/// LAW: across any run of listing replacements, the cursor follows the hovered
/// path: as long as every listing still contains the path that was hovered at
/// the start, that path is hovered at the end, whatever the listings'
/// orderings; when a listing drops it, one replacement falls back to the old
/// index, else the last entry, else nothing (`hover_after`, stated by
/// `Folder::update`).
pub proof fn lemma_hover_follows_path(f: FolderM, listings: Seq<Seq<FileM>>)
    requires
        f.wf(),
        f.hovered is Some,
        forall|k: int| 0 <= k < listings.len() ==> #[trigger] contains_path(
            listings[k],
            f.hovered_path().unwrap(),
        ),
    ensures
        folder_after_reads(f, listings).wf(),
        folder_after_reads(f, listings).hovered_path() == f.hovered_path(),
    decreases listings.len(),
{
    if listings.len() == 0 {
    } else {
        let p = f.hovered_path().unwrap();
        let f2 = folder_update(f, listings[0]);
        lemma_index_of_path(listings[0], p);
        assert(index_of_path(listings[0], p) is Some);
        assert(f2.hovered_path() == Some(p));
        assert(f2.wf());
        assert(forall|k: int| 0 <= k < listings.skip(1).len() ==> listings.skip(1)[k]
            == listings[k + 1]);
        lemma_hover_follows_path(f2, listings.skip(1));
    }
}

} // verus!
