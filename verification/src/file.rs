use vstd::prelude::*;
use crate::path::Path;

verus! {

/// One directory entry: its absolute path and the metadata the core reads.
/// Identity is the path; metadata may be refreshed in place.
pub struct File {
    pub path: Path,
    pub is_dir: bool,
    pub size: u64,
    pub mtime: u64,
}

/// The abstract value of a `File`.
pub ghost struct FileM {
    pub path: Seq<Seq<char>>,
    pub is_dir: bool,
    pub size: u64,
    pub mtime: u64,
}

impl File {
    pub open spec fn m(&self) -> FileM {
        FileM { path: self.path@, is_dir: self.is_dir, size: self.size, mtime: self.mtime }
    }

    /// An independent copy of the entry.
    pub fn dup(&self) -> (r: File)
        ensures
            r.m() == self.m(),
    {
        File { path: self.path.dup(), is_dir: self.is_dir, size: self.size, mtime: self.mtime }
    }
}

/// The abstract value of a listing.
pub open spec fn files_view(v: Seq<File>) -> Seq<FileM> {
    Seq::new(v.len(), |i: int| v[i].m())
}

/// A directory listing produced by the reader or the search: the directory's
/// path and the entries found under it.
pub struct FilesOp {
    pub path: Path,
    pub files: Vec<File>,
}

/// The first index of a listing whose entry carries the given path.
pub open spec fn index_of_path(files: Seq<FileM>, p: Seq<Seq<char>>) -> Option<int>
    decreases files.len(),
{
    if files.len() == 0 {
        None
    } else if files[0].path == p {
        Some(0)
    } else {
        match index_of_path(files.skip(1), p) {
            Some(i) => Some(i + 1),
            None => None::<int>,
        }
    }
}

/// Whether some entry of the listing carries the given path.
pub open spec fn contains_path(files: Seq<FileM>, p: Seq<Seq<char>>) -> bool {
    exists|i: int| 0 <= i < files.len() && files[i].path == p
}

/// `index_of_path` yields the least matching index, exactly when the listing
/// contains the path.
pub proof fn lemma_index_of_path(files: Seq<FileM>, p: Seq<Seq<char>>)
    ensures
        match index_of_path(files, p) {
            Some(i) => 0 <= i < files.len() && files[i].path == p && (forall|j: int|
                0 <= j < i ==> files[j].path != p),
            None => !contains_path(files, p),
        },
    decreases files.len(),
{
    if files.len() == 0 {
    } else if files[0].path == p {
    } else {
        lemma_index_of_path(files.skip(1), p);
        assert(forall|j: int| 1 <= j < files.len() ==> files[j] == files.skip(1)[j - 1]);
    }
}

/// Finds the first entry with the given path.
pub fn position_of(files: &Vec<File>, p: &Path) -> (r: Option<usize>)
    ensures
        match r {
            Some(i) => index_of_path(files_view(files@), p@) == Some(i as int),
            None => index_of_path(files_view(files@), p@) is None,
        },
{
    proof {
        lemma_index_of_path(files_view(files@), p@);
    }
    let mut i: usize = 0;
    while i < files.len()
        invariant
            i <= files.len(),
            forall|j: int| 0 <= j < i ==> files_view(files@)[j].path != p@,
            match index_of_path(files_view(files@), p@) {
                Some(k) => 0 <= k < files@.len() && files_view(files@)[k].path == p@
                    && (forall|j: int| 0 <= j < k ==> files_view(files@)[j].path != p@),
                None => !contains_path(files_view(files@), p@),
            },
        decreases files.len() - i,
    {
        if files[i].path.eq_path(p) {
            proof {
                assert(files_view(files@)[i as int].path == p@);
                assert(contains_path(files_view(files@), p@));
                let k = index_of_path(files_view(files@), p@).unwrap();
                assert(!(k < i) && !(i < k));
            }
            return Some(i);
        }
        i = i + 1;
    }
    proof {
        if index_of_path(files_view(files@), p@) is Some {
            let k = index_of_path(files_view(files@), p@).unwrap();
            assert(files_view(files@)[k].path != p@);
        }
    }
    None
}

} // verus!
