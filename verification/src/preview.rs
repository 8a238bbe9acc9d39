use vstd::prelude::*;
use crate::path::Path;

verus! {

/// A produced preview artifact: nothing yet, a folder preview, or a rendered
/// content blob.
pub enum PreviewData {
    Empty,
    Folder,
    Blob(Vec<u8>),
}

/// The abstract value of a `PreviewData`.
pub ghost enum PreviewDataM {
    Empty,
    Folder,
    Blob(Seq<u8>),
}

impl PreviewData {
    pub open spec fn m(&self) -> PreviewDataM {
        match self {
            PreviewData::Empty => PreviewDataM::Empty,
            PreviewData::Folder => PreviewDataM::Folder,
            PreviewData::Blob(b) => PreviewDataM::Blob(b@),
        }
    }

    /// An independent copy of the artifact.
    pub fn dup(&self) -> (r: PreviewData)
        ensures
            r.m() == self.m(),
    {
        match self {
            PreviewData::Empty => PreviewData::Empty,
            PreviewData::Folder => PreviewData::Folder,
            PreviewData::Blob(b) => {
                let mut c: Vec<u8> = Vec::new();
                let mut i: usize = 0;
                while i < b.len()
                    invariant
                        i <= b.len(),
                        c@ == b@.take(i as int),
                    decreases b.len() - i,
                {
                    c.push(b[i]);
                    proof {
                        assert(c@ =~= b@.take(i + 1));
                    }
                    i = i + 1;
                }
                proof {
                    assert(c@ =~= b@);
                }
                PreviewData::Blob(c)
            },
        }
    }
}

/// The most recently requested or produced preview for the hovered entry.
/// `data` is valid for display only while `path` still names the hovered
/// entry; any mismatch is staleness and leads to a reset.
pub struct PreviewSlot {
    pub path: Option<Path>,
    pub mime: Option<String>,
    pub data: PreviewData,
}

/// The abstract value of a `PreviewSlot`.
#[verifier::ext_equal]
pub ghost struct PreviewM {
    pub path: Option<Seq<Seq<char>>>,
    pub mime: Option<Seq<char>>,
    pub data: PreviewDataM,
}

/// The slot that shows nothing.
pub open spec fn empty_preview() -> PreviewM {
    PreviewM { path: None, mime: None, data: PreviewDataM::Empty }
}

impl PreviewSlot {
    pub open spec fn m(&self) -> PreviewM {
        PreviewM {
            path: match self.path {
                Some(p) => Some(p@),
                None => None,
            },
            mime: match self.mime {
                Some(s) => Some(s@),
                None => None,
            },
            data: self.data.m(),
        }
    }

    /// A slot that shows nothing.
    pub fn new() -> (r: PreviewSlot)
        ensures
            r.m() == empty_preview(),
    {
        PreviewSlot { path: None, mime: None, data: PreviewData::Empty }
    }

    /// Clears the slot. Reports whether it showed anything.
    pub fn reset(&mut self) -> (r: bool)
        ensures
            final(self).m() == empty_preview(),
            r == (old(self).m() != empty_preview()),
    {
        let changed = self.path.is_some() || self.mime.is_some() || !matches!(
            self.data,
            PreviewData::Empty,
        );
        self.path = None;
        self.mime = None;
        self.data = PreviewData::Empty;
        changed
    }

    /// Points the slot at the given path and mimetype; an artifact survives
    /// only if it was produced for the same path.
    pub fn go(&mut self, path: &Path, mime: &str)
        ensures
            final(self).m().path == Some(path@),
            final(self).m().mime == Some(mime@),
            final(self).m().data == (if old(self).m().path == Some(path@) {
                old(self).m().data
            } else {
                PreviewDataM::Empty
            }),
    {
        let same = match &self.path {
            Some(p) => p.eq_path(path),
            None => false,
        };
        if !same {
            self.data = PreviewData::Empty;
        }
        self.path = Some(path.dup());
        self.mime = Some(mime.to_owned());
    }

    /// An independent copy of the slot.
    pub fn dup(&self) -> (r: PreviewSlot)
        ensures
            r.m() == self.m(),
    {
        PreviewSlot {
            path: match &self.path {
                Some(p) => Some(p.dup()),
                None => None,
            },
            mime: match &self.mime {
                Some(s) => Some(s.clone()),
                None => None,
            },
            data: self.data.dup(),
        }
    }
}

} // verus!
