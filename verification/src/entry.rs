use vstd::prelude::*;

verus! {

/// What a directory entry turned out to be.
#[derive(Clone, Debug, PartialEq, Eq)]
pub enum EntryKind {
    File,
    Directory,
    Symlink,
    /// The entry's metadata could not be resolved; the text is the cause.
    Error(String),
}

/// The mathematical value of an [`EntryKind`].
pub enum KindView {
    File,
    Directory,
    Symlink,
    Error(Seq<char>),
}

impl View for EntryKind {
    type V = KindView;

    open spec fn view(&self) -> KindView {
        match self {
            EntryKind::File => KindView::File,
            EntryKind::Directory => KindView::Directory,
            EntryKind::Symlink => KindView::Symlink,
            EntryKind::Error(cause) => KindView::Error(cause@),
        }
    }
}

/// One classified directory entry.
#[derive(Clone, Debug, PartialEq, Eq)]
pub struct Entry {
    pub path: String,
    pub kind: EntryKind,
}

/// The mathematical value of an [`Entry`].
pub struct EntryView {
    pub path: Seq<char>,
    pub kind: KindView,
}

impl View for Entry {
    type V = EntryView;

    open spec fn view(&self) -> EntryView {
        EntryView { path: self.path@, kind: self.kind@ }
    }
}

/// The two facts of an entry's metadata that classification reads.
#[derive(Clone, Copy, Debug, PartialEq, Eq)]
pub struct FileMeta {
    pub is_symlink: bool,
    pub is_dir: bool,
}

/// The kind that metadata resolves to: a failure is an error entry, a
/// symbolic link is a symlink whatever it points to, then a directory, and
/// everything else is a file.
pub open spec fn kind_of(meta: Result<FileMeta, Seq<char>>) -> KindView {
    match meta {
        Err(cause) => KindView::Error(cause),
        Ok(m) => if m.is_symlink {
            KindView::Symlink
        } else if m.is_dir {
            KindView::Directory
        } else {
            KindView::File
        },
    }
}

/// The view of a metadata lookup's outcome.
pub open spec fn meta_view(meta: Result<FileMeta, String>) -> Result<FileMeta, Seq<char>> {
    match meta {
        Ok(m) => Ok(m),
        Err(cause) => Err(cause@),
    }
}

/// Classifies a raw entry from the outcome of its metadata lookup. A failed
/// lookup becomes an error entry instead of aborting.
pub fn classify(path: String, meta: Result<FileMeta, String>) -> (e: Entry)
    ensures
        e@.path == path@,
        e@.kind == kind_of(meta_view(meta)),
{
    let kind = match meta {
        Err(cause) => EntryKind::Error(cause),
        Ok(m) => {
            if m.is_symlink {
                EntryKind::Symlink
            } else if m.is_dir {
                EntryKind::Directory
            } else {
                EntryKind::File
            }
        },
    };
    Entry { path, kind }
}

} // verus!
