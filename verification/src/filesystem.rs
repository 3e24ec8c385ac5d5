//! What the expansion knows of a file system: the answers to its questions,
//! and a file system at rest as the sum of such answers.

use crate::expression::{kind_of, SegmentKind};
use crate::matcher::wild_matches;
use crate::paths::{joined_path, parent_path};
use vstd::prelude::*;

verus! {

/// What a path turns out to be when it is looked at.
#[derive(Clone, Copy, PartialEq, Eq, Structural, Debug)]
pub enum EntryKind {
    /// A directory.
    Directory,
    /// A regular file.
    File,
    /// Neither: nothing is there, or something that is neither.
    Other,
}

/// One child of a directory, as a listing reports it.
#[derive(Clone, Debug, PartialEq, Eq)]
pub struct Child {
    /// The child's full path.
    pub path: String,
    /// The child's base name.
    pub name: String,
    /// What the child is.
    pub kind: EntryKind,
}

/// A child as contracts see it.
pub struct ChildView {
    pub path: Seq<char>,
    pub name: Seq<char>,
    pub kind: EntryKind,
}

impl View for Child {
    type V = ChildView;

    open spec fn view(&self) -> ChildView {
        ChildView { path: self.path@, name: self.name@, kind: self.kind }
    }
}

/// The views of a sequence of children.
pub open spec fn child_views(children: Seq<Child>) -> Seq<ChildView> {
    Seq::new(children.len(), |i: int| children[i]@)
}

/// What a caller found at a path it was asked about.
#[derive(Clone, Debug, PartialEq, Eq)]
pub enum Reply {
    /// The path is not an existing directory.
    NotDirectory,
    /// The path is a directory; no listing was taken.
    Directory,
    /// The path is a directory that could not be listed.
    Unreadable,
    /// The path is a directory with these children, in listing order.
    Listing(Vec<Child>),
}

/// A reply as contracts see it.
pub enum Observation {
    NotDirectory,
    Directory,
    Unreadable,
    Listing(Seq<ChildView>),
}

impl View for Reply {
    type V = Observation;

    open spec fn view(&self) -> Observation {
        match self {
            Reply::NotDirectory => Observation::NotDirectory,
            Reply::Directory => Observation::Directory,
            Reply::Unreadable => Observation::Unreadable,
            Reply::Listing(children) => Observation::Listing(child_views(children@)),
        }
    }
}

/// A file system at rest: which paths are directories, and what a listing of
/// each readable one reports.
pub struct FileSystem {
    pub directories: Set<Seq<char>>,
    pub listings: Map<Seq<char>, Seq<ChildView>>,
}

impl FileSystem {
    /// What a truthful caller reports of `path`, with a listing where
    /// `listed` asks for one.
    pub open spec fn observe(self, path: Seq<char>, listed: bool) -> Observation {
        if !self.directories.contains(path) {
            Observation::NotDirectory
        } else if !listed {
            Observation::Directory
        } else if self.listings.dom().contains(path) {
            Observation::Listing(self.listings[path])
        } else {
            Observation::Unreadable
        }
    }

    /// Whether every listing reports each child under the path that joins
    /// the child's name to the directory listed.
    pub open spec fn paths_are_joined(self) -> bool {
        forall|path: Seq<char>, i: int|
            #![trigger self.listings[path][i]]
            self.listings.dom().contains(path) && 0 <= i < self.listings[path].len()
                ==> self.listings[path][i].path == joined_path(path, self.listings[path][i].name)
    }

    /// Whether no listing reports one name twice.
    pub open spec fn names_are_unique(self) -> bool {
        forall|path: Seq<char>, i: int, j: int|
            #![trigger self.listings[path][i], self.listings[path][j]]
            self.listings.dom().contains(path) && 0 <= i < j < self.listings[path].len()
                ==> self.listings[path][i].name != self.listings[path][j].name
    }
}

/// What one step of the expansion brings in: directories to go on from, and
/// files that can only be results.
pub struct Harvest {
    pub directories: Seq<Seq<char>>,
    pub files: Seq<Seq<char>>,
}

impl Harvest {
    /// Nothing.
    pub open spec fn nothing() -> Harvest {
        Harvest { directories: Seq::empty(), files: Seq::empty() }
    }

    /// This harvest followed by `later`.
    pub open spec fn then_also(self, later: Harvest) -> Harvest {
        Harvest {
            directories: self.directories + later.directories,
            files: self.files + later.files,
        }
    }
}

/// The paths of the children of kind `kind` whose names `segment` matches, in
/// listing order.
pub open spec fn matching(segment: Seq<char>, children: Seq<ChildView>, kind: EntryKind) -> Seq<
    Seq<char>,
>
    decreases children.len(),
{
    if children.len() == 0 {
        Seq::empty()
    } else {
        let earlier = matching(segment, children.drop_last(), kind);
        let last = children.last();
        if wild_matches(segment, last.name) && last.kind == kind {
            earlier.push(last.path)
        } else {
            earlier
        }
    }
}

/// What `segment` brings in at `directory`, given what was seen there.
///
/// A path that is no directory brings nothing. `.` brings the directory
/// itself and `..` its parent. Any other segment brings the matching
/// children of a listing, directories and files apart, and nothing where no
/// listing was had.
pub open spec fn contribution(segment: Seq<char>, directory: Seq<char>, seen: Observation)
    -> Harvest {
    match kind_of(segment) {
        SegmentKind::Current => if seen is NotDirectory {
            Harvest::nothing()
        } else {
            Harvest { directories: seq![directory], files: Seq::empty() }
        },
        SegmentKind::Parent => if seen is NotDirectory {
            Harvest::nothing()
        } else {
            Harvest { directories: seq![parent_path(directory)], files: Seq::empty() }
        },
        SegmentKind::Pattern => match seen {
            Observation::Listing(children) => Harvest {
                directories: matching(segment, children, EntryKind::Directory),
                files: matching(segment, children, EntryKind::File),
            },
            _ => Harvest::nothing(),
        },
    }
}

/// What `segment` brings in at `directory` in the file system `fs`.
pub open spec fn visit(fs: FileSystem, segment: Seq<char>, directory: Seq<char>) -> Harvest {
    contribution(segment, directory, fs.observe(directory, kind_of(segment) is Pattern))
}

/// What `segment` brings in over a whole frontier, directory by directory.
pub open spec fn sweep(fs: FileSystem, segment: Seq<char>, frontier: Seq<Seq<char>>) -> Harvest
    decreases frontier.len(),
{
    if frontier.len() == 0 {
        Harvest::nothing()
    } else {
        visit(fs, segment, frontier[0]).then_also(sweep(fs, segment, frontier.skip(1)))
    }
}

/// Where `segments` lead from the harvest `from`: each segment in turn is
/// applied to the directories brought in before it, and what it brings in
/// replaces both them and the files.
pub open spec fn reach(fs: FileSystem, from: Harvest, segments: Seq<Seq<char>>) -> Harvest
    decreases segments.len(),
{
    if segments.len() == 0 {
        from
    } else {
        reach(fs, sweep(fs, segments[0], from.directories), segments.skip(1))
    }
}

/// The paths that `segments` lead to from `frontier`: the directories that
/// the last segment brings in, followed by its files. With no segment, they
/// are `frontier` followed by `files`.
pub open spec fn expand_from(
    fs: FileSystem,
    frontier: Seq<Seq<char>>,
    files: Seq<Seq<char>>,
    segments: Seq<Seq<char>>,
) -> Seq<Seq<char>> {
    let end = reach(fs, Harvest { directories: frontier, files }, segments);
    end.directories + end.files
}

/// The paths that `segments` match from the directory `start`.
pub open spec fn expand_segments(fs: FileSystem, start: Seq<char>, segments: Seq<Seq<char>>)
    -> Seq<Seq<char>> {
    expand_from(fs, seq![start], Seq::empty(), segments)
}

/// The paths that `expression` matches from the directory `start`.
pub open spec fn expand(fs: FileSystem, start: Seq<char>, expression: Seq<char>) -> Seq<
    Seq<char>,
> {
    expand_segments(fs, start, crate::expression::split_segments(expression))
}

} // verus!
