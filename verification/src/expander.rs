//! The expansion of one path expression, one directory at a time.
//!
//! An [`Expander`] never looks at a file system. It names the directory it
//! needs to know about next, takes the caller's report of it, and goes on
//! until every segment has been applied.

use crate::expression::{kind_of, segment_kind, segments, split_segments, texts, SegmentKind};
use crate::filesystem::{
    child_views, contribution, expand, expand_from, matching, sweep, visit, Child, EntryKind,
    FileSystem, Observation, Reply,
};
use crate::paths::path_parent;
use vstd::prelude::*;

verus! {

/// How far an expansion has come.
pub struct Progress {
    /// The segments still to apply; the first is the one being applied.
    pub segments: Seq<Seq<char>>,
    /// The directories the first segment has yet to be applied to; the first
    /// is the one being asked about.
    pub pending: Seq<Seq<char>>,
    /// The directories the first segment has brought in so far.
    pub frontier: Seq<Seq<char>>,
    /// The files the first segment has brought in so far.
    pub files: Seq<Seq<char>>,
}

impl Progress {
    /// Where the expansion of `expression` from `start` begins.
    pub open spec fn initial(start: Seq<char>, expression: Seq<char>) -> Progress {
        Progress {
            segments: split_segments(expression),
            pending: seq![start],
            frontier: Seq::empty(),
            files: Seq::empty(),
        }
    }

    /// Whether every segment has been applied.
    pub open spec fn is_done(self) -> bool {
        self.segments.len() == 0
    }

    /// Whether the expansion either is done or has a directory to ask about.
    pub open spec fn is_settled(self) -> bool {
        if self.is_done() {
            self.pending.len() == 0
        } else {
            self.pending.len() > 0
        }
    }

    /// The matches so far: the directories, then the files.
    pub open spec fn found(self) -> Seq<Seq<char>> {
        self.frontier + self.files
    }

    /// The progress after the report `seen` of the first pending directory
    /// has been taken in.
    pub open spec fn absorb(self, seen: Observation) -> Progress {
        let harvest = contribution(self.segments[0], self.pending[0], seen);
        Progress {
            segments: self.segments,
            pending: self.pending.skip(1),
            frontier: self.frontier + harvest.directories,
            files: self.files + harvest.files,
        }
    }

    /// Moves on over every segment that has no directory left to visit. The
    /// directories a segment brought in are what the next one visits, and its
    /// files are dropped; only the last segment keeps both.
    pub open spec fn settle(self) -> Progress
        decreases self.segments.len(),
    {
        if self.segments.len() == 0 || self.pending.len() > 0 {
            self
        } else if self.segments.len() == 1 {
            Progress {
                segments: Seq::empty(),
                pending: Seq::empty(),
                frontier: self.frontier,
                files: self.files,
            }
        } else {
            Progress {
                segments: self.segments.skip(1),
                pending: self.frontier,
                frontier: Seq::empty(),
                files: Seq::empty(),
            }.settle()
        }
    }

    /// The progress after the report `seen` of the directory asked about.
    /// Once done, or with nothing asked, a report changes nothing.
    pub open spec fn advance(self, seen: Observation) -> Progress {
        if self.is_done() || self.pending.len() == 0 {
            self
        } else {
            self.absorb(seen).settle()
        }
    }

    /// Whether the directory asked about must be listed, not just probed.
    pub open spec fn wants_listing(self) -> bool {
        kind_of(self.segments[0]) is Pattern
    }

    /// What the expansion comes to in the file system `fs` if every report
    /// from here on is truthful.
    pub open spec fn outcome(self, fs: FileSystem) -> Seq<Seq<char>> {
        if self.is_done() {
            self.found()
        } else {
            let harvest = sweep(fs, self.segments[0], self.pending);
            expand_from(
                fs,
                self.frontier + harvest.directories,
                self.files + harvest.files,
                self.segments.skip(1),
            )
        }
    }
}

/// What an expander needs to know next.
#[derive(Clone, Debug, PartialEq, Eq)]
pub enum Request {
    /// Whether this path is an existing directory.
    Probe(String),
    /// Whether this path is an existing directory, and if so its children.
    List(String),
    /// Nothing: the expansion is done.
    Done,
}

/// The expansion of one path expression from one start directory.
#[derive(Debug)]
pub struct Expander {
    segments: Vec<String>,
    position: usize,
    pending: Vec<String>,
    cursor: usize,
    frontier: Vec<String>,
    files: Vec<String>,
}

impl View for Expander {
    type V = Progress;

    closed spec fn view(&self) -> Progress {
        Progress {
            segments: texts(self.segments@).skip(self.position as int),
            pending: texts(self.pending@).skip(self.cursor as int),
            frontier: texts(self.frontier@),
            files: texts(self.files@),
        }
    }
}

/// Settling never changes what an expansion comes to.
pub proof fn lemma_settle_keeps_outcome(fs: FileSystem, progress: Progress)
    ensures
        progress.settle().outcome(fs) == progress.outcome(fs),
    decreases progress.segments.len(),
{
    if progress.segments.len() == 0 || progress.pending.len() > 0 {
    } else if progress.segments.len() == 1 {
        assert(progress.frontier + Seq::<Seq<char>>::empty() =~= progress.frontier);
        assert(progress.files + Seq::<Seq<char>>::empty() =~= progress.files);
        assert(progress.segments.skip(1).len() == 0);
    } else {
        let next = Progress {
            segments: progress.segments.skip(1),
            pending: progress.frontier,
            frontier: Seq::empty(),
            files: Seq::empty(),
        };
        lemma_settle_keeps_outcome(fs, next);
        let harvest = sweep(fs, next.segments[0], next.pending);
        assert(progress.frontier + Seq::<Seq<char>>::empty() =~= progress.frontier);
        assert(progress.files + Seq::<Seq<char>>::empty() =~= progress.files);
        assert(Seq::<Seq<char>>::empty() + harvest.directories =~= harvest.directories);
        assert(Seq::<Seq<char>>::empty() + harvest.files =~= harvest.files);
    }
}

/// An expansion that has just begun comes to what the expression matches.
pub proof fn lemma_initial_outcome(fs: FileSystem, start: Seq<char>, expression: Seq<char>)
    ensures
        Progress::initial(start, expression).outcome(fs) == expand(fs, start, expression),
        Progress::initial(start, expression).is_settled(),
{
    crate::expression::lemma_split_is_not_empty(expression);
    let progress = Progress::initial(start, expression);
    let harvest = sweep(fs, progress.segments[0], progress.pending);
    assert(Seq::<Seq<char>>::empty() + harvest.directories =~= harvest.directories);
    assert(Seq::<Seq<char>>::empty() + harvest.files =~= harvest.files);
}

/// A truthful report leaves what the expansion comes to unchanged: step by
/// step, an expander that is told the truth arrives at what the expression
/// matches.
pub proof fn lemma_truthful_report_keeps_outcome(
    fs: FileSystem,
    progress: Progress,
    seen: Observation,
)
    requires
        !progress.is_done(),
        progress.pending.len() > 0,
        seen == fs.observe(progress.pending[0], progress.wants_listing()),
    ensures
        progress.advance(seen).outcome(fs) == progress.outcome(fs),
{
    let absorbed = progress.absorb(seen);
    lemma_settle_keeps_outcome(fs, absorbed);
    let first = visit(fs, progress.segments[0], progress.pending[0]);
    let rest = sweep(fs, progress.segments[0], progress.pending.skip(1));
    assert((progress.frontier + first.directories) + rest.directories =~= progress.frontier + (
        first.directories + rest.directories));
    assert((progress.files + first.files) + rest.files =~= progress.files + (first.files
        + rest.files));
}

/// Once done, an expansion has come to its matches.
pub proof fn lemma_done_outcome(fs: FileSystem, progress: Progress)
    requires
        progress.is_done(),
    ensures
        progress.outcome(fs) == progress.found(),
{
}

/// Settling leaves no more segments than there were.
pub proof fn lemma_settle_drops_segments(progress: Progress)
    ensures
        progress.settle().segments.len() <= progress.segments.len(),
        progress.segments.len() > 0 && progress.pending.len() == 0
            ==> progress.settle().segments.len() < progress.segments.len(),
        progress.segments.len() == 0 || progress.pending.len() > 0 ==> progress.settle()
            == progress,
    decreases progress.segments.len(),
{
    if progress.segments.len() > 1 && progress.pending.len() == 0 {
        lemma_settle_drops_segments(
            Progress {
                segments: progress.segments.skip(1),
                pending: progress.frontier,
                frontier: Seq::empty(),
                files: Seq::empty(),
            },
        );
    }
}

/// Every report brings an expansion closer to its end: it leaves fewer
/// segments to apply, or as many and fewer directories to visit. A caller
/// that answers each request is done after finitely many.
pub proof fn lemma_report_makes_progress(progress: Progress, seen: Observation)
    requires
        !progress.is_done(),
        progress.pending.len() > 0,
    ensures
        progress.advance(seen).segments.len() < progress.segments.len() || (progress.advance(
            seen,
        ).segments.len() == progress.segments.len() && progress.advance(seen).pending.len()
            < progress.pending.len()),
{
    lemma_settle_drops_segments(progress.absorb(seen));
}

/// Adds to `directories` and `files` the paths of the children that
/// `segment` matches, each to its kind.
fn gather(
    segment: &str,
    children: &Vec<Child>,
    directories: &mut Vec<String>,
    files: &mut Vec<String>,
)
    ensures
        texts(final(directories)@) == texts(old(directories)@) + matching(
            segment@,
            child_views(children@),
            EntryKind::Directory,
        ),
        texts(final(files)@) == texts(old(files)@) + matching(
            segment@,
            child_views(children@),
            EntryKind::File,
        ),
{
    let ghost directories_before = texts(directories@);
    let ghost files_before = texts(files@);
    let ghost all = child_views(children@);
    let mut i: usize = 0;
    assert(all.take(0) =~= Seq::<crate::filesystem::ChildView>::empty());
    assert(directories_before + Seq::<Seq<char>>::empty() =~= directories_before);
    assert(files_before + Seq::<Seq<char>>::empty() =~= files_before);
    while i < children.len()
        invariant
            i <= children.len(),
            all == child_views(children@),
            texts(directories@) == directories_before + matching(
                segment@,
                all.take(i as int),
                EntryKind::Directory,
            ),
            texts(files@) == files_before + matching(segment@, all.take(i as int), EntryKind::File),
        decreases children.len() - i,
    {
        let child = &children[i];
        let ghost directories_now = texts(directories@);
        let ghost files_now = texts(files@);
        proof {
            assert(all.take(i + 1).drop_last() =~= all.take(i as int));
            assert(all.take(i + 1).last() == child@);
        }
        if crate::matcher::matches(segment, child.name.as_str()) {
            match child.kind {
                EntryKind::Directory => {
                    directories.push(child.path.clone());
                    assert(texts(directories@) =~= directories_now.push(child.path@));
                },
                EntryKind::File => {
                    files.push(child.path.clone());
                    assert(texts(files@) =~= files_now.push(child.path@));
                },
                EntryKind::Other => {},
            }
        }
        proof {
            assert(texts(directories@) =~= directories_before + matching(
                segment@,
                all.take(i + 1),
                EntryKind::Directory,
            ));
            assert(texts(files@) =~= files_before + matching(
                segment@,
                all.take(i + 1),
                EntryKind::File,
            ));
        }
        i += 1;
    }
    assert(all.take(children.len() as int) =~= all);
}

impl Expander {
    /// The invariant of an expander: it is done, or has a directory to ask
    /// about.
    pub closed spec fn well_formed(&self) -> bool {
        &&& self.position <= self.segments.len()
        &&& self.cursor <= self.pending.len()
        &&& self.position < self.segments.len() ==> self.cursor < self.pending.len()
        &&& self.position == self.segments.len() ==> self.cursor == self.pending.len()
    }

    spec fn loosely_formed(&self) -> bool {
        &&& self.position <= self.segments.len()
        &&& self.cursor <= self.pending.len()
        &&& self.position == self.segments.len() ==> self.cursor == self.pending.len()
    }

    /// A well-formed expander is settled.
    pub proof fn lemma_well_formed_is_settled(&self)
        requires
            self.well_formed(),
        ensures
            self@.is_settled(),
    {
    }

    /// Begins the expansion of `expression` from the directory `start`. In
    /// any file system, it comes to what the expression matches there.
    pub fn new(start: String, expression: &str) -> (expander: Expander)
        ensures
            expander.well_formed(),
            expander@ == Progress::initial(start@, expression@),
            forall|fs: FileSystem| #[trigger]
                expander@.outcome(fs) == expand(fs, start@, expression@),
    {
        let parts = segments(expression);
        proof {
            crate::expression::lemma_split_is_not_empty(expression@);
        }
        let mut pending: Vec<String> = Vec::new();
        pending.push(start);
        let expander = Expander {
            segments: parts,
            position: 0,
            pending,
            cursor: 0,
            frontier: Vec::new(),
            files: Vec::new(),
        };
        proof {
            assert(texts(expander.segments@).skip(0) =~= split_segments(expression@));
            assert(texts(expander.pending@).skip(0) =~= seq![start@]);
            assert(texts(expander.frontier@) =~= Seq::<Seq<char>>::empty());
            assert(texts(expander.files@) =~= Seq::<Seq<char>>::empty());
            assert forall|fs: FileSystem| #[trigger]
                expander@.outcome(fs) == expand(fs, start@, expression@) by {
                lemma_initial_outcome(fs, start@, expression@);
            }
        }
        expander
    }

    /// Whether every segment has been applied.
    pub fn is_done(&self) -> (done: bool)
        requires
            self.well_formed(),
        ensures
            done == self@.is_done(),
    {
        self.position >= self.segments.len()
    }

    /// What the expander needs to know next: a probe of the pending
    /// directory for `.` and `..`, a listing of it for any other segment.
    pub fn request(&self) -> (request: Request)
        requires
            self.well_formed(),
        ensures
            match request {
                Request::Done => self@.is_done(),
                Request::Probe(path) => !self@.is_done() && !self@.wants_listing() && path@
                    == self@.pending[0],
                Request::List(path) => !self@.is_done() && self@.wants_listing() && path@
                    == self@.pending[0],
            },
    {
        if self.position >= self.segments.len() {
            Request::Done
        } else {
            let directory = self.pending[self.cursor].clone();
            match segment_kind(self.segments[self.position].as_str()) {
                SegmentKind::Pattern => Request::List(directory),
                _ => Request::Probe(directory),
            }
        }
    }

    fn settle(&mut self)
        requires
            old(self).loosely_formed(),
        ensures
            final(self).well_formed(),
            final(self)@ == old(self)@.settle(),
    {
        let ghost goal = self@.settle();
        while self.position < self.segments.len() && self.cursor >= self.pending.len()
            invariant
                self.loosely_formed(),
                self@.settle() == goal,
            decreases self.segments.len() - self.position,
        {
            let ghost before = self@;
            self.position = self.position + 1;
            if self.position < self.segments.len() {
                let mut reached: Vec<String> = Vec::new();
                std::mem::swap(&mut reached, &mut self.frontier);
                self.pending = reached;
                self.cursor = 0;
                self.files = Vec::new();
                proof {
                    assert(before.pending.len() == 0);
                    assert(self@.segments =~= before.segments.skip(1));
                    assert(self@.pending =~= before.frontier);
                    assert(self@.frontier =~= Seq::<Seq<char>>::empty());
                    assert(self@.files =~= Seq::<Seq<char>>::empty());
                }
            } else {
                proof {
                    assert(before.pending.len() == 0);
                    assert(before.segments.len() == 1);
                    assert(self@.segments =~= Seq::<Seq<char>>::empty());
                    assert(self@.pending =~= Seq::<Seq<char>>::empty());
                }
            }
        }
    }

    /// Takes the report of the directory asked about and moves on. Under a
    /// truthful report, what the expansion comes to does not change.
    pub fn answer(&mut self, reply: Reply)
        requires
            old(self).well_formed(),
        ensures
            final(self).well_formed(),
            final(self)@ == old(self)@.advance(reply@),
            forall|fs: FileSystem|
                !old(self)@.is_done() && reply@ == fs.observe(
                    old(self)@.pending[0],
                    old(self)@.wants_listing(),
                ) ==> #[trigger] final(self)@.outcome(fs) == old(self)@.outcome(fs),
    {
        if self.position >= self.segments.len() {
            return ;
        }
        let ghost before = self@;
        let segment = self.segments[self.position].clone();
        let directory = self.pending[self.cursor].clone();
        assert(segment@ == before.segments[0]);
        assert(directory@ == before.pending[0]);
        let ghost harvest = contribution(segment@, directory@, reply@);
        let ghost frontier_before = texts(self.frontier@);
        match segment_kind(segment.as_str()) {
            SegmentKind::Current => {
                match reply {
                    Reply::NotDirectory => {},
                    _ => {
                        self.frontier.push(directory);
                        assert(texts(self.frontier@) =~= frontier_before + seq![directory@]);
                    },
                }
            },
            SegmentKind::Parent => {
                match reply {
                    Reply::NotDirectory => {},
                    _ => {
                        let parent = path_parent(directory.as_str());
                        self.frontier.push(parent);
                        assert(texts(self.frontier@) =~= frontier_before + seq![parent@]);
                    },
                }
            },
            SegmentKind::Pattern => {
                match reply {
                    Reply::Listing(children) => {
                        gather(segment.as_str(), &children, &mut self.frontier, &mut self.files);
                    },
                    _ => {},
                }
            },
        }
        self.cursor = self.cursor + 1;
        proof {
            assert(texts(self.frontier@) =~= before.frontier + harvest.directories);
            assert(texts(self.files@) =~= before.files + harvest.files);
            assert(self@.pending =~= before.pending.skip(1));
            assert(self@ =~= before.absorb(reply@));
        }
        self.settle();
        proof {
            assert(self@ == before.advance(reply@));
            assert forall|fs: FileSystem|
                reply@ == fs.observe(before.pending[0], before.wants_listing()) implies (
            #[trigger] self@.outcome(fs)) == before.outcome(fs) by {
                lemma_truthful_report_keeps_outcome(fs, before, reply@);
            }
        }
    }

    /// The matches, once the expansion is done: the directories the last
    /// segment brought in, then its files, each in the order found. They are
    /// what the expansion had been coming to.
    pub fn finish(self) -> (result: Option<Vec<String>>)
        requires
            self.well_formed(),
        ensures
            result.is_some() == self@.is_done(),
            result matches Some(paths) ==> texts(paths@) == self@.found(),
            result matches Some(paths) ==> forall|fs: FileSystem| #[trigger]
                self@.outcome(fs) == texts(paths@),
    {
        if self.position >= self.segments.len() {
            let mut paths = self.frontier;
            let mut files = self.files;
            let ghost directories = texts(paths@);
            let ghost tail = texts(files@);
            paths.append(&mut files);
            assert(texts(paths@) =~= directories + tail);
            Some(paths)
        } else {
            None
        }
    }
}

/// Puts the matches of one more source expression behind those of the
/// sources before it, so that the matches of a run stand in the order of
/// its sources, and those of each source in the order found.
pub fn append_matches(all: &mut Vec<String>, found: Vec<String>)
    ensures
        texts(final(all)@) == texts(old(all)@) + texts(found@),
{
    let ghost before = texts(all@);
    let ghost added = texts(found@);
    let mut rest = found;
    all.append(&mut rest);
    assert(texts(all@) =~= before + added);
}

} // verus!
