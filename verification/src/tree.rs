//! The copy of one directory tree.
//!
//! A [`TreeCopy`] walks the tree depth first without touching it: it hands
//! out one step at a time, takes the caller's report of how the step went,
//! and gives up at the first step that fails.

use crate::filesystem::{child_views, Child, ChildView, EntryKind};
use crate::paths::{joined_path, path_join};
use vstd::prelude::*;

verus! {

/// Where the copy of a tree stands.
#[derive(Clone, Copy, PartialEq, Eq, Structural, Debug)]
pub enum TreePhase {
    /// A destination directory is to be created.
    Creating,
    /// A source directory is to be listed.
    Listing,
    /// A file is to be copied.
    Copying,
    /// Every step went well and none is left.
    Succeeded,
    /// A step failed.
    Failed,
}

/// What a caller reports of the step it was handed.
#[derive(Clone, Debug, PartialEq, Eq)]
pub enum TreeEvent {
    /// Whether the creating or copying went well.
    Finished(bool),
    /// The children read from the directory listed, in listing order, and
    /// whether the reading came to its end without an error.
    Listed { children: Vec<Child>, complete: bool },
}

/// A report as contracts see it.
pub enum TreeReport {
    Finished(bool),
    Listed(Seq<ChildView>, bool),
}

impl View for TreeEvent {
    type V = TreeReport;

    open spec fn view(&self) -> TreeReport {
        match self {
            TreeEvent::Finished(went_well) => TreeReport::Finished(*went_well),
            TreeEvent::Listed { children, complete } => TreeReport::Listed(
                child_views(children@),
                *complete,
            ),
        }
    }
}

/// What a caller is to do next.
#[derive(Clone, Debug, PartialEq, Eq)]
pub enum TreeStep {
    /// Create this directory with its missing ancestors and report whether
    /// that went well.
    CreateDirectory(String),
    /// Read the children of this directory and report them.
    ListDirectory(String),
    /// Copy the file `from` to `to` and report whether that went well.
    CopyFile { from: String, to: String },
    /// Nothing: the copy has ended, well or not.
    Done(bool),
}

/// A directory of the tree whose children are being dealt with.
pub struct LevelView {
    /// Where the directory's children are copied to.
    pub destination: Seq<char>,
    /// The children that have yet to get their turn.
    pub waiting: Seq<ChildView>,
    /// Whether the listing of the directory came to its end.
    pub complete: bool,
}

/// The copy of a tree as contracts see it.
pub struct TreeView {
    /// The directories being dealt with, the outermost first.
    pub levels: Seq<LevelView>,
    /// Where the copy stands.
    pub phase: TreePhase,
    /// The directory being created or listed, or the file being copied.
    pub source: Seq<char>,
    /// Where that directory or file goes.
    pub destination: Seq<char>,
}

impl TreeView {
    /// The copy of the tree at `source` to `destination`, before its first
    /// step.
    pub open spec fn initial(source: Seq<char>, destination: Seq<char>) -> TreeView {
        TreeView { levels: Seq::empty(), phase: TreePhase::Creating, source, destination }
    }

    /// The copy in another phase.
    pub open spec fn in_phase(self, phase: TreePhase) -> TreeView {
        TreeView { phase, ..self }
    }

    /// Moves on to the next child of the innermost directory: a directory
    /// is entered, anything else copied as a file, each under its own name.
    /// A directory with no child left is left for the one around it, unless
    /// its listing broke off, which fails the copy. With no directory left
    /// the copy has succeeded.
    pub open spec fn proceed(self) -> TreeView
        decreases self.levels.len(),
    {
        if self.levels.len() == 0 {
            self.in_phase(TreePhase::Succeeded)
        } else {
            let top = self.levels.last();
            if top.waiting.len() > 0 {
                let child = top.waiting[0];
                TreeView {
                    levels: self.levels.drop_last().push(
                        LevelView { waiting: top.waiting.skip(1), ..top },
                    ),
                    phase: if child.kind is Directory {
                        TreePhase::Creating
                    } else {
                        TreePhase::Copying
                    },
                    source: child.path,
                    destination: joined_path(top.destination, child.name),
                }
            } else if !top.complete {
                self.in_phase(TreePhase::Failed)
            } else {
                TreeView { levels: self.levels.drop_last(), ..self }.proceed()
            }
        }
    }

    /// The copy after `report`. A directory created is listed next; its
    /// listing opens it; a file copied makes way for the next child; a step
    /// that went wrong fails the copy. A report that does not answer the
    /// step handed out changes nothing.
    pub open spec fn after(self, report: TreeReport) -> TreeView {
        match (self.phase, report) {
            (TreePhase::Creating, TreeReport::Finished(true)) => self.in_phase(TreePhase::Listing),
            (TreePhase::Creating, TreeReport::Finished(false)) => self.in_phase(TreePhase::Failed),
            (TreePhase::Listing, TreeReport::Listed(children, complete)) => TreeView {
                levels: self.levels.push(
                    LevelView { destination: self.destination, waiting: children, complete },
                ),
                ..self
            }.proceed(),
            (TreePhase::Copying, TreeReport::Finished(true)) => self.proceed(),
            (TreePhase::Copying, TreeReport::Finished(false)) => self.in_phase(TreePhase::Failed),
            _ => self,
        }
    }

    /// Whether the copy has ended.
    pub open spec fn is_over(self) -> bool {
        self.phase is Succeeded || self.phase is Failed
    }
}

#[derive(Debug)]
struct Level {
    destination: String,
    children: Vec<Child>,
    next: usize,
    complete: bool,
}

impl View for Level {
    type V = LevelView;

    closed spec fn view(&self) -> LevelView {
        LevelView {
            destination: self.destination@,
            waiting: child_views(self.children@).skip(self.next as int),
            complete: self.complete,
        }
    }
}

/// The copy of one directory tree, step by step.
#[derive(Debug)]
pub struct TreeCopy {
    levels: Vec<Level>,
    phase: TreePhase,
    source: String,
    destination: String,
}

impl View for TreeCopy {
    type V = TreeView;

    closed spec fn view(&self) -> TreeView {
        TreeView {
            levels: Seq::new(self.levels@.len(), |i: int| self.levels@[i]@),
            phase: self.phase,
            source: self.source@,
            destination: self.destination@,
        }
    }
}

impl TreeCopy {
    /// The invariant of a tree copy: no directory has dealt with more
    /// children than it has.
    pub closed spec fn well_formed(&self) -> bool {
        forall|i: int|
            0 <= i < self.levels@.len() ==> (#[trigger] self.levels@[i]).next
                <= self.levels@[i].children@.len()
    }

    /// Begins the copy of the tree at `source` to `destination`.
    pub fn new(source: String, destination: String) -> (copy: TreeCopy)
        ensures
            copy.well_formed(),
            copy@ == TreeView::initial(source@, destination@),
    {
        let copy = TreeCopy { levels: Vec::new(), phase: TreePhase::Creating, source, destination };
        assert(copy@.levels =~= Seq::<LevelView>::empty());
        copy
    }

    /// Whether the copy has ended.
    pub fn is_over(&self) -> (over: bool)
        ensures
            over == self@.is_over(),
    {
        match self.phase {
            TreePhase::Succeeded | TreePhase::Failed => true,
            _ => false,
        }
    }

    /// What the caller is to do next.
    pub fn next_step(&self) -> (step: TreeStep)
        ensures
            match step {
                TreeStep::CreateDirectory(path) => self@.phase is Creating && path@
                    == self@.destination,
                TreeStep::ListDirectory(path) => self@.phase is Listing && path@ == self@.source,
                TreeStep::CopyFile { from, to } => self@.phase is Copying && from@ == self@.source
                    && to@ == self@.destination,
                TreeStep::Done(went_well) => if went_well {
                    self@.phase is Succeeded
                } else {
                    self@.phase is Failed
                },
            },
    {
        match self.phase {
            TreePhase::Creating => TreeStep::CreateDirectory(self.destination.clone()),
            TreePhase::Listing => TreeStep::ListDirectory(self.source.clone()),
            TreePhase::Copying => TreeStep::CopyFile {
                from: self.source.clone(),
                to: self.destination.clone(),
            },
            TreePhase::Succeeded => TreeStep::Done(true),
            TreePhase::Failed => TreeStep::Done(false),
        }
    }

    fn proceed(&mut self)
        requires
            old(self).well_formed(),
        ensures
            final(self).well_formed(),
            final(self)@ == old(self)@.proceed(),
    {
        let ghost goal = self@.proceed();
        loop
            invariant
                self.well_formed(),
                self@.proceed() == goal,
                goal == old(self)@.proceed(),
            decreases self.levels.len(),
        {
            let ghost before = self@;
            let ghost levels_before = self.levels@;
            if self.levels.len() == 0 {
                self.phase = TreePhase::Succeeded;
                assert(self@ =~= before.in_phase(TreePhase::Succeeded));
                return ;
            }
            let mut top = self.levels.pop().unwrap();
            assert(top == levels_before[levels_before.len() - 1]);
            assert(top@ == before.levels.last());
            let ghost below = Seq::new(self.levels@.len(), |i: int| self.levels@[i]@);
            assert(below =~= before.levels.drop_last());
            if top.next < top.children.len() {
                let child = &top.children[top.next];
                assert(child@ == top@.waiting[0]);
                let source = child.path.clone();
                let destination = path_join(top.destination.as_str(), child.name.as_str());
                let enters = match child.kind {
                    EntryKind::Directory => true,
                    _ => false,
                };
                let ghost waiting = top@.waiting;
                let opened = Level {
                    destination: top.destination,
                    children: top.children,
                    next: top.next + 1,
                    complete: top.complete,
                };
                assert(opened@.waiting =~= waiting.skip(1));
                self.levels.push(opened);
                self.phase = if enters {
                    TreePhase::Creating
                } else {
                    TreePhase::Copying
                };
                self.source = source;
                self.destination = destination;
                proof {
                    assert(self@.levels =~= before.levels.drop_last().push(
                        LevelView { waiting: waiting.skip(1), ..before.levels.last() },
                    ));
                    assert forall|i: int| 0 <= i < self.levels@.len() implies (
                    #[trigger] self.levels@[i]).next <= self.levels@[i].children@.len() by {
                        if i < levels_before.len() - 1 {
                            assert(self.levels@[i] == levels_before[i]);
                        }
                    }
                }
                return ;
            } else if !top.complete {
                self.levels.push(top);
                self.phase = TreePhase::Failed;
                proof {
                    assert(self.levels@ =~= levels_before);
                    assert(self@.levels =~= before.levels);
                    assert(before.levels.last().waiting.len() == 0);
                }
                return ;
            }
            proof {
                assert(before.levels.last().waiting.len() == 0);
                assert(self@ =~= TreeView { levels: before.levels.drop_last(), ..before });
                assert forall|i: int| 0 <= i < self.levels@.len() implies (
                #[trigger] self.levels@[i]).next <= self.levels@[i].children@.len() by {
                    assert(self.levels@[i] == levels_before[i]);
                }
            }
        }
    }

    /// Takes the caller's report of the step handed out and moves on.
    pub fn report(&mut self, event: TreeEvent)
        requires
            old(self).well_formed(),
        ensures
            final(self).well_formed(),
            final(self)@ == old(self)@.after(event@),
    {
        let ghost before = self@;
        let ghost levels_before = self.levels@;
        match self.phase {
            TreePhase::Creating => {
                match event {
                    TreeEvent::Finished(true) => {
                        self.phase = TreePhase::Listing;
                        assert(self@ =~= before.in_phase(TreePhase::Listing));
                    },
                    TreeEvent::Finished(false) => {
                        self.phase = TreePhase::Failed;
                        assert(self@ =~= before.in_phase(TreePhase::Failed));
                    },
                    _ => {},
                }
            },
            TreePhase::Listing => {
                match event {
                    TreeEvent::Listed { children, complete } => {
                        let ghost listed = child_views(children@);
                        let opened = Level {
                            destination: self.destination.clone(),
                            children,
                            next: 0,
                            complete,
                        };
                        let ghost opened_view = opened@;
                        assert(opened_view.waiting =~= listed);
                        assert(opened_view == LevelView {
                            destination: before.destination,
                            waiting: listed,
                            complete,
                        });
                        self.levels.push(opened);
                        proof {
                            assert(self.levels@.len() == levels_before.len() + 1);
                            assert(self@.levels[levels_before.len() as int] == opened_view);
                            assert forall|i: int| 0 <= i < levels_before.len() implies self@.levels[i]
                                == before.levels[i] by {
                                assert(self.levels@[i] == levels_before[i]);
                            }
                            assert(self@.levels =~= before.levels.push(opened_view));
                            assert(self@ == TreeView {
                                levels: before.levels.push(opened_view),
                                ..before
                            });
                            assert forall|i: int| 0 <= i < self.levels@.len() implies (
                            #[trigger] self.levels@[i]).next <= self.levels@[i].children@.len() by {
                                if i < levels_before.len() {
                                    assert(self.levels@[i] == levels_before[i]);
                                }
                            }
                        }
                        self.proceed();
                    },
                    _ => {},
                }
            },
            TreePhase::Copying => {
                match event {
                    TreeEvent::Finished(true) => {
                        self.proceed();
                    },
                    TreeEvent::Finished(false) => {
                        self.phase = TreePhase::Failed;
                        assert(self@ =~= before.in_phase(TreePhase::Failed));
                    },
                    _ => {},
                }
            },
            _ => {},
        }
    }
}

} // verus!
