//! What holds of every copy of a tree in which each step goes well.

use crate::filesystem::ChildView;
use crate::paths::joined_path;
use crate::tree::{LevelView, TreePhase, TreeReport, TreeView};
use vstd::prelude::*;

verus! {

/// One child of a directory at rest, with the children below it where it
/// is a directory itself.
pub struct Branch {
    pub child: ChildView,
    pub below: Seq<Branch>,
}

/// One file copy: from where, to where.
pub struct CopyView {
    pub from: Seq<char>,
    pub to: Seq<char>,
}

/// What a listing reports of a forest's roots.
pub open spec fn children_of(forest: Seq<Branch>) -> Seq<ChildView> {
    Seq::new(forest.len(), |i: int| forest[i].child)
}

/// The path `relative` names under `base`: each name joined on in turn.
pub open spec fn under(base: Seq<char>, relative: Seq<Seq<char>>) -> Seq<char>
    decreases relative.len(),
{
    if relative.len() == 0 {
        base
    } else {
        under(joined_path(base, relative[0]), relative.skip(1))
    }
}

/// Each of `paths` with `name` put before it.
pub open spec fn below_name(name: Seq<char>, paths: Seq<Seq<Seq<char>>>) -> Seq<Seq<Seq<char>>> {
    Seq::new(paths.len(), |i: int| seq![name] + paths[i])
}

/// The files of a forest, each as the names that lead to it from the
/// forest's root, depth first and in listing order. What is not a
/// directory counts as a file.
pub open spec fn relative_files(forest: Seq<Branch>) -> Seq<Seq<Seq<char>>>
    decreases forest,
{
    if forest.len() == 0 {
        Seq::empty()
    } else {
        let first = forest[0];
        let here = if first.child.kind is Directory {
            below_name(first.child.name, relative_files(first.below))
        } else {
            seq![seq![first.child.name]]
        };
        here + relative_files(forest.skip(1))
    }
}

/// The file copies that bring a forest to `destination`, depth first and
/// in listing order.
pub open spec fn copies(forest: Seq<Branch>, destination: Seq<char>) -> Seq<CopyView>
    decreases forest,
{
    if forest.len() == 0 {
        Seq::empty()
    } else {
        let first = forest[0];
        let target = joined_path(destination, first.child.name);
        let here = if first.child.kind is Directory {
            copies(first.below, target)
        } else {
            seq![CopyView { from: first.child.path, to: target }]
        };
        here + copies(forest.skip(1), destination)
    }
}

/// Whether every child of the forest is reported under the path that joins
/// its name to its directory, the roots of the forest lying in `directory`.
pub open spec fn is_rooted_at(forest: Seq<Branch>, directory: Seq<char>) -> bool
    decreases forest,
{
    forest.len() > 0 ==> {
        let first = forest[0];
        &&& first.child.path == joined_path(directory, first.child.name)
        &&& first.child.kind is Directory ==> is_rooted_at(first.below, first.child.path)
        &&& is_rooted_at(forest.skip(1), directory)
    }
}

/// The copy of a tree mirrors it: file for file, what lies at a relative
/// path in the source is copied to the same relative path in the
/// destination, so that the copied tree lists the relative file paths that
/// the source tree lists.
pub proof fn lemma_copies_mirror_the_tree(
    forest: Seq<Branch>,
    source: Seq<char>,
    destination: Seq<char>,
)
    ensures
        copies(forest, destination).len() == relative_files(forest).len(),
        forall|k: int|
            0 <= k < relative_files(forest).len() ==> (#[trigger] copies(
                forest,
                destination,
            )[k]).to == under(destination, relative_files(forest)[k]),
        is_rooted_at(forest, source) ==> forall|k: int|
            0 <= k < relative_files(forest).len() ==> (#[trigger] copies(
                forest,
                destination,
            )[k]).from == under(source, relative_files(forest)[k]),
    decreases forest,
{
    if forest.len() > 0 {
        let first = forest[0];
        let name = first.child.name;
        let target = joined_path(destination, name);
        let rest = forest.skip(1);
        lemma_copies_mirror_the_tree(rest, source, destination);
        let here_files = if first.child.kind is Directory {
            below_name(name, relative_files(first.below))
        } else {
            seq![seq![name]]
        };
        let here_copies = if first.child.kind is Directory {
            copies(first.below, target)
        } else {
            seq![CopyView { from: first.child.path, to: target }]
        };
        if first.child.kind is Directory {
            lemma_copies_mirror_the_tree(first.below, first.child.path, target);
        }
        assert(here_files.len() == here_copies.len());
        assert forall|k: int| 0 <= k < here_files.len() implies under(destination, here_files[k])
            == here_copies[k].to && (is_rooted_at(forest, source) ==> under(
            source,
            here_files[k],
        ) == here_copies[k].from) by {
            let path = here_files[k];
            if first.child.kind is Directory {
                let deeper = relative_files(first.below)[k];
                assert(path == seq![name] + deeper);
                assert(path.skip(1) =~= deeper);
                assert(path[0] == name);
            } else {
                assert(path == seq![name]);
                assert(path.skip(1).len() == 0);
                assert(under(joined_path(destination, name), path.skip(1)) == joined_path(
                    destination,
                    name,
                ));
                assert(under(joined_path(source, name), path.skip(1)) == joined_path(
                    source,
                    name,
                ));
            }
        }
        let all_files = relative_files(forest);
        let all_copies = copies(forest, destination);
        assert(all_files == here_files + relative_files(rest));
        assert(all_copies == here_copies + copies(rest, destination));
        assert forall|k: int| 0 <= k < all_files.len() implies (#[trigger] all_copies[k]).to
            == under(destination, all_files[k]) by {
            if k >= here_files.len() {
                assert(all_copies[k] == copies(rest, destination)[k - here_files.len()]);
            }
        }
        if is_rooted_at(forest, source) {
            assert forall|k: int| 0 <= k < all_files.len() implies (#[trigger] all_copies[k]).from
                == under(source, all_files[k]) by {
                if k >= here_files.len() {
                    assert(all_copies[k] == copies(rest, destination)[k - here_files.len()]);
                }
            }
        }
    }
}

/// A directory of a tree at rest whose children are being dealt with.
pub struct Tier {
    /// Where the directory's children are copied to.
    pub destination: Seq<char>,
    /// The children that have yet to get their turn, each with what lies
    /// below it.
    pub waiting: Seq<Branch>,
}

/// The copy of a tree at rest in which every step goes well: the state of
/// the copy, together with what the tree holds where the copy has not yet
/// looked.
pub struct Course {
    /// The directories being dealt with, the outermost first.
    pub tiers: Seq<Tier>,
    /// Where the copy stands.
    pub phase: TreePhase,
    /// The directory being created or listed, or the file being copied.
    pub source: Seq<char>,
    /// Where that directory or file goes.
    pub destination: Seq<char>,
    /// The children of the directory being created or listed.
    pub entering: Seq<Branch>,
}

/// The file copies that the children waiting in `tiers` still call for, the
/// innermost directory first.
pub open spec fn pending(tiers: Seq<Tier>) -> Seq<CopyView>
    decreases tiers.len(),
{
    if tiers.len() == 0 {
        Seq::empty()
    } else {
        copies(tiers.last().waiting, tiers.last().destination) + pending(tiers.drop_last())
    }
}

/// The steps that copying a forest takes: one for each file, and for each
/// directory two, to create and to list it, besides those for what lies
/// below it.
pub open spec fn load(forest: Seq<Branch>) -> nat
    decreases forest,
{
    if forest.len() == 0 {
        0
    } else {
        let first = forest[0];
        let here: nat = if first.child.kind is Directory {
            2 + load(first.below)
        } else {
            1
        };
        here + load(forest.skip(1))
    }
}

/// The steps that the children waiting in `tiers` still call for.
pub open spec fn pending_load(tiers: Seq<Tier>) -> nat
    decreases tiers.len(),
{
    if tiers.len() == 0 {
        0
    } else {
        load(tiers.last().waiting) + pending_load(tiers.drop_last())
    }
}

impl Course {
    /// The course of copying `tree`, which lies at `source`, to
    /// `destination`, before the first step.
    pub open spec fn initial(tree: Seq<Branch>, source: Seq<char>, destination: Seq<char>)
        -> Course {
        Course {
            tiers: Seq::empty(),
            phase: TreePhase::Creating,
            source,
            destination,
            entering: tree,
        }
    }

    /// The state of the copy on this course.
    pub open spec fn state(self) -> TreeView {
        TreeView {
            levels: Seq::new(
                self.tiers.len(),
                |i: int|
                    LevelView {
                        destination: self.tiers[i].destination,
                        waiting: children_of(self.tiers[i].waiting),
                        complete: true,
                    },
            ),
            phase: self.phase,
            source: self.source,
            destination: self.destination,
        }
    }

    /// The truthful report of the step at hand, which went well.
    pub open spec fn report(self) -> TreeReport {
        match self.phase {
            TreePhase::Listing => TreeReport::Listed(children_of(self.entering), true),
            _ => TreeReport::Finished(true),
        }
    }

    /// The course as it moves on to the next child.
    pub open spec fn proceed(self) -> Course
        decreases self.tiers.len(),
    {
        if self.tiers.len() == 0 {
            Course { phase: TreePhase::Succeeded, ..self }
        } else {
            let top = self.tiers.last();
            if top.waiting.len() > 0 {
                let first = top.waiting[0];
                Course {
                    tiers: self.tiers.drop_last().push(
                        Tier { waiting: top.waiting.skip(1), ..top },
                    ),
                    phase: if first.child.kind is Directory {
                        TreePhase::Creating
                    } else {
                        TreePhase::Copying
                    },
                    source: first.child.path,
                    destination: joined_path(top.destination, first.child.name),
                    entering: first.below,
                }
            } else {
                Course { tiers: self.tiers.drop_last(), ..self }.proceed()
            }
        }
    }

    /// The course after the step at hand.
    pub open spec fn after(self) -> Course {
        match self.phase {
            TreePhase::Creating => Course { phase: TreePhase::Listing, ..self },
            TreePhase::Listing => Course {
                tiers: self.tiers.push(
                    Tier { destination: self.destination, waiting: self.entering },
                ),
                ..self
            }.proceed(),
            TreePhase::Copying => self.proceed(),
            _ => self,
        }
    }

    /// The steps that the course has yet to take, the one at hand
    /// included.
    pub open spec fn steps_left(self) -> nat {
        match self.phase {
            TreePhase::Creating => 2 + load(self.entering) + pending_load(self.tiers),
            TreePhase::Listing => 1 + load(self.entering) + pending_load(self.tiers),
            TreePhase::Copying => 1 + pending_load(self.tiers),
            _ => 0,
        }
    }

    /// The file copy that the step at hand makes, if it makes one.
    pub open spec fn at_hand(self) -> Seq<CopyView> {
        if self.phase is Copying {
            seq![CopyView { from: self.source, to: self.destination }]
        } else {
            Seq::empty()
        }
    }

    /// The file copies that the course has yet to make, the one at hand
    /// included.
    pub open spec fn ahead(self) -> Seq<CopyView> {
        match self.phase {
            TreePhase::Creating | TreePhase::Listing => copies(self.entering, self.destination)
                + pending(self.tiers),
            TreePhase::Copying => self.at_hand() + pending(self.tiers),
            _ => Seq::empty(),
        }
    }
}

proof fn lemma_proceed_in_step(course: Course)
    ensures
        course.proceed().state() == course.state().proceed(),
        course.proceed().ahead() == pending(course.tiers),
        course.proceed().steps_left() == pending_load(course.tiers),
        !(course.proceed().phase is Failed),
    decreases course.tiers.len(),
{
    let state = course.state();
    if course.tiers.len() == 0 {
        assert(course.proceed().state() =~= state.proceed());
    } else {
        let top = course.tiers.last();
        assert(state.levels.last().waiting == children_of(top.waiting));
        if top.waiting.len() > 0 {
            let first = top.waiting[0];
            let next = course.proceed();
            assert(children_of(top.waiting)[0] == first.child);
            assert(children_of(top.waiting).skip(1) =~= children_of(top.waiting.skip(1)));
            assert(next.state().levels =~= state.proceed().levels);
            let target = joined_path(top.destination, first.child.name);
            let shorter = Tier { waiting: top.waiting.skip(1), ..top };
            assert(next.tiers.last() == shorter);
            assert(next.tiers.drop_last() =~= course.tiers.drop_last());
            assert(pending(next.tiers) == copies(shorter.waiting, shorter.destination) + pending(
                course.tiers.drop_last(),
            ));
            assert(pending_load(next.tiers) == load(shorter.waiting) + pending_load(
                course.tiers.drop_last(),
            ));
            if first.child.kind is Directory {
                assert(next.ahead() =~= copies(top.waiting, top.destination) + pending(
                    course.tiers.drop_last(),
                ));
            } else {
                assert(next.ahead() =~= copies(top.waiting, top.destination) + pending(
                    course.tiers.drop_last(),
                ));
            }
        } else {
            let shorter = Course { tiers: course.tiers.drop_last(), ..course };
            lemma_proceed_in_step(shorter);
            assert forall|i: int| 0 <= i < shorter.tiers.len() implies shorter.state().levels[i]
                == state.levels[i] by {
                assert(shorter.tiers[i] == course.tiers[i]);
            }
            assert(shorter.state().levels =~= state.levels.drop_last());
            assert(shorter.state() == TreeView { levels: state.levels.drop_last(), ..state });
            assert(copies(top.waiting, top.destination).len() == 0);
            assert(pending(course.tiers) =~= pending(shorter.tiers));
            assert(load(top.waiting) == 0);
        }
    }
}

/// The course begins where the copy begins, with every file copy of the
/// tree ahead of it.
pub proof fn lemma_course_begins(tree: Seq<Branch>, source: Seq<char>, destination: Seq<char>)
    ensures
        Course::initial(tree, source, destination).state() == TreeView::initial(
            source,
            destination,
        ),
        Course::initial(tree, source, destination).ahead() == copies(tree, destination),
{
    let course = Course::initial(tree, source, destination);
    assert(course.state().levels =~= Seq::<LevelView>::empty());
    assert(course.ahead() =~= copies(tree, destination));
}

/// The copy keeps to the course. Where each step goes well and is reported
/// truthfully, the state of the copy after the report is the state on the
/// course after the step; the file copies ahead are those that were ahead,
/// less the one just made; and the copy does not fail. From its first step
/// to its last, such a copy makes the file copies of the tree, each once
/// and in order.
pub proof fn lemma_copy_keeps_to_the_course(course: Course)
    ensures
        course.state().after(course.report()) == course.after().state(),
        course.ahead() == course.at_hand() + course.after().ahead(),
        !(course.phase is Failed) ==> !(course.after().phase is Failed),
        course.phase is Succeeded ==> course.ahead().len() == 0,
{
    match course.phase {
        TreePhase::Creating => {
            assert(course.after().state() =~= course.state().in_phase(TreePhase::Listing));
            assert(course.ahead() =~= course.at_hand() + course.after().ahead());
        },
        TreePhase::Listing => {
            let opened = Course {
                tiers: course.tiers.push(
                    Tier { destination: course.destination, waiting: course.entering },
                ),
                ..course
            };
            lemma_proceed_in_step(opened);
            let state = course.state();
            let level = LevelView {
                destination: state.destination,
                waiting: children_of(course.entering),
                complete: true,
            };
            assert forall|i: int| 0 <= i < opened.tiers.len() implies opened.state().levels[i]
                == state.levels.push(level)[i] by {
                if i < course.tiers.len() {
                    assert(opened.tiers[i] == course.tiers[i]);
                } else {
                    assert(opened.tiers[i] == Tier {
                        destination: course.destination,
                        waiting: course.entering,
                    });
                }
            }
            assert(opened.state().levels =~= state.levels.push(level));
            assert(opened.state() == TreeView { levels: state.levels.push(level), ..state });
            assert(opened.tiers.drop_last() =~= course.tiers);
            assert(course.ahead() =~= course.at_hand() + course.after().ahead());
        },
        TreePhase::Copying => {
            lemma_proceed_in_step(course);
        },
        _ => {
            assert(course.ahead() =~= course.at_hand() + course.after().ahead());
        },
    }
}

/// Every step brings the copy closer to its end: on a course that is not
/// over, one step less is left after the step at hand. A caller that
/// performs each step is done after as many steps as the tree calls for.
pub proof fn lemma_step_makes_progress(course: Course)
    requires
        !course.state().is_over(),
    ensures
        course.after().steps_left() + 1 == course.steps_left(),
{
    match course.phase {
        TreePhase::Listing => {
            let opened = Course {
                tiers: course.tiers.push(
                    Tier { destination: course.destination, waiting: course.entering },
                ),
                ..course
            };
            lemma_proceed_in_step(opened);
            assert(opened.tiers.drop_last() =~= course.tiers);
        },
        TreePhase::Copying => {
            lemma_proceed_in_step(course);
        },
        _ => {},
    }
}

} // verus!
