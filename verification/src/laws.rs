//! What holds of every expansion.

use crate::expression::{is_separator, kind_of, split_segments, SegmentKind};
use crate::filesystem::{
    expand, expand_from, expand_segments, matching, reach, sweep, visit, ChildView, EntryKind,
    FileSystem, Harvest,
};
use crate::matcher::{is_literal, lemma_literal_matches_itself_only};
use crate::paths::{joined_path, parent_path};
use vstd::prelude::*;

verus! {

/// Whether every directory a harvest holds is a directory of `fs`, and it
/// holds no file.
pub open spec fn holds_directories_only(fs: FileSystem, harvest: Harvest) -> bool {
    &&& harvest.files.len() == 0
    &&& forall|k: int|
        0 <= k < harvest.directories.len() ==> fs.directories.contains(
            #[trigger] harvest.directories[k],
        )
}

/// The harvest that an expansion starts from: the start directory alone.
pub open spec fn outset(start: Seq<char>) -> Harvest {
    Harvest { directories: seq![start], files: Seq::empty() }
}

/// A sweep over two frontiers, one after the other, brings in what the two
/// sweeps bring in, one after the other.
pub proof fn lemma_sweep_distributes(
    fs: FileSystem,
    segment: Seq<char>,
    left: Seq<Seq<char>>,
    right: Seq<Seq<char>>,
)
    ensures
        sweep(fs, segment, left + right) == sweep(fs, segment, left).then_also(
            sweep(fs, segment, right),
        ),
    decreases left.len(),
{
    let both = sweep(fs, segment, left).then_also(sweep(fs, segment, right));
    if left.len() == 0 {
        assert(left + right =~= right);
        assert(sweep(fs, segment, left + right).directories =~= both.directories);
        assert(sweep(fs, segment, left + right).files =~= both.files);
    } else {
        lemma_sweep_distributes(fs, segment, left.skip(1), right);
        assert((left + right).skip(1) =~= left.skip(1) + right);
        assert((left + right)[0] == left[0]);
        assert(sweep(fs, segment, left + right).directories =~= both.directories);
        assert(sweep(fs, segment, left + right).files =~= both.files);
    }
}

/// Segments applied one after the other lead where the first of them lead,
/// and from there the rest.
pub proof fn lemma_reach_in_two_legs(
    fs: FileSystem,
    from: Harvest,
    segments: Seq<Seq<char>>,
    middle: int,
)
    requires
        0 <= middle <= segments.len(),
    ensures
        reach(fs, from, segments) == reach(
            fs,
            reach(fs, from, segments.take(middle)),
            segments.skip(middle),
        ),
    decreases middle,
{
    if middle == 0 {
        assert(segments.take(0).len() == 0);
        assert(segments.skip(0) =~= segments);
    } else {
        let next = sweep(fs, segments[0], from.directories);
        lemma_reach_in_two_legs(fs, next, segments.skip(1), middle - 1);
        assert(segments.take(middle).skip(1) =~= segments.skip(1).take(middle - 1));
        assert(segments.skip(1).skip(middle - 1) =~= segments.skip(middle));
        assert(segments.take(middle)[0] == segments[0]);
    }
}

/// From an empty frontier no segment leads anywhere.
pub proof fn lemma_nothing_comes_of_nothing(
    fs: FileSystem,
    files: Seq<Seq<char>>,
    segments: Seq<Seq<char>>,
)
    requires
        segments.len() >= 1,
    ensures
        expand_from(fs, Seq::empty(), files, segments).len() == 0,
    decreases segments.len(),
{
    let next = sweep(fs, segments[0], Seq::<Seq<char>>::empty());
    let from = Harvest { directories: Seq::empty(), files };
    assert(next == Harvest::nothing());
    assert(reach(fs, from, segments) == reach(fs, next, segments.skip(1)));
    if segments.len() > 1 {
        lemma_nothing_comes_of_nothing(fs, Seq::empty(), segments.skip(1));
    } else {
        assert(segments.skip(1).len() == 0);
        assert(reach(fs, next, segments.skip(1)) == next);
    }
}

/// A directory at which an intermediate segment brings in no directory
/// might as well not be in the frontier: whatever files the segment matches
/// there, the segments after it find nothing to work on.
pub proof fn lemma_fruitless_branch_contributes_nothing(
    fs: FileSystem,
    left: Seq<Seq<char>>,
    branch: Seq<char>,
    right: Seq<Seq<char>>,
    files: Seq<Seq<char>>,
    segments: Seq<Seq<char>>,
)
    requires
        segments.len() >= 2,
        visit(fs, segments[0], branch).directories.len() == 0,
    ensures
        expand_from(fs, left + seq![branch] + right, files, segments) == expand_from(
            fs,
            left + right,
            files,
            segments,
        ),
{
    let segment = segments[0];
    lemma_sweep_distributes(fs, segment, left + seq![branch], right);
    lemma_sweep_distributes(fs, segment, left, seq![branch]);
    lemma_sweep_distributes(fs, segment, left, right);
    assert(seq![branch].skip(1) =~= Seq::<Seq<char>>::empty());
    assert(sweep(fs, segment, seq![branch].skip(1)) == Harvest::nothing());
    let with = sweep(fs, segment, left + seq![branch] + right);
    let without = sweep(fs, segment, left + right);
    assert(sweep(fs, segment, seq![branch]).directories =~= visit(
        fs,
        segment,
        branch,
    ).directories);
    assert(with.directories =~= without.directories);
    let rest = segments.skip(1);
    assert(rest.len() >= 1);
    assert(reach(fs, with, rest) == reach(fs, sweep(fs, rest[0], with.directories), rest.skip(1)));
    assert(reach(fs, without, rest) == reach(
        fs,
        sweep(fs, rest[0], without.directories),
        rest.skip(1),
    ));
}

/// A fruitless branch at any depth: where the segments before the `depth`-th
/// lead to a frontier with `branch` in it, and the `depth`-th, not the last,
/// brings in no directory at `branch`, the expression matches what it would
/// match were `branch` not in that frontier.
pub proof fn lemma_fruitless_branch_at_depth(
    fs: FileSystem,
    start: Seq<char>,
    segments: Seq<Seq<char>>,
    depth: int,
    left: Seq<Seq<char>>,
    branch: Seq<char>,
    right: Seq<Seq<char>>,
)
    requires
        0 <= depth,
        depth + 1 < segments.len(),
        reach(fs, outset(start), segments.take(depth)).directories == left + seq![branch] + right,
        visit(fs, segments[depth], branch).directories.len() == 0,
    ensures
        expand_segments(fs, start, segments) == expand_from(
            fs,
            left + right,
            Seq::empty(),
            segments.skip(depth),
        ),
{
    lemma_reach_in_two_legs(fs, outset(start), segments, depth);
    let middle = reach(fs, outset(start), segments.take(depth));
    let rest = segments.skip(depth);
    assert(rest[0] == segments[depth]);
    lemma_fruitless_branch_contributes_nothing(fs, left, branch, right, middle.files, rest);
    assert(reach(fs, middle, rest) == reach(
        fs,
        Harvest { directories: middle.directories, files: middle.files },
        rest,
    ));
    assert(reach(fs, Harvest { directories: left + right, files: middle.files }, rest) == reach(
        fs,
        Harvest { directories: left + right, files: Seq::empty() },
        rest,
    ));
}

/// Applying `.` to a frontier before another segment changes nothing of
/// what that segment brings in: the paths that `.` drops are those the next
/// segment passes over as well.
proof fn lemma_sweep_after_current(
    fs: FileSystem,
    current: Seq<char>,
    segment: Seq<char>,
    frontier: Seq<Seq<char>>,
)
    requires
        kind_of(current) is Current,
    ensures
        sweep(fs, segment, sweep(fs, current, frontier).directories) == sweep(
            fs,
            segment,
            frontier,
        ),
    decreases frontier.len(),
{
    if frontier.len() > 0 {
        let first = frontier[0];
        let rest = frontier.skip(1);
        lemma_sweep_after_current(fs, current, segment, rest);
        let kept = sweep(fs, current, rest).directories;
        if fs.directories.contains(first) {
            assert(sweep(fs, current, frontier).directories =~= seq![first] + kept);
            assert((seq![first] + kept).skip(1) =~= kept);
        } else {
            assert(sweep(fs, current, frontier).directories =~= kept);
            let passed = visit(fs, segment, first);
            assert(passed == Harvest::nothing());
            let after = sweep(fs, segment, rest);
            assert(passed.then_also(after).directories =~= after.directories);
            assert(passed.then_also(after).files =~= after.files);
        }
    }
}

/// Applying `.` to directories brings in exactly those directories.
proof fn lemma_current_keeps_directories(
    fs: FileSystem,
    current: Seq<char>,
    frontier: Seq<Seq<char>>,
)
    requires
        kind_of(current) is Current,
        forall|k: int| 0 <= k < frontier.len() ==> fs.directories.contains(#[trigger] frontier[k]),
    ensures
        sweep(fs, current, frontier).directories == frontier,
        sweep(fs, current, frontier).files.len() == 0,
    decreases frontier.len(),
{
    if frontier.len() > 0 {
        assert(fs.directories.contains(frontier[0]));
        assert forall|k: int| 0 <= k < frontier.skip(1).len() implies fs.directories.contains(
            #[trigger] frontier.skip(1)[k],
        ) by {
            assert(frontier.skip(1)[k] == frontier[k + 1]);
        }
        lemma_current_keeps_directories(fs, current, frontier.skip(1));
        assert(seq![frontier[0]] + frontier.skip(1) =~= frontier);
    } else {
        assert(sweep(fs, current, frontier).directories =~= frontier);
    }
}

proof fn lemma_current_is_neutral_from(
    fs: FileSystem,
    from: Harvest,
    segments: Seq<Seq<char>>,
    at: int,
)
    requires
        0 <= at,
        at + 1 < segments.len(),
        kind_of(segments[at]) is Current,
    ensures
        reach(fs, from, segments) == reach(fs, from, segments.remove(at)),
    decreases at,
{
    let shorter = segments.remove(at);
    if at == 0 {
        let rest = segments.skip(1);
        assert(shorter =~= rest);
        assert(rest.len() >= 1);
        lemma_sweep_after_current(fs, segments[0], rest[0], from.directories);
        assert(reach(fs, from, segments) == reach(
            fs,
            sweep(fs, segments[0], from.directories),
            rest,
        ));
    } else {
        let next = sweep(fs, segments[0], from.directories);
        lemma_current_is_neutral_from(fs, next, segments.skip(1), at - 1);
        assert(shorter.skip(1) =~= segments.skip(1).remove(at - 1));
        assert(shorter[0] == segments[0]);
    }
}

/// A `.` segment can be struck from an expression: `a/./b` matches what
/// `a/b` matches. For a `.` that is the last segment this holds where the
/// segments before it lead to directories only; it is there that `.` and
/// its absence part ways, the one keeping the directories that still
/// exist, the other keeping the files as well.
pub proof fn lemma_current_segment_is_neutral(
    fs: FileSystem,
    start: Seq<char>,
    segments: Seq<Seq<char>>,
    at: int,
)
    requires
        0 <= at < segments.len(),
        kind_of(segments[at]) is Current,
        at + 1 < segments.len() || holds_directories_only(
            fs,
            reach(fs, outset(start), segments.take(at)),
        ),
    ensures
        expand_segments(fs, start, segments) == expand_segments(fs, start, segments.remove(at)),
{
    if at + 1 < segments.len() {
        lemma_current_is_neutral_from(fs, outset(start), segments, at);
    } else {
        lemma_reach_in_two_legs(fs, outset(start), segments, at);
        let middle = reach(fs, outset(start), segments.take(at));
        let last = segments.skip(at);
        assert(last.len() == 1);
        assert(last[0] == segments[at]);
        assert(last.skip(1).len() == 0);
        lemma_current_keeps_directories(fs, segments[at], middle.directories);
        assert(segments.remove(at) =~= segments.take(at));
        let end = sweep(fs, segments[at], middle.directories);
        assert(reach(fs, end, last.skip(1)) == end);
        assert(reach(fs, middle, last) == end);
        assert(end.directories + end.files =~= middle.directories + middle.files);
    }
}

/// The same of expressions as they are written: `left/./right` matches what
/// `left/right` matches.
pub proof fn lemma_current_segment_in_expression(
    fs: FileSystem,
    start: Seq<char>,
    left: Seq<char>,
    right: Seq<char>,
)
    ensures
        expand(fs, start, left.push('/').push('.').push('/') + right) == expand(
            fs,
            start,
            left.push('/') + right,
        ),
{
    let dot = seq!['.'];
    let with = left.push('/').push('.').push('/') + right;
    let without = left.push('/') + right;
    crate::expression::lemma_split_around_separator(left.push('/').push('.'), '/', right);
    crate::expression::lemma_split_around_separator(left, '/', dot);
    crate::expression::lemma_split_around_separator(left, '/', right);
    crate::expression::lemma_split_is_not_empty(left);
    crate::expression::lemma_split_is_not_empty(right);
    assert(left.push('/') + dot =~= left.push('/').push('.'));
    assert(crate::expression::is_plain(dot));
    crate::expression::lemma_split_of_plain(dot);
    let a = split_segments(left);
    let b = split_segments(right);
    assert(split_segments(with) == a + seq![dot] + b);
    assert(split_segments(without) == a + b);
    let at = a.len() as int;
    assert((a + seq![dot] + b)[at] == dot);
    assert((a + seq![dot] + b).remove(at) =~= a + b);
    lemma_current_segment_is_neutral(fs, start, a + seq![dot] + b, at);
}

/// A literal segment picks at most one child out of a listing that reports
/// no name twice, and none where no child bears its name.
proof fn lemma_literal_picks_at_most_one(segment: Seq<char>, children: Seq<ChildView>)
    requires
        is_literal(segment),
        forall|i: int, j: int|
            0 <= i < j < children.len() ==> (#[trigger] children[i]).name != (
            #[trigger] children[j]).name,
    ensures
        matching(segment, children, EntryKind::Directory).len() + matching(
            segment,
            children,
            EntryKind::File,
        ).len() <= 1,
        (forall|i: int| 0 <= i < children.len() ==> (#[trigger] children[i]).name != segment)
            ==> matching(segment, children, EntryKind::Directory).len() + matching(
            segment,
            children,
            EntryKind::File,
        ).len() == 0,
    decreases children.len(),
{
    if children.len() > 0 {
        let earlier = children.drop_last();
        let last = children.last();
        assert forall|i: int, j: int| 0 <= i < j < earlier.len() implies (
        #[trigger] earlier[i]).name != (#[trigger] earlier[j]).name by {
            assert(earlier[i] == children[i]);
            assert(earlier[j] == children[j]);
        }
        lemma_literal_picks_at_most_one(segment, earlier);
        lemma_literal_matches_itself_only(segment, last.name);
        if last.name == segment {
            assert forall|i: int| 0 <= i < earlier.len() implies (#[trigger] earlier[i]).name
                != segment by {
                assert(earlier[i] == children[i]);
                assert(children[i].name != children[children.len() - 1].name);
            }
        }
        if forall|i: int| 0 <= i < children.len() ==> (#[trigger] children[i]).name != segment {
            assert forall|i: int| 0 <= i < earlier.len() implies (#[trigger] earlier[i]).name
                != segment by {
                assert(earlier[i] == children[i]);
            }
            assert(children[children.len() - 1].name != segment);
        }
    }
}

proof fn lemma_literal_visit_brings_at_most_one(
    fs: FileSystem,
    segment: Seq<char>,
    directory: Seq<char>,
)
    requires
        fs.names_are_unique(),
        is_literal(segment),
    ensures
        visit(fs, segment, directory).directories.len() + visit(
            fs,
            segment,
            directory,
        ).files.len() <= 1,
{
    if kind_of(segment) is Pattern && fs.directories.contains(directory)
        && fs.listings.dom().contains(directory) {
        let children = fs.listings[directory];
        assert forall|i: int, j: int| 0 <= i < j < children.len() implies (
        #[trigger] children[i]).name != (#[trigger] children[j]).name by {
            assert(fs.listings[directory][i].name != fs.listings[directory][j].name);
        }
        lemma_literal_picks_at_most_one(segment, children);
    }
}

proof fn lemma_literal_reach_holds_at_most_one(
    fs: FileSystem,
    from: Harvest,
    segments: Seq<Seq<char>>,
)
    requires
        fs.names_are_unique(),
        from.directories.len() + from.files.len() <= 1,
        forall|k: int| 0 <= k < segments.len() ==> is_literal(#[trigger] segments[k]),
    ensures
        reach(fs, from, segments).directories.len() + reach(fs, from, segments).files.len() <= 1,
    decreases segments.len(),
{
    if segments.len() > 0 {
        let segment = segments[0];
        let next = sweep(fs, segment, from.directories);
        assert(is_literal(segment));
        if from.directories.len() == 1 {
            lemma_literal_visit_brings_at_most_one(fs, segment, from.directories[0]);
            assert(from.directories.skip(1).len() == 0);
            assert(sweep(fs, segment, from.directories.skip(1)) == Harvest::nothing());
        }
        assert forall|k: int| 0 <= k < segments.skip(1).len() implies is_literal(
            #[trigger] segments.skip(1)[k],
        ) by {
            assert(segments.skip(1)[k] == segments[k + 1]);
        }
        lemma_literal_reach_holds_at_most_one(fs, next, segments.skip(1));
    }
}

/// The segments of a text without wildcard glyphs hold none either.
proof fn lemma_literal_text_has_literal_segments(text: Seq<char>)
    requires
        is_literal(text),
    ensures
        forall|k: int|
            0 <= k < split_segments(text).len() ==> is_literal(#[trigger] split_segments(text)[k]),
    decreases text.len(),
{
    if text.len() > 0 {
        let shorter = text.drop_last();
        assert forall|i: int| 0 <= i < shorter.len() implies !crate::matcher::is_wildcard(
            #[trigger] shorter[i],
        ) by {
            assert(shorter[i] == text[i]);
        }
        lemma_literal_text_has_literal_segments(shorter);
        crate::expression::lemma_split_is_not_empty(shorter);
        let before = split_segments(shorter);
        assert(!crate::matcher::is_wildcard(text[text.len() - 1]));
        if !is_separator(text.last()) {
            let grown = before.last().push(text.last());
            assert(is_literal(before[before.len() - 1]));
            assert forall|i: int| 0 <= i < grown.len() implies !crate::matcher::is_wildcard(
                #[trigger] grown[i],
            ) by {
                if i < before.last().len() {
                    assert(grown[i] == before.last()[i]);
                }
            }
            assert forall|k: int| 0 <= k < split_segments(text).len() implies is_literal(
                #[trigger] split_segments(text)[k],
            ) by {
                if k < before.len() - 1 {
                    assert(split_segments(text)[k] == before[k]);
                } else {
                    assert(split_segments(text)[k] == grown);
                }
            }
        } else {
            assert forall|k: int| 0 <= k < split_segments(text).len() implies is_literal(
                #[trigger] split_segments(text)[k],
            ) by {
                if k < before.len() {
                    assert(split_segments(text)[k] == before[k]);
                }
            }
        }
    }
}

/// Where one literal segment leads from `path`: nowhere else for `.`, to
/// the parent for `..`, and to the child of that name for any other.
pub open spec fn literal_step(path: Seq<char>, segment: Seq<char>) -> Seq<char> {
    match kind_of(segment) {
        SegmentKind::Current => path,
        SegmentKind::Parent => parent_path(path),
        SegmentKind::Pattern => joined_path(path, segment),
    }
}

/// The path that literal segments spell out from `start`.
pub open spec fn literal_path(start: Seq<char>, segments: Seq<Seq<char>>) -> Seq<char>
    decreases segments.len(),
{
    if segments.len() == 0 {
        start
    } else {
        literal_path(literal_step(start, segments[0]), segments.skip(1))
    }
}

/// Whether every path of `paths` is `path`.
pub open spec fn all_are(paths: Seq<Seq<char>>, path: Seq<char>) -> bool {
    forall|k: int| 0 <= k < paths.len() ==> #[trigger] paths[k] == path
}

proof fn lemma_literal_picks_the_joined_path(
    segment: Seq<char>,
    directory: Seq<char>,
    children: Seq<ChildView>,
    kind: EntryKind,
)
    requires
        is_literal(segment),
        forall|i: int|
            0 <= i < children.len() ==> (#[trigger] children[i]).path == joined_path(
                directory,
                children[i].name,
            ),
    ensures
        all_are(matching(segment, children, kind), joined_path(directory, segment)),
    decreases children.len(),
{
    if children.len() > 0 {
        let earlier = children.drop_last();
        assert forall|i: int| 0 <= i < earlier.len() implies (#[trigger] earlier[i]).path
            == joined_path(directory, earlier[i].name) by {
            assert(earlier[i] == children[i]);
        }
        lemma_literal_picks_the_joined_path(segment, directory, earlier, kind);
        lemma_literal_matches_itself_only(segment, children.last().name);
        assert(children[children.len() - 1].path == joined_path(
            directory,
            children[children.len() - 1].name,
        ));
    }
}

proof fn lemma_literal_visit_brings_the_step(
    fs: FileSystem,
    segment: Seq<char>,
    directory: Seq<char>,
)
    requires
        fs.paths_are_joined(),
        is_literal(segment),
    ensures
        all_are(visit(fs, segment, directory).directories, literal_step(directory, segment)),
        all_are(visit(fs, segment, directory).files, literal_step(directory, segment)),
{
    if kind_of(segment) is Pattern && fs.directories.contains(directory)
        && fs.listings.dom().contains(directory) {
        let children = fs.listings[directory];
        assert forall|i: int| 0 <= i < children.len() implies (#[trigger] children[i]).path
            == joined_path(directory, children[i].name) by {
            assert(fs.listings[directory][i].path == joined_path(
                directory,
                fs.listings[directory][i].name,
            ));
        }
        lemma_literal_picks_the_joined_path(segment, directory, children, EntryKind::Directory);
        lemma_literal_picks_the_joined_path(segment, directory, children, EntryKind::File);
    }
}

proof fn lemma_literal_reach_holds_the_path(
    fs: FileSystem,
    from: Harvest,
    path: Seq<char>,
    segments: Seq<Seq<char>>,
)
    requires
        fs.names_are_unique(),
        fs.paths_are_joined(),
        from.directories.len() + from.files.len() <= 1,
        all_are(from.directories, path),
        all_are(from.files, path),
        forall|k: int| 0 <= k < segments.len() ==> is_literal(#[trigger] segments[k]),
    ensures
        all_are(reach(fs, from, segments).directories, literal_path(path, segments)),
        all_are(reach(fs, from, segments).files, literal_path(path, segments)),
    decreases segments.len(),
{
    if segments.len() > 0 {
        let segment = segments[0];
        let next = sweep(fs, segment, from.directories);
        assert(is_literal(segment));
        if from.directories.len() == 1 {
            assert(from.directories[0] == path);
            lemma_literal_visit_brings_at_most_one(fs, segment, path);
            lemma_literal_visit_brings_the_step(fs, segment, path);
            assert(from.directories.skip(1).len() == 0);
            assert(sweep(fs, segment, from.directories.skip(1)) == Harvest::nothing());
            assert(next.directories =~= visit(fs, segment, path).directories);
            assert(next.files =~= visit(fs, segment, path).files);
        }
        assert forall|k: int| 0 <= k < segments.skip(1).len() implies is_literal(
            #[trigger] segments.skip(1)[k],
        ) by {
            assert(segments.skip(1)[k] == segments[k + 1]);
        }
        lemma_literal_reach_holds_the_path(
            fs,
            next,
            literal_step(path, segment),
            segments.skip(1),
        );
    }
}

/// What segments without wildcard glyphs match is the path they spell out,
/// if anything: in a file system whose listings report each child once and
/// under its joined path, the matches are none, or that one path.
pub proof fn lemma_literal_segments_match_their_path(
    fs: FileSystem,
    start: Seq<char>,
    segments: Seq<Seq<char>>,
)
    requires
        fs.names_are_unique(),
        fs.paths_are_joined(),
        forall|k: int| 0 <= k < segments.len() ==> is_literal(#[trigger] segments[k]),
    ensures
        expand_segments(fs, start, segments).len() <= 1,
        all_are(expand_segments(fs, start, segments), literal_path(start, segments)),
{
    lemma_literal_reach_holds_at_most_one(fs, outset(start), segments);
    lemma_literal_reach_holds_the_path(fs, outset(start), start, segments);
}

/// Whether one of `children` has the name `name` and is of kind `kind`.
pub open spec fn has_child(children: Seq<ChildView>, name: Seq<char>, kind: EntryKind) -> bool {
    exists|i: int|
        0 <= i < children.len() && (#[trigger] children[i]).name == name && children[i].kind
            == kind
}

/// Whether `directory` is a directory of `fs` whose listing reports a child
/// of the name `name` and the kind `kind`.
pub open spec fn names_child(
    fs: FileSystem,
    directory: Seq<char>,
    name: Seq<char>,
    kind: EntryKind,
) -> bool {
    &&& fs.directories.contains(directory)
    &&& fs.listings.dom().contains(directory)
    &&& has_child(fs.listings[directory], name, kind)
}

/// Whether the path that the names `names` spell out from `start` is
/// there: each name but the last is that of a directory in the directory
/// before it, and the last is that of a directory or of a file.
pub open spec fn is_there(fs: FileSystem, start: Seq<char>, names: Seq<Seq<char>>) -> bool
    decreases names.len(),
{
    if names.len() == 0 {
        true
    } else if names.len() == 1 {
        names_child(fs, start, names[0], EntryKind::Directory) || names_child(
            fs,
            start,
            names[0],
            EntryKind::File,
        )
    } else {
        names_child(fs, start, names[0], EntryKind::Directory) && is_there(
            fs,
            joined_path(start, names[0]),
            names.skip(1),
        )
    }
}

/// Whether `segment` is a plain name: without wildcard glyphs, and neither
/// `.` nor `..`.
pub open spec fn is_name(segment: Seq<char>) -> bool {
    is_literal(segment) && kind_of(segment) is Pattern
}

proof fn lemma_literal_picks_the_named_child(
    segment: Seq<char>,
    directory: Seq<char>,
    children: Seq<ChildView>,
    kind: EntryKind,
)
    requires
        is_literal(segment),
        forall|i: int, j: int|
            0 <= i < j < children.len() ==> (#[trigger] children[i]).name != (
            #[trigger] children[j]).name,
        forall|i: int|
            0 <= i < children.len() ==> (#[trigger] children[i]).path == joined_path(
                directory,
                children[i].name,
            ),
    ensures
        matching(segment, children, kind) == if has_child(children, segment, kind) {
            seq![joined_path(directory, segment)]
        } else {
            Seq::empty()
        },
    decreases children.len(),
{
    if children.len() == 0 {
        assert(!has_child(children, segment, kind));
    } else {
        let earlier = children.drop_last();
        let last = children.last();
        let at_last = children.len() - 1;
        assert forall|i: int, j: int| 0 <= i < j < earlier.len() implies (
        #[trigger] earlier[i]).name != (#[trigger] earlier[j]).name by {
            assert(earlier[i] == children[i]);
            assert(earlier[j] == children[j]);
        }
        assert forall|i: int| 0 <= i < earlier.len() implies (#[trigger] earlier[i]).path
            == joined_path(directory, earlier[i].name) by {
            assert(earlier[i] == children[i]);
        }
        lemma_literal_picks_the_named_child(segment, directory, earlier, kind);
        lemma_literal_matches_itself_only(segment, last.name);
        assert(children[at_last].path == joined_path(directory, children[at_last].name));
        if last.name == segment && last.kind == kind {
            assert(children[at_last].name == segment && children[at_last].kind == kind);
            assert(has_child(children, segment, kind));
            if has_child(earlier, segment, kind) {
                let i = choose|i: int|
                    0 <= i < earlier.len() && (#[trigger] earlier[i]).name == segment
                        && earlier[i].kind == kind;
                assert(earlier[i] == children[i]);
                assert(children[i].name != children[at_last].name);
            }
            assert(matching(segment, children, kind) =~= seq![joined_path(directory, segment)]);
        } else {
            if has_child(children, segment, kind) {
                let i = choose|i: int|
                    0 <= i < children.len() && (#[trigger] children[i]).name == segment
                        && children[i].kind == kind;
                assert(i < at_last);
                assert(earlier[i] == children[i]);
                assert(earlier[i].name == segment && earlier[i].kind == kind);
                assert(has_child(earlier, segment, kind));
            }
            if has_child(earlier, segment, kind) {
                let i = choose|i: int|
                    0 <= i < earlier.len() && (#[trigger] earlier[i]).name == segment
                        && earlier[i].kind == kind;
                assert(earlier[i] == children[i]);
                assert(children[i].name == segment && children[i].kind == kind);
                assert(has_child(children, segment, kind));
            }
        }
    }
}

proof fn lemma_name_visit_brings_the_named_child(
    fs: FileSystem,
    segment: Seq<char>,
    directory: Seq<char>,
)
    requires
        fs.names_are_unique(),
        fs.paths_are_joined(),
        is_name(segment),
    ensures
        visit(fs, segment, directory).directories == if names_child(
            fs,
            directory,
            segment,
            EntryKind::Directory,
        ) {
            seq![joined_path(directory, segment)]
        } else {
            Seq::empty()
        },
        visit(fs, segment, directory).files == if names_child(
            fs,
            directory,
            segment,
            EntryKind::File,
        ) {
            seq![joined_path(directory, segment)]
        } else {
            Seq::empty()
        },
        visit(fs, segment, directory).directories.len() + visit(
            fs,
            segment,
            directory,
        ).files.len() <= 1,
{
    lemma_literal_visit_brings_at_most_one(fs, segment, directory);
    if fs.directories.contains(directory) && fs.listings.dom().contains(directory) {
        let children = fs.listings[directory];
        assert forall|i: int, j: int| 0 <= i < j < children.len() implies (
        #[trigger] children[i]).name != (#[trigger] children[j]).name by {
            assert(fs.listings[directory][i].name != fs.listings[directory][j].name);
        }
        assert forall|i: int| 0 <= i < children.len() implies (#[trigger] children[i]).path
            == joined_path(directory, children[i].name) by {
            assert(fs.listings[directory][i].path == joined_path(
                directory,
                fs.listings[directory][i].name,
            ));
        }
        lemma_literal_picks_the_named_child(segment, directory, children, EntryKind::Directory);
        lemma_literal_picks_the_named_child(segment, directory, children, EntryKind::File);
    }
}

proof fn lemma_names_reach_what_is_there(
    fs: FileSystem,
    start: Seq<char>,
    names: Seq<Seq<char>>,
)
    requires
        fs.names_are_unique(),
        fs.paths_are_joined(),
        forall|k: int| 0 <= k < names.len() ==> is_name(#[trigger] names[k]),
    ensures
        expand_segments(fs, start, names) == if is_there(fs, start, names) {
            seq![literal_path(start, names)]
        } else {
            Seq::empty()
        },
    decreases names.len(),
{
    if names.len() == 0 {
        assert(expand_segments(fs, start, names) =~= seq![start]);
    } else {
        let name = names[0];
        let rest = names.skip(1);
        let child = joined_path(start, name);
        assert(is_name(name));
        lemma_name_visit_brings_the_named_child(fs, name, start);
        let found = visit(fs, name, start);
        let next = sweep(fs, name, seq![start]);
        assert(seq![start].skip(1).len() == 0);
        assert(sweep(fs, name, seq![start].skip(1)) == Harvest::nothing());
        assert(next.directories =~= found.directories);
        assert(next.files =~= found.files);
        assert(reach(fs, outset(start), names) == reach(fs, next, rest));
        assert(literal_path(start, names) == literal_path(child, rest));
        if names.len() == 1 {
            assert(rest.len() == 0);
            assert(reach(fs, next, rest) == next);
            assert(literal_path(child, rest) == child);
            if names_child(fs, start, name, EntryKind::Directory) {
                assert(next.files.len() == 0);
                assert(next.directories + next.files =~= seq![child]);
            } else if names_child(fs, start, name, EntryKind::File) {
                assert(next.directories + next.files =~= seq![child]);
            } else {
                assert(next.directories + next.files =~= Seq::<Seq<char>>::empty());
            }
        } else {
            assert forall|k: int| 0 <= k < rest.len() implies is_name(#[trigger] rest[k]) by {
                assert(rest[k] == names[k + 1]);
            }
            assert(reach(fs, next, rest) == reach(
                fs,
                sweep(fs, rest[0], next.directories),
                rest.skip(1),
            ));
            if names_child(fs, start, name, EntryKind::Directory) {
                lemma_names_reach_what_is_there(fs, child, rest);
                assert(reach(fs, outset(child), rest) == reach(
                    fs,
                    sweep(fs, rest[0], outset(child).directories),
                    rest.skip(1),
                ));
            } else {
                lemma_nothing_comes_of_nothing(fs, next.files, rest);
                assert(next == Harvest { directories: Seq::empty(), files: next.files });
                assert(expand_segments(fs, start, names) =~= Seq::<Seq<char>>::empty());
            }
        }
    }
}

/// Plain names match the path they spell out exactly when it is there. In
/// a file system whose listings report each child once and under its
/// joined path, an expression made of names alone matches that one path
/// where each name but the last is a directory in the directory before it
/// and the last a directory or a file, and matches nothing where not.
pub proof fn lemma_names_match_what_is_there(
    fs: FileSystem,
    start: Seq<char>,
    names: Seq<Seq<char>>,
)
    requires
        fs.names_are_unique(),
        fs.paths_are_joined(),
        forall|k: int| 0 <= k < names.len() ==> is_name(#[trigger] names[k]),
    ensures
        is_there(fs, start, names) ==> expand_segments(fs, start, names) == seq![
            literal_path(start, names),
        ],
        !is_there(fs, start, names) ==> expand_segments(fs, start, names).len() == 0,
{
    lemma_names_reach_what_is_there(fs, start, names);
}

/// Segments without wildcard glyphs match at most one path, in a file
/// system whose listings report no name twice.
pub proof fn lemma_literal_segments_match_at_most_one(
    fs: FileSystem,
    start: Seq<char>,
    segments: Seq<Seq<char>>,
)
    requires
        fs.names_are_unique(),
        forall|k: int| 0 <= k < segments.len() ==> is_literal(#[trigger] segments[k]),
    ensures
        expand_segments(fs, start, segments).len() <= 1,
{
    lemma_literal_reach_holds_at_most_one(fs, outset(start), segments);
}

/// An expression without wildcard glyphs matches at most one path, in a
/// file system whose listings report no name twice.
pub proof fn lemma_literal_expression_matches_at_most_one(
    fs: FileSystem,
    start: Seq<char>,
    expression: Seq<char>,
)
    requires
        fs.names_are_unique(),
        is_literal(expression),
    ensures
        expand(fs, start, expression).len() <= 1,
{
    lemma_literal_text_has_literal_segments(expression);
    lemma_literal_segments_match_at_most_one(fs, start, split_segments(expression));
}

} // verus!
