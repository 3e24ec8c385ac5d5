//! Path expressions: their segments, and where an expression is rooted.

use crate::paths::{
    absolute_path, path_below, path_is_absolute, path_root, path_strip, root_path,
};
use vstd::prelude::*;
use vstd::string::*;

verus! {

/// Whether `c` separates two segments of a path expression.
pub open spec fn is_separator(c: char) -> bool {
    c == '/' || c == '\\'
}

/// The segments of `text`: the runs of characters between its separators,
/// empty runs included, so that `n` separators give `n + 1` segments.
pub open spec fn split_segments(text: Seq<char>) -> Seq<Seq<char>>
    decreases text.len(),
{
    if text.len() == 0 {
        seq![Seq::<char>::empty()]
    } else {
        let before = split_segments(text.drop_last());
        if is_separator(text.last()) {
            before.push(Seq::<char>::empty())
        } else {
            before.drop_last().push(before.last().push(text.last()))
        }
    }
}

/// The texts of a sequence of strings.
pub open spec fn texts(items: Seq<String>) -> Seq<Seq<char>> {
    Seq::new(items.len(), |i: int| items[i]@)
}

/// Whether no character of `text` is a separator.
pub open spec fn is_plain(text: Seq<char>) -> bool {
    forall|i: int| 0 <= i < text.len() ==> !is_separator(#[trigger] text[i])
}

/// What a segment asks of the directories it is applied to.
#[derive(Clone, Copy, PartialEq, Eq, Structural, Debug)]
pub enum SegmentKind {
    /// `.`: the directory itself.
    Current,
    /// `..`: the directory's parent.
    Parent,
    /// Anything else: the children whose names the segment matches.
    Pattern,
}

/// The kind of the segment written as `segment`.
pub open spec fn kind_of(segment: Seq<char>) -> SegmentKind {
    if segment == seq!['.'] {
        SegmentKind::Current
    } else if segment == seq!['.', '.'] {
        SegmentKind::Parent
    } else {
        SegmentKind::Pattern
    }
}

/// An expression always has at least one segment.
pub proof fn lemma_split_is_not_empty(text: Seq<char>)
    ensures
        split_segments(text).len() >= 1,
    decreases text.len(),
{
    if text.len() > 0 {
        lemma_split_is_not_empty(text.drop_last());
    }
}

/// No segment holds a separator.
pub proof fn lemma_segments_are_plain(text: Seq<char>)
    ensures
        forall|k: int|
            0 <= k < split_segments(text).len() ==> is_plain(#[trigger] split_segments(text)[k]),
    decreases text.len(),
{
    if text.len() > 0 {
        lemma_segments_are_plain(text.drop_last());
        lemma_split_is_not_empty(text.drop_last());
    }
}

/// Splitting `left`, a separator and `right` gives the segments of `left`
/// followed by those of `right`.
pub proof fn lemma_split_around_separator(left: Seq<char>, separator: char, right: Seq<char>)
    requires
        is_separator(separator),
    ensures
        split_segments(left.push(separator) + right) == split_segments(left) + split_segments(
            right,
        ),
    decreases right.len(),
{
    let whole = left.push(separator) + right;
    if right.len() == 0 {
        assert(whole =~= left.push(separator));
        assert(whole.drop_last() =~= left);
        assert(split_segments(whole) =~= split_segments(left) + split_segments(right));
    } else {
        lemma_split_around_separator(left, separator, right.drop_last());
        lemma_split_is_not_empty(right.drop_last());
        assert(whole.drop_last() =~= left.push(separator) + right.drop_last());
        assert(whole.last() == right.last());
        assert(split_segments(whole) =~= split_segments(left) + split_segments(right));
    }
}

/// A text without separators is its own single segment.
pub proof fn lemma_split_of_plain(text: Seq<char>)
    requires
        is_plain(text),
    ensures
        split_segments(text) == seq![text],
    decreases text.len(),
{
    if text.len() == 0 {
        assert(text =~= Seq::<char>::empty());
    } else {
        assert(!is_separator(text[text.len() - 1]));
        lemma_split_of_plain(text.drop_last());
        assert(text.drop_last().push(text.last()) =~= text);
        assert(split_segments(text) =~= seq![text]);
    }
}

/// Splits `expression` into its segments.
pub fn segments(expression: &str) -> (parts: Vec<String>)
    ensures
        texts(parts@) == split_segments(expression@),
{
    let n = expression.unicode_len();
    let mut parts: Vec<String> = Vec::new();
    let mut start: usize = 0;
    let mut i: usize = 0;
    assert(expression@.take(0) =~= Seq::<char>::empty());
    assert(texts(parts@).push(expression@.subrange(0, 0)) =~= seq![Seq::<char>::empty()]);
    while i < n
        invariant
            n == expression@.len(),
            start <= i <= n,
            split_segments(expression@.take(i as int)) == texts(parts@).push(
                expression@.subrange(start as int, i as int),
            ),
        decreases n - i,
    {
        let c = expression.get_char(i);
        let ghost before = texts(parts@);
        proof {
            assert(expression@.take(i + 1).drop_last() =~= expression@.take(i as int));
            assert(expression@.take(i + 1).last() == c);
        }
        if c == '/' || c == '\\' {
            parts.push(String::from_str(expression.substring_char(start, i)));
            proof {
                assert(texts(parts@) =~= before.push(
                    expression@.subrange(start as int, i as int),
                ));
                assert(expression@.subrange(i + 1, i + 1) =~= Seq::<char>::empty());
            }
            start = i + 1;
        } else {
            proof {
                let run = expression@.subrange(start as int, i as int);
                assert(before.push(run).drop_last() =~= before);
                assert(run.push(c) =~= expression@.subrange(start as int, i + 1));
            }
        }
        i += 1;
    }
    let ghost before = texts(parts@);
    parts.push(String::from_str(expression.substring_char(start, n)));
    proof {
        assert(expression@.take(n as int) =~= expression@);
        assert(texts(parts@) =~= before.push(expression@.subrange(start as int, n as int)));
    }
    parts
}

/// Tells what kind of segment `segment` is.
pub fn segment_kind(segment: &str) -> (kind: SegmentKind)
    ensures
        kind == kind_of(segment@),
{
    let n = segment.unicode_len();
    if n == 1 && segment.get_char(0) == '.' {
        assert(segment@ =~= seq!['.']);
        SegmentKind::Current
    } else if n == 2 && segment.get_char(0) == '.' && segment.get_char(1) == '.' {
        assert(segment@ =~= seq!['.', '.']);
        SegmentKind::Parent
    } else {
        proof {
            if segment@ == seq!['.'] {
                assert(seq!['.'].len() == 1 && seq!['.'][0] == '.');
            }
            if segment@ == seq!['.', '.'] {
                assert(seq!['.', '.'].len() == 2);
                assert(seq!['.', '.'][0] == '.' && seq!['.', '.'][1] == '.');
            }
        }
        SegmentKind::Pattern
    }
}

/// Whether `path` is an absolute path under the platform's rules.
pub fn is_absolute_path(path: &str) -> (absolute: bool)
    ensures
        absolute == absolute_path(path@),
{
    path_is_absolute(path)
}

/// Where an absolute expression starts and what it asks for from there:
/// its root component, and the text behind that component, both as the
/// platform's path rules give them. `None` for an expression that is not
/// absolute, or that the path rules do not part in this way.
pub open spec fn parted(expression: Seq<char>) -> Option<(Seq<char>, Seq<char>)> {
    if !absolute_path(expression) {
        None
    } else {
        match root_path(expression) {
            Some(root) => match path_below(expression, root) {
                Some(rest) => Some((root, rest)),
                None => None,
            },
            None => None,
        }
    }
}

/// Where the expansion of a source expression starts.
#[derive(Clone, Debug, PartialEq, Eq)]
pub enum Start {
    /// At the root that the expression itself names.
    Root(String),
    /// At the directory the process works in.
    WorkingDirectory,
}

/// A source expression with its start directory told apart.
#[derive(Clone, Debug, PartialEq, Eq)]
pub struct Source {
    /// Where expansion starts.
    pub start: Start,
    /// The expression to expand from there.
    pub expression: String,
}

/// Tells where `expression` starts, given whether it is an absolute path,
/// its root component and the text behind that component. An absolute
/// expression with both starts at the root and asks for what is behind it;
/// any other starts at the working directory and is kept whole.
pub fn rooted_source(
    expression: &str,
    absolute: bool,
    root: Option<String>,
    below: Option<String>,
) -> (source: Source)
    ensures
        match (absolute, root, below) {
            (true, Some(root), Some(below)) => source.expression@ == below@ && (
            source.start matches Start::Root(start) && start@ == root@),
            _ => source.expression@ == expression@ && source.start is WorkingDirectory,
        },
{
    if absolute {
        match root {
            Some(start) => match below {
                Some(rest) => {
                    return Source { start: Start::Root(start), expression: rest };
                },
                None => {},
            },
            None => {},
        }
    }
    Source { start: Start::WorkingDirectory, expression: String::from_str(expression) }
}

/// Tells where `expression` starts: an absolute path at its root
/// component, with the text behind that component left to expand, any
/// other at the working directory.
pub fn locate_source(expression: &str) -> (source: Source)
    ensures
        match parted(expression@) {
            Some((root, rest)) => source.expression@ == rest && (
            source.start matches Start::Root(start) && start@ == root),
            None => source.expression@ == expression@ && source.start is WorkingDirectory,
        },
{
    let absolute = is_absolute_path(expression);
    let root = if absolute {
        path_root(expression)
    } else {
        None
    };
    let below = match &root {
        Some(start) => path_strip(expression, start.as_str()),
        None => None,
    };
    rooted_source(expression, absolute, root, below)
}

} // verus!
