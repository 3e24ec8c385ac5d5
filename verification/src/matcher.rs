//! Matching one path segment against one name.

use vstd::prelude::*;

verus! {

/// Whether `c` is one of the two wildcard glyphs.
pub open spec fn is_wildcard(c: char) -> bool {
    c == '*' || c == '?'
}

/// Whether `pattern` matches the whole of `name`: `*` stands for any run of
/// characters, the empty one included, `?` for exactly one character, and
/// every other character for itself.
pub open spec fn wild_matches(pattern: Seq<char>, name: Seq<char>) -> bool
    decreases pattern.len(), name.len(),
{
    if pattern.len() == 0 {
        name.len() == 0
    } else if pattern[0] == '*' {
        wild_matches(pattern.skip(1), name) || (name.len() > 0 && wild_matches(
            pattern,
            name.skip(1),
        ))
    } else {
        name.len() > 0 && (pattern[0] == '?' || pattern[0] == name[0]) && wild_matches(
            pattern.skip(1),
            name.skip(1),
        )
    }
}

/// Whether no character of `pattern` is a wildcard glyph.
pub open spec fn is_literal(pattern: Seq<char>) -> bool {
    forall|i: int| 0 <= i < pattern.len() ==> !is_wildcard(#[trigger] pattern[i])
}

/// Builds a `wildmatch::WildMatch` from `pattern` and asks its `matches` about
/// `name`. The crate documents the matcher as anchored and case-sensitive,
/// with `*` for any run of characters, `?` for exactly one, and no escapes;
/// the contract states that reading and is taken on trust.
#[verifier::external_body]
fn glob_matches(pattern: &str, name: &str) -> (hit: bool)
    ensures
        hit == wild_matches(pattern@, name@),
{
    wildmatch::WildMatch::new(pattern).matches(name)
}

/// Whether the segment `pattern` matches the base name `name`.
pub fn matches(pattern: &str, name: &str) -> (hit: bool)
    ensures
        hit == wild_matches(pattern@, name@),
{
    glob_matches(pattern, name)
}

/// A pattern without wildcard glyphs matches its own text and nothing else.
pub proof fn lemma_literal_matches_itself_only(pattern: Seq<char>, name: Seq<char>)
    requires
        is_literal(pattern),
    ensures
        wild_matches(pattern, name) <==> pattern == name,
    decreases pattern.len(),
{
    if pattern.len() == 0 {
        assert(wild_matches(pattern, name) <==> name.len() == 0);
        if name.len() == 0 {
            assert(pattern =~= name);
        }
    } else {
        assert(!is_wildcard(pattern[0]));
        if name.len() > 0 {
            assert forall|i: int| 0 <= i < pattern.skip(1).len() implies !is_wildcard(
                #[trigger] pattern.skip(1)[i],
            ) by {
                assert(pattern.skip(1)[i] == pattern[i + 1]);
            }
            lemma_literal_matches_itself_only(pattern.skip(1), name.skip(1));
            if pattern[0] == name[0] && pattern.skip(1) == name.skip(1) {
                assert(pattern =~= seq![pattern[0]] + pattern.skip(1));
                assert(name =~= seq![name[0]] + name.skip(1));
            }
        }
    }
}

} // verus!
