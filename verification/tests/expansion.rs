use sane_cp::expander::{append_matches, Expander, Request};
use sane_cp::filesystem::{Child, EntryKind, Reply};

/// A directory of a made-up file system: its path, and its children by
/// name and kind, or `None` where it cannot be listed.
struct Dir {
    path: &'static str,
    children: Option<Vec<(&'static str, EntryKind)>>,
}

fn dir(path: &'static str, children: &[(&'static str, EntryKind)]) -> Dir {
    Dir { path, children: Some(children.to_vec()) }
}

fn locked(path: &'static str) -> Dir {
    Dir { path, children: None }
}

const D: EntryKind = EntryKind::Directory;
const F: EntryKind = EntryKind::File;
const O: EntryKind = EntryKind::Other;

fn join(directory: &str, name: &str) -> String {
    if directory.ends_with('/') {
        format!("{}{}", directory, name)
    } else {
        format!("{}/{}", directory, name)
    }
}

fn observe(tree: &[Dir], path: &str, listed: bool) -> Reply {
    match tree.iter().find(|d| d.path == path) {
        None => Reply::NotDirectory,
        Some(_) if !listed => Reply::Directory,
        Some(Dir { children: None, .. }) => Reply::Unreadable,
        Some(Dir { children: Some(children), .. }) => Reply::Listing(
            children
                .iter()
                .map(|(name, kind)| Child {
                    path: join(path, name),
                    name: name.to_string(),
                    kind: *kind,
                })
                .collect(),
        ),
    }
}

/// Answers every request of an expander from `tree`, and returns the
/// matches with the requests that were made.
fn expand_logged(tree: &[Dir], start: &str, expression: &str) -> (Vec<String>, Vec<Request>) {
    let mut expander = Expander::new(start.to_string(), expression);
    let mut log = Vec::new();
    for _ in 0..10_000 {
        let request = expander.request();
        let reply = match &request {
            Request::Done => {
                assert!(expander.is_done());
                return (expander.finish().unwrap(), log);
            }
            Request::Probe(path) => observe(tree, path, false),
            Request::List(path) => observe(tree, path, true),
        };
        assert!(!expander.is_done());
        log.push(request);
        expander.answer(reply);
    }
    panic!("the expansion did not end");
}

fn expand(tree: &[Dir], start: &str, expression: &str) -> Vec<String> {
    expand_logged(tree, start, expression).0
}

fn sample() -> Vec<Dir> {
    vec![
        dir("/w", &[("a.txt", F), ("src", D), ("b.txt", F), ("notes.md", F), ("docs", D), ("pipe", O)]),
        dir("/w/src", &[("main.rs", F), ("lib.rs", F), ("bin", D), ("a.txt", F)]),
        dir("/w/src/bin", &[("tool.rs", F)]),
        dir("/w/docs", &[("a.txt", F), ("img", D), ("index.md", F)]),
        dir("/w/docs/img", &[]),
        dir("/", &[("w", D)]),
    ]
}

#[test]
fn wildcard_in_the_last_segment_matches_files() {
    assert_eq!(expand(&sample(), "/w", "*.txt"), vec!["/w/a.txt", "/w/b.txt"]);
}

#[test]
fn directories_come_before_files() {
    assert_eq!(
        expand(&sample(), "/w", "*"),
        vec!["/w/src", "/w/docs", "/w/a.txt", "/w/b.txt", "/w/notes.md"]
    );
}

#[test]
fn entries_that_are_neither_file_nor_directory_are_left_out() {
    assert_eq!(expand(&sample(), "/w", "pipe"), Vec::<String>::new());
    assert_eq!(expand(&sample(), "/w", "p*"), Vec::<String>::new());
}

#[test]
fn wildcard_in_the_middle_fans_out() {
    assert_eq!(expand(&sample(), "/w", "*/a.txt"), vec!["/w/src/a.txt", "/w/docs/a.txt"]);
}

#[test]
fn results_follow_the_frontier_then_the_listing() {
    assert_eq!(
        expand(&sample(), "/w", "*/*"),
        vec![
            "/w/src/bin",
            "/w/docs/img",
            "/w/src/main.rs",
            "/w/src/lib.rs",
            "/w/src/a.txt",
            "/w/docs/a.txt",
            "/w/docs/index.md",
        ]
    );
}

#[test]
fn question_mark_in_a_segment() {
    assert_eq!(expand(&sample(), "/w", "?.txt"), vec!["/w/a.txt", "/w/b.txt"]);
    assert_eq!(expand(&sample(), "/w", "s?c/???.rs"), vec!["/w/src/lib.rs"]);
}

#[test]
fn both_separators_are_taken() {
    assert_eq!(expand(&sample(), "/w", "src\\bin/tool.rs"), vec!["/w/src/bin/tool.rs"]);
}

#[test]
fn literal_expression_matches_the_one_path() {
    assert_eq!(expand(&sample(), "/w", "src/main.rs"), vec!["/w/src/main.rs"]);
    assert_eq!(expand(&sample(), "/w", "docs/img"), vec!["/w/docs/img"]);
    assert_eq!(expand(&sample(), "/w", "a.txt"), vec!["/w/a.txt"]);
}

#[test]
fn literal_expression_without_a_match_is_empty() {
    assert_eq!(expand(&sample(), "/w", "src/missing.rs"), Vec::<String>::new());
    assert_eq!(expand(&sample(), "/w", "nowhere/main.rs"), Vec::<String>::new());
    assert_eq!(expand(&sample(), "/w", "SRC"), Vec::<String>::new());
}

#[test]
fn literal_expressions_match_at_most_one_path() {
    for expression in
        ["a.txt", "src", "src/bin", "src/bin/tool.rs", "./src/../docs/a.txt", "x", "src/x/y", "..", "."]
    {
        assert!(expand(&sample(), "/w", expression).len() <= 1, "{}", expression);
    }
}

#[test]
fn a_dot_segment_changes_nothing() {
    let tree = sample();
    assert_eq!(expand(&tree, "/w", "src/./bin"), expand(&tree, "/w", "src/bin"));
    assert_eq!(expand(&tree, "/w", "src/./bin"), vec!["/w/src/bin"]);
    assert_eq!(expand(&tree, "/w", "./*.txt"), expand(&tree, "/w", "*.txt"));
    assert_eq!(expand(&tree, "/w", "*/./*"), expand(&tree, "/w", "*/*"));
    assert_eq!(expand(&tree, "/w", "*/././a.txt"), expand(&tree, "/w", "*/a.txt"));
    assert_eq!(expand(&tree, "/w", "a.txt/./x"), expand(&tree, "/w", "a.txt/x"));
}

#[test]
fn a_trailing_dot_keeps_directories_only() {
    let tree = sample();
    assert_eq!(expand(&tree, "/w", "src/."), vec!["/w/src"]);
    assert_eq!(expand(&tree, "/w", "src/."), expand(&tree, "/w", "src"));
    assert_eq!(expand(&tree, "/w", "a.txt/."), Vec::<String>::new());
    assert_eq!(expand(&tree, "/w", "*/."), vec!["/w/src", "/w/docs"]);
}

#[test]
fn a_lone_dot_is_the_start_directory() {
    assert_eq!(expand(&sample(), "/w", "."), vec!["/w"]);
    assert_eq!(expand(&sample(), "/nowhere", "."), Vec::<String>::new());
}

#[test]
fn dot_dot_goes_to_the_parent() {
    let tree = sample();
    assert_eq!(expand(&tree, "/w/src", ".."), vec!["/w"]);
    assert_eq!(expand(&tree, "/w/src/bin", "../.."), vec!["/w"]);
    assert_eq!(expand(&tree, "/w/src", "../docs/*.md"), vec!["/w/docs/index.md"]);
    assert_eq!(expand(&tree, "/w", "*/.."), vec!["/w", "/w"]);
}

#[test]
fn dot_dot_at_the_root_stays_at_the_root() {
    assert_eq!(expand(&sample(), "/", ".."), vec!["/"]);
    assert_eq!(expand(&sample(), "/", "../w/a.txt"), vec!["/w/a.txt"]);
}

#[test]
fn files_matched_by_an_intermediate_segment_are_dropped() {
    let tree = sample();
    assert_eq!(expand(&tree, "/w", "a.txt/*"), Vec::<String>::new());
    assert_eq!(expand(&tree, "/w", "*.txt/."), Vec::<String>::new());
    assert_eq!(expand(&tree, "/w", "*.txt/.."), Vec::<String>::new());
    assert_eq!(expand(&tree, "/w", "*.md/x/y/z"), Vec::<String>::new());
}

#[test]
fn a_branch_with_files_only_contributes_nothing_further() {
    let tree = sample();
    // Under `/w/src/bin` the segment `*` matches one file and no directory.
    assert_eq!(expand(&tree, "/w", "src/*/*/x"), Vec::<String>::new());
    // With and without that branch the result is the same.
    assert_eq!(expand(&tree, "/w", "*/*/*"), vec!["/w/src/bin/tool.rs"]);
    let (_, log) = expand_logged(&tree, "/w", "a.txt/*/*");
    assert_eq!(log, vec![Request::List("/w".to_string())]);
}

#[test]
fn nothing_matched_is_no_error() {
    assert_eq!(expand(&sample(), "/w", "*.zip"), Vec::<String>::new());
    assert_eq!(expand(&[], "/w", "*"), Vec::<String>::new());
}

#[test]
fn an_empty_segment_matches_no_child() {
    assert_eq!(expand(&sample(), "/w", ""), Vec::<String>::new());
    assert_eq!(expand(&sample(), "/w", "src//main.rs"), Vec::<String>::new());
    assert_eq!(expand(&sample(), "/w", "src/"), Vec::<String>::new());
}

#[test]
fn a_start_that_is_no_directory_matches_nothing() {
    assert_eq!(expand(&sample(), "/w/a.txt", "*"), Vec::<String>::new());
    assert_eq!(expand(&sample(), "/gone", "a/b"), Vec::<String>::new());
}

#[test]
fn an_unreadable_directory_is_passed_over() {
    let tree = vec![
        dir("/w", &[("open", D), ("shut", D), ("also", D)]),
        dir("/w/open", &[("x", F)]),
        locked("/w/shut"),
        dir("/w/also", &[("x", F), ("y", F)]),
    ];
    assert_eq!(expand(&tree, "/w", "*/x"), vec!["/w/open/x", "/w/also/x"]);
    assert_eq!(expand(&tree, "/w", "shut/*"), Vec::<String>::new());
    assert_eq!(expand(&tree, "/w", "shut"), vec!["/w/shut"]);
    assert_eq!(expand(&tree, "/w", "shut/."), vec!["/w/shut"]);
}

#[test]
fn a_directory_that_went_away_is_passed_over() {
    // `/w` lists `gone` as a directory, but nothing is there any more.
    let tree = vec![dir("/w", &[("gone", D), ("here", D)]), dir("/w/here", &[("x", F)])];
    assert_eq!(expand(&tree, "/w", "*/x"), vec!["/w/here/x"]);
    assert_eq!(expand(&tree, "/w", "*/."), vec!["/w/here"]);
    assert_eq!(expand(&tree, "/w", "*"), vec!["/w/gone", "/w/here"]);
}

#[test]
fn dot_segments_are_probed_and_patterns_listed() {
    let (_, log) = expand_logged(&sample(), "/w", "./src/../*.md");
    assert_eq!(
        log,
        vec![
            Request::Probe("/w".to_string()),
            Request::List("/w".to_string()),
            Request::Probe("/w/src".to_string()),
            Request::List("/w".to_string()),
        ]
    );
}

#[test]
fn each_directory_of_the_frontier_is_asked_about_in_order() {
    let (_, log) = expand_logged(&sample(), "/w", "*/*.rs");
    assert_eq!(
        log,
        vec![
            Request::List("/w".to_string()),
            Request::List("/w/src".to_string()),
            Request::List("/w/docs".to_string()),
        ]
    );
}

#[test]
fn a_new_expander_asks_about_the_start_directory() {
    assert_eq!(Expander::new("/w".to_string(), "*").request(), Request::List("/w".to_string()));
    assert_eq!(Expander::new("/w".to_string(), ".").request(), Request::Probe("/w".to_string()));
    assert_eq!(Expander::new("/w".to_string(), "../x").request(), Request::Probe("/w".to_string()));
    assert_eq!(Expander::new("/w".to_string(), "").request(), Request::List("/w".to_string()));
}

#[test]
fn finish_before_the_end_gives_nothing() {
    let expander = Expander::new("/w".to_string(), "*");
    assert!(!expander.is_done());
    assert_eq!(expander.finish(), None);
}

#[test]
fn a_probe_answer_to_a_listing_request_brings_nothing() {
    let mut expander = Expander::new("/w".to_string(), "*");
    expander.answer(Reply::Directory);
    assert!(expander.is_done());
    assert_eq!(expander.finish(), Some(Vec::new()));
}

#[test]
fn a_listing_answer_to_a_probe_counts_as_a_directory() {
    let mut expander = Expander::new("/w".to_string(), ".");
    expander.answer(Reply::Listing(vec![Child {
        path: "/w/a".to_string(),
        name: "a".to_string(),
        kind: EntryKind::File,
    }]));
    assert_eq!(expander.finish(), Some(vec!["/w".to_string()]));
    let mut expander = Expander::new("/w/x".to_string(), "..");
    expander.answer(Reply::Unreadable);
    assert_eq!(expander.finish(), Some(vec!["/w".to_string()]));
}

#[test]
fn an_answer_after_the_end_changes_nothing() {
    let mut expander = Expander::new("/w".to_string(), ".");
    expander.answer(Reply::Directory);
    assert!(expander.is_done());
    expander.answer(Reply::Directory);
    expander.answer(Reply::Listing(vec![Child {
        path: "/w/a".to_string(),
        name: "a".to_string(),
        kind: EntryKind::Directory,
    }]));
    assert_eq!(expander.request(), Request::Done);
    assert_eq!(expander.finish(), Some(vec!["/w".to_string()]));
}

#[test]
fn the_paths_of_a_listing_are_taken_as_given() {
    let mut expander = Expander::new("start".to_string(), "*");
    expander.answer(Reply::Listing(vec![
        Child { path: "elsewhere\\one".to_string(), name: "one".to_string(), kind: F },
        Child { path: "two".to_string(), name: "other".to_string(), kind: D },
        Child { path: "three".to_string(), name: "three".to_string(), kind: D },
    ]));
    assert_eq!(
        expander.finish(),
        Some(vec!["two".to_string(), "three".to_string(), "elsewhere\\one".to_string()])
    );
}

#[test]
fn a_name_reported_twice_is_matched_twice() {
    let mut expander = Expander::new("/w".to_string(), "a");
    expander.answer(Reply::Listing(vec![
        Child { path: "/w/a".to_string(), name: "a".to_string(), kind: F },
        Child { path: "/w/a".to_string(), name: "a".to_string(), kind: F },
    ]));
    assert_eq!(expander.finish(), Some(vec!["/w/a".to_string(), "/w/a".to_string()]));
}

#[test]
fn matches_of_several_sources_stand_in_source_order() {
    let tree = sample();
    let mut all = Vec::new();
    append_matches(&mut all, expand(&tree, "/w", "*.md"));
    append_matches(&mut all, expand(&tree, "/w", "*.zip"));
    append_matches(&mut all, expand(&tree, "/w/src", "*"));
    append_matches(&mut all, expand(&tree, "/w", "a.txt"));
    assert_eq!(
        all,
        vec![
            "/w/notes.md",
            "/w/src/bin",
            "/w/src/main.rs",
            "/w/src/lib.rs",
            "/w/src/a.txt",
            "/w/a.txt",
        ]
    );
}

#[test]
fn a_literal_path_is_matched_exactly_when_it_is_there() {
    let tree = sample();
    assert_eq!(expand(&tree, "/w", "src/bin/tool.rs"), vec!["/w/src/bin/tool.rs"]);
    assert_eq!(expand(&tree, "/w", "src/bin"), vec!["/w/src/bin"]);
    assert_eq!(expand(&tree, "/w", "src/bin/none.rs"), Vec::<String>::new());
    assert_eq!(expand(&tree, "/w", "src/main.rs/x"), Vec::<String>::new());
    assert_eq!(expand(&tree, "/w", "pipe"), Vec::<String>::new());
}
