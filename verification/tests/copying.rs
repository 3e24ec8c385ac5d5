use sane_cp::arguments::parse_args;
use sane_cp::expander::{Expander, Request};
use sane_cp::expression::{locate_source, Start};
use sane_cp::filesystem::{Child, EntryKind, Reply};
use sane_cp::orchestrator::{CopyRun, CopyTarget, Event, Fault, Step};

fn strings(items: &[&str]) -> Vec<String> {
    items.iter().map(|s| s.to_string()).collect()
}

fn run_to(entries: &[&str], destination: &str, forced: bool) -> CopyRun {
    CopyRun::new(strings(entries), CopyTarget::classify(destination.to_string()), forced)
}

fn copy_file(from: &str, to: &str) -> Step {
    Step::CopyFile { from: from.to_string(), to: to.to_string() }
}

fn copy_tree(from: &str, to: &str) -> Step {
    Step::CopyTree { from: from.to_string(), to: to.to_string() }
}

/// Hands `run` one event after the other and returns the steps it asked
/// for, the one after the last event included.
fn steps(run: &mut CopyRun, events: &[Event]) -> Vec<Step> {
    let mut asked = vec![run.next_step()];
    for event in events {
        run.report(*event);
        asked.push(run.next_step());
    }
    asked
}

const FOUND_DIR: Event = Event::Found(EntryKind::Directory);
const FOUND_FILE: Event = Event::Found(EntryKind::File);
const FOUND_NOTHING: Event = Event::Found(EntryKind::Other);
const WENT_WELL: Event = Event::Finished(true);
const FAILED: Event = Event::Finished(false);

#[test]
fn wildcard_sources_into_a_new_directory() {
    let invocation = parse_args(strings(&["*.txt", "out/"])).unwrap();
    assert!(!invocation.forced);
    let mut entries = Vec::new();
    for source in &invocation.sources {
        let located = locate_source(source);
        assert_eq!(located.start, Start::WorkingDirectory);
        let mut expander = Expander::new("/work".to_string(), &located.expression);
        assert_eq!(expander.request(), Request::List("/work".to_string()));
        expander.answer(Reply::Listing(vec![
            Child { path: "/work/a.txt".into(), name: "a.txt".into(), kind: EntryKind::File },
            Child { path: "/work/b.txt".into(), name: "b.txt".into(), kind: EntryKind::File },
            Child { path: "/work/notes.md".into(), name: "notes.md".into(), kind: EntryKind::File },
        ]));
        entries.extend(expander.finish().unwrap());
    }
    assert_eq!(entries, strings(&["/work/a.txt", "/work/b.txt"]));
    let mut run = CopyRun::new(entries, CopyTarget::classify(invocation.destination), false);
    let asked = steps(
        &mut run,
        &[FOUND_NOTHING, WENT_WELL, FOUND_FILE, WENT_WELL, FOUND_FILE, WENT_WELL],
    );
    assert_eq!(
        asked,
        vec![
            Step::ProbeDestination("out/".to_string()),
            Step::CreateDestination("out/".to_string()),
            Step::ProbeEntry("/work/a.txt".to_string()),
            copy_file("/work/a.txt", "out/a.txt"),
            Step::ProbeEntry("/work/b.txt".to_string()),
            copy_file("/work/b.txt", "out/b.txt"),
            Step::Exit { success: true, errors: 0 },
        ]
    );
    assert!(run.is_over());
    assert!(run.succeeded());
    assert_eq!(run.errors(), 0);
}

#[test]
fn several_sources_onto_one_file_are_refused() {
    let invocation = parse_args(strings(&["a.txt", "b.txt", "merged.txt"])).unwrap();
    let mut run = CopyRun::new(
        strings(&["/w/a.txt", "/w/b.txt"]),
        CopyTarget::classify(invocation.destination),
        invocation.forced,
    );
    assert_eq!(
        run.next_step(),
        Step::Refuse { entries: strings(&["/w/a.txt", "/w/b.txt"]), success: false }
    );
    assert!(run.is_over());
    assert!(!run.succeeded());
    // No report brings a copy about.
    let asked = steps(&mut run, &[WENT_WELL, FOUND_FILE, FAILED]);
    for step in asked {
        assert_eq!(step, Step::Refuse { entries: strings(&["/w/a.txt", "/w/b.txt"]), success: false });
    }
    assert_eq!(run.errors(), 0);
}

#[test]
fn several_sources_onto_one_file_pass_when_forced() {
    let invocation = parse_args(strings(&["-f", "a.txt", "b.txt", "merged.txt"])).unwrap();
    assert!(invocation.forced);
    let run = CopyRun::new(
        strings(&["/w/a.txt", "/w/b.txt"]),
        CopyTarget::classify(invocation.destination),
        invocation.forced,
    );
    assert_eq!(
        run.next_step(),
        Step::Refuse { entries: strings(&["/w/a.txt", "/w/b.txt"]), success: true }
    );
    assert!(run.is_over());
    assert!(run.succeeded());
}

#[test]
fn no_source_onto_a_file_is_refused() {
    let run = run_to(&[], "merged.txt", false);
    assert_eq!(run.next_step(), Step::Refuse { entries: vec![], success: false });
    assert!(!run.succeeded());
    let run = run_to(&[], "merged.txt", true);
    assert_eq!(run.next_step(), Step::Refuse { entries: vec![], success: true });
    assert!(run.succeeded());
}

#[test]
fn destination_that_is_a_file_aborts_the_run() {
    for forced in [false, true] {
        let mut run = run_to(&["/w/a.txt"], "out/", forced);
        let asked = steps(&mut run, &[FOUND_FILE, WENT_WELL, FOUND_FILE, WENT_WELL]);
        let abort = Step::Abort { fault: Fault::DestinationIsFile, path: "out/".to_string() };
        assert_eq!(
            asked,
            vec![
                Step::ProbeDestination("out/".to_string()),
                abort.clone(),
                abort.clone(),
                abort.clone(),
                abort,
            ]
        );
        assert!(run.is_over());
        assert!(!run.succeeded());
    }
}

#[test]
fn source_that_vanished_aborts_the_run() {
    for forced in [false, true] {
        let mut run = run_to(&["/w/a.txt", "/w/b.txt", "/w/c.txt"], "out/", forced);
        let asked = steps(&mut run, &[FOUND_DIR, FOUND_FILE, WENT_WELL, FOUND_NOTHING, FOUND_FILE, WENT_WELL]);
        let abort = Step::Abort { fault: Fault::SourceVanished, path: "/w/b.txt".to_string() };
        assert_eq!(
            asked,
            vec![
                Step::ProbeDestination("out/".to_string()),
                Step::ProbeEntry("/w/a.txt".to_string()),
                copy_file("/w/a.txt", "out/a.txt"),
                Step::ProbeEntry("/w/b.txt".to_string()),
                abort.clone(),
                abort.clone(),
                abort,
            ]
        );
        assert!(run.is_over());
        assert!(!run.succeeded());
        assert_eq!(run.errors(), 0);
    }
}

#[test]
fn destination_that_cannot_be_created_aborts_the_run() {
    for forced in [false, true] {
        let mut run = run_to(&["/w/a.txt"], "deep/out/", forced);
        let asked = steps(&mut run, &[FOUND_NOTHING, FAILED]);
        assert_eq!(
            asked,
            vec![
                Step::ProbeDestination("deep/out/".to_string()),
                Step::CreateDestination("deep/out/".to_string()),
                Step::Abort { fault: Fault::DestinationNotCreated, path: "deep/out/".to_string() },
            ]
        );
        assert!(!run.succeeded());
    }
}

#[test]
fn source_without_a_base_name_aborts_the_run() {
    let mut run = run_to(&["/w/a.txt", "/", "/w/c.txt"], "out/", true);
    let asked = steps(&mut run, &[FOUND_DIR, FOUND_FILE, WENT_WELL]);
    assert_eq!(
        asked[3],
        Step::Abort { fault: Fault::SourceUnnamed, path: "/".to_string() }
    );
    assert!(!run.succeeded());
    let run = {
        let mut run = run_to(&["/w/.."], "out/", false);
        run.report(FOUND_DIR);
        run
    };
    assert_eq!(
        run.next_step(),
        Step::Abort { fault: Fault::SourceUnnamed, path: "/w/..".to_string() }
    );
}

#[test]
fn existing_destination_is_not_created() {
    let mut run = run_to(&["/w/a.txt"], "out/", false);
    let asked = steps(&mut run, &[FOUND_DIR]);
    assert_eq!(
        asked,
        vec![
            Step::ProbeDestination("out/".to_string()),
            Step::ProbeEntry("/w/a.txt".to_string()),
        ]
    );
}

#[test]
fn directories_are_copied_as_trees_under_their_own_name() {
    let mut run = run_to(&["/w/src", "/w/docs/", "/w/a.txt"], "/backup/", false);
    let asked = steps(
        &mut run,
        &[FOUND_DIR, FOUND_DIR, WENT_WELL, FOUND_DIR, WENT_WELL, FOUND_FILE, WENT_WELL],
    );
    assert_eq!(
        asked,
        vec![
            Step::ProbeDestination("/backup/".to_string()),
            Step::ProbeEntry("/w/src".to_string()),
            copy_tree("/w/src", "/backup/src"),
            Step::ProbeEntry("/w/docs/".to_string()),
            copy_tree("/w/docs/", "/backup/docs"),
            Step::ProbeEntry("/w/a.txt".to_string()),
            copy_file("/w/a.txt", "/backup/a.txt"),
            Step::Exit { success: true, errors: 0 },
        ]
    );
}

#[test]
fn failed_copies_are_counted_and_the_batch_goes_on() {
    let mut run = run_to(&["/w/a", "/w/b", "/w/c", "/w/d"], "out/", false);
    let asked = steps(
        &mut run,
        &[
            FOUND_DIR, FOUND_FILE, FAILED, FOUND_DIR, WENT_WELL, FOUND_FILE, FAILED, FOUND_DIR,
            FAILED,
        ],
    );
    assert_eq!(asked.len(), 10);
    assert_eq!(asked[2], copy_file("/w/a", "out/a"));
    assert_eq!(asked[4], copy_tree("/w/b", "out/b"));
    assert_eq!(asked[6], copy_file("/w/c", "out/c"));
    assert_eq!(asked[8], copy_tree("/w/d", "out/d"));
    assert_eq!(asked[9], Step::Exit { success: false, errors: 3 });
    assert_eq!(run.errors(), 3);
    assert!(!run.succeeded());
}

#[test]
fn failed_copies_are_forgiven_when_forced() {
    let mut run = run_to(&["/w/a", "/w/b"], "out/", true);
    let asked = steps(&mut run, &[FOUND_DIR, FOUND_FILE, FAILED, FOUND_FILE, FAILED]);
    assert_eq!(asked[5], Step::Exit { success: true, errors: 2 });
    assert!(run.succeeded());
    assert_eq!(run.errors(), 2);
}

#[test]
fn errors_are_counted_as_they_come() {
    let mut run = run_to(&["/w/a", "/w/b"], "out/", false);
    assert_eq!(run.errors(), 0);
    steps(&mut run, &[FOUND_DIR, FOUND_FILE, FAILED]);
    assert_eq!(run.errors(), 1);
    assert!(!run.is_over());
    assert!(!run.succeeded());
    steps(&mut run, &[FOUND_FILE, WENT_WELL]);
    assert_eq!(run.errors(), 1);
    assert!(run.is_over());
}

#[test]
fn no_source_into_a_directory_is_a_success() {
    let mut run = run_to(&[], "out/", false);
    let asked = steps(&mut run, &[FOUND_NOTHING, WENT_WELL]);
    assert_eq!(
        asked,
        vec![
            Step::ProbeDestination("out/".to_string()),
            Step::CreateDestination("out/".to_string()),
            Step::Exit { success: true, errors: 0 },
        ]
    );
}

#[test]
fn one_source_onto_a_file_is_copied_there() {
    let mut run = run_to(&["/w/src/a.txt"], "copy.txt", false);
    let asked = steps(&mut run, &[WENT_WELL]);
    assert_eq!(
        asked,
        vec![copy_file("/w/src/a.txt", "copy.txt"), Step::Exit { success: true, errors: 0 }]
    );
    assert!(run.succeeded());
}

#[test]
fn failed_copy_onto_a_file_fails_the_run_forced_or_not() {
    for forced in [false, true] {
        let mut run = run_to(&["/w/a.txt"], "copy.txt", forced);
        let asked = steps(&mut run, &[FAILED]);
        assert_eq!(
            asked,
            vec![copy_file("/w/a.txt", "copy.txt"), Step::Exit { success: false, errors: 1 }]
        );
        assert!(!run.succeeded());
        assert!(run.is_over());
    }
}

#[test]
fn reports_that_answer_nothing_are_ignored() {
    let mut run = run_to(&["/w/a.txt"], "out/", false);
    let asked = steps(&mut run, &[WENT_WELL, FAILED, FOUND_NOTHING, FOUND_FILE, FOUND_DIR]);
    assert_eq!(
        asked,
        vec![
            Step::ProbeDestination("out/".to_string()),
            Step::ProbeDestination("out/".to_string()),
            Step::ProbeDestination("out/".to_string()),
            Step::CreateDestination("out/".to_string()),
            Step::CreateDestination("out/".to_string()),
            Step::CreateDestination("out/".to_string()),
        ]
    );
    let asked = steps(&mut run, &[WENT_WELL, FAILED, FOUND_FILE, FOUND_FILE]);
    assert_eq!(
        asked,
        vec![
            Step::CreateDestination("out/".to_string()),
            Step::ProbeEntry("/w/a.txt".to_string()),
            Step::ProbeEntry("/w/a.txt".to_string()),
            copy_file("/w/a.txt", "out/a.txt"),
            copy_file("/w/a.txt", "out/a.txt"),
        ]
    );
    assert_eq!(run.errors(), 0);
}

#[test]
fn a_finished_run_stays_finished() {
    let mut run = run_to(&["/w/a.txt"], "out/", false);
    steps(&mut run, &[FOUND_DIR, FOUND_FILE, FAILED]);
    let asked = steps(&mut run, &[FAILED, FOUND_DIR, WENT_WELL, FOUND_NOTHING]);
    for step in asked {
        assert_eq!(step, Step::Exit { success: false, errors: 1 });
    }
}

#[test]
fn the_destination_is_joined_by_the_path_rules() {
    let mut run = run_to(&["/w/a.txt"], "/", false);
    let asked = steps(&mut run, &[FOUND_DIR, FOUND_FILE]);
    assert_eq!(asked[2], copy_file("/w/a.txt", "/a.txt"));
    let mut run = run_to(&["a.txt"], "x/y/", false);
    let asked = steps(&mut run, &[FOUND_DIR, FOUND_FILE]);
    assert_eq!(asked[2], copy_file("a.txt", "x/y/a.txt"));
}
