//! The decisions of a copy run.
//!
//! A [`CopyRun`] copies nothing itself. It hands out one step at a time,
//! takes the caller's report of how the step went, and decides what comes
//! next, what counts as an error and how the run ends.

use crate::expression::{is_separator, texts};
use crate::filesystem::EntryKind;
use crate::paths::{base_name, joined_path, path_base_name, path_join};
use vstd::prelude::*;
use vstd::string::*;

verus! {

/// Whether `text` ends with a separator.
pub open spec fn ends_with_separator(text: Seq<char>) -> bool {
    text.len() > 0 && is_separator(text.last())
}

/// Where the matches of a run are to go, decided by the way the
/// destination is written and not by what is on disk.
#[derive(Clone, Debug, PartialEq, Eq)]
pub enum CopyTarget {
    /// Into this directory, each match under its own name.
    DirectoryTarget(String),
    /// Onto this one file.
    FileTarget(String),
}

impl CopyTarget {
    /// The destination as it was written.
    pub open spec fn path(self) -> Seq<char> {
        match self {
            CopyTarget::DirectoryTarget(path) => path@,
            CopyTarget::FileTarget(path) => path@,
        }
    }

    /// A destination that ends with a separator is a directory target, any
    /// other a file target.
    pub fn classify(destination: String) -> (target: CopyTarget)
        ensures
            target.path() == destination@,
            target is DirectoryTarget <==> ends_with_separator(destination@),
    {
        let n = destination.as_str().unicode_len();
        if n > 0 {
            let last = destination.as_str().get_char(n - 1);
            if last == '/' || last == '\\' {
                return CopyTarget::DirectoryTarget(destination);
            }
        }
        CopyTarget::FileTarget(destination)
    }
}

/// What ends a run before its time, whether forced or not.
#[derive(Clone, Copy, PartialEq, Eq, Structural, Debug)]
pub enum Fault {
    /// The destination of a directory target exists as a regular file.
    DestinationIsFile,
    /// The destination directory could not be created.
    DestinationNotCreated,
    /// A match was neither directory nor file when its turn came.
    SourceVanished,
    /// A match has no base name to copy it under.
    SourceUnnamed,
}

/// How a run has ended.
#[derive(Clone, Copy, PartialEq, Eq, Structural, Debug)]
pub enum Ending {
    /// Every match had its turn.
    Completed,
    /// A file target was given other than exactly one match.
    Refused,
    /// A fault put an end to the run.
    Aborted(Fault),
}

/// Where a run stands.
#[derive(Clone, Copy, PartialEq, Eq, Structural, Debug)]
pub enum Phase {
    /// The destination directory has yet to be looked at.
    DestinationUnknown,
    /// The destination directory is missing and has yet to be created.
    DestinationMissing,
    /// The match whose turn it is has yet to be looked at.
    EntryUnknown,
    /// The match whose turn it is is being copied as a directory tree.
    CopyingTree,
    /// The match whose turn it is is being copied as a single file.
    CopyingFile,
    /// The run has ended.
    Stopped(Ending),
}

/// What a caller reports of the step it was handed.
#[derive(Clone, Copy, PartialEq, Eq, Structural, Debug)]
pub enum Event {
    /// What the path looked at turned out to be.
    Found(EntryKind),
    /// Whether the creating or copying went well.
    Finished(bool),
}

/// What a caller is to do next.
#[derive(Clone, Debug, PartialEq, Eq)]
pub enum Step {
    /// Look at the destination and report what it is.
    ProbeDestination(String),
    /// Create the destination directory with its missing ancestors and
    /// report whether that went well.
    CreateDestination(String),
    /// Look at this match and report what it is.
    ProbeEntry(String),
    /// Copy the directory tree `from` to `to` and report whether that went
    /// well.
    CopyTree { from: String, to: String },
    /// Copy the file `from` to `to` and report whether that went well.
    CopyFile { from: String, to: String },
    /// Give up on account of `fault`, found at `path`.
    Abort { fault: Fault, path: String },
    /// Turn the matches down, naming each: a file target takes exactly
    /// one. The run counts as a success only if forced.
    Refuse { entries: Vec<String>, success: bool },
    /// Leave, with the number of copies that failed.
    Exit { success: bool, errors: usize },
}

/// A run as contracts see it.
pub struct RunView {
    /// The matches to copy, in order.
    pub entries: Seq<Seq<char>>,
    /// The destination as written.
    pub destination: Seq<char>,
    /// Whether the destination is a directory target.
    pub into_directory: bool,
    /// Whether errors that are not fatal leave the run a success.
    pub forced: bool,
    /// Where the run stands.
    pub phase: Phase,
    /// How many matches have had their turn.
    pub index: nat,
    /// How many copies have failed.
    pub errors: nat,
}

impl RunView {
    /// A run before its first step. A directory target begins with a look
    /// at the destination. A file target begins with the copy of its one
    /// match, and is refused where the matches are not exactly one.
    pub open spec fn initial(
        entries: Seq<Seq<char>>,
        destination: Seq<char>,
        into_directory: bool,
        forced: bool,
    ) -> RunView {
        RunView {
            entries,
            destination,
            into_directory,
            forced,
            phase: if into_directory {
                Phase::DestinationUnknown
            } else if entries.len() == 1 {
                Phase::CopyingFile
            } else {
                Phase::Stopped(Ending::Refused)
            },
            index: 0,
            errors: 0,
        }
    }

    /// The run in another phase.
    pub open spec fn in_phase(self, phase: Phase) -> RunView {
        RunView { phase, ..self }
    }

    /// The run as the match `index` gets its turn: completed when no such
    /// match is left, aborted when the match has no base name, and else
    /// about to look at it.
    pub open spec fn turn_to(self, index: nat) -> RunView {
        let phase = if index >= self.entries.len() {
            Phase::Stopped(Ending::Completed)
        } else if base_name(self.entries[index as int]) is None {
            Phase::Stopped(Ending::Aborted(Fault::SourceUnnamed))
        } else {
            Phase::EntryUnknown
        };
        RunView { phase, index, ..self }
    }

    /// The run with one copy more accounted for.
    pub open spec fn tally(self, went_well: bool) -> RunView {
        RunView { errors: if went_well { self.errors } else { self.errors + 1 }, ..self }
    }

    /// The run after a copy has been reported: the failure counted, and the
    /// next match's turn, or the end for a file target.
    pub open spec fn after_copy(self, went_well: bool) -> RunView {
        if self.into_directory {
            self.tally(went_well).turn_to(self.index + 1)
        } else {
            RunView {
                phase: Phase::Stopped(Ending::Completed),
                index: self.index + 1,
                ..self.tally(went_well)
            }
        }
    }

    /// The run after `event` has been reported. A report that does not
    /// answer the step handed out changes nothing.
    pub open spec fn after(self, event: Event) -> RunView {
        match (self.phase, event) {
            (Phase::DestinationUnknown, Event::Found(EntryKind::File)) => self.in_phase(
                Phase::Stopped(Ending::Aborted(Fault::DestinationIsFile)),
            ),
            (Phase::DestinationUnknown, Event::Found(EntryKind::Directory)) => self.turn_to(0),
            (Phase::DestinationUnknown, Event::Found(EntryKind::Other)) => self.in_phase(
                Phase::DestinationMissing,
            ),
            (Phase::DestinationMissing, Event::Finished(true)) => self.turn_to(0),
            (Phase::DestinationMissing, Event::Finished(false)) => self.in_phase(
                Phase::Stopped(Ending::Aborted(Fault::DestinationNotCreated)),
            ),
            (Phase::EntryUnknown, Event::Found(EntryKind::Directory)) => self.in_phase(
                Phase::CopyingTree,
            ),
            (Phase::EntryUnknown, Event::Found(EntryKind::File)) => self.in_phase(
                Phase::CopyingFile,
            ),
            (Phase::EntryUnknown, Event::Found(EntryKind::Other)) => self.in_phase(
                Phase::Stopped(Ending::Aborted(Fault::SourceVanished)),
            ),
            (Phase::CopyingTree, Event::Finished(went_well)) => self.after_copy(went_well),
            (Phase::CopyingFile, Event::Finished(went_well)) => self.after_copy(went_well),
            _ => self,
        }
    }

    /// Whether the run has ended.
    pub open spec fn is_over(self) -> bool {
        self.phase is Stopped
    }

    /// Whether the run has ended a success. A completed run into a
    /// directory succeeds if no copy failed or it was forced; a completed
    /// copy onto a file succeeds if it did not fail; a refused run succeeds
    /// if it was forced; an aborted run never does.
    pub open spec fn succeeds(self) -> bool {
        match self.phase {
            Phase::Stopped(Ending::Completed) => self.errors == 0 || (self.into_directory
                && self.forced),
            Phase::Stopped(Ending::Refused) => self.forced,
            _ => false,
        }
    }

    /// Where the match whose turn it is is copied to: under its base name
    /// in the destination directory, or onto the destination file.
    pub open spec fn target(self) -> Seq<char> {
        if self.into_directory {
            match base_name(self.entries[self.index as int]) {
                Some(name) => joined_path(self.destination, name),
                None => self.destination,
            }
        } else {
            self.destination
        }
    }

    /// The path at which `fault` was found.
    pub open spec fn fault_path(self, fault: Fault) -> Seq<char> {
        match fault {
            Fault::DestinationIsFile | Fault::DestinationNotCreated => self.destination,
            Fault::SourceVanished | Fault::SourceUnnamed => self.entries[self.index as int],
        }
    }

    /// What holds of every run that began with `initial` and went on by
    /// `after`: the counters stay within the matches, and where a match is
    /// being dealt with, there is one.
    pub open spec fn is_sound(self) -> bool {
        &&& self.index <= self.entries.len()
        &&& self.errors <= self.index
        &&& match self.phase {
            Phase::DestinationUnknown | Phase::DestinationMissing => self.index == 0,
            Phase::EntryUnknown | Phase::CopyingTree | Phase::CopyingFile => self.index
                < self.entries.len(),
            Phase::Stopped(Ending::Aborted(Fault::SourceVanished))
            | Phase::Stopped(Ending::Aborted(Fault::SourceUnnamed)) => self.index
                < self.entries.len(),
            Phase::Stopped(_) => true,
        }
    }
}

/// A run begins sound.
pub proof fn lemma_initial_is_sound(
    entries: Seq<Seq<char>>,
    destination: Seq<char>,
    into_directory: bool,
    forced: bool,
)
    ensures
        RunView::initial(entries, destination, into_directory, forced).is_sound(),
{
}

/// A run stays sound whatever is reported.
pub proof fn lemma_after_is_sound(run: RunView, event: Event)
    requires
        run.is_sound(),
    ensures
        run.after(event).is_sound(),
{
}

/// Once a run has ended, no report changes it.
pub proof fn lemma_over_is_over(run: RunView, event: Event)
    requires
        run.is_over(),
    ensures
        run.after(event) == run,
{
}

/// Forcing a run never turns a fault into a success.
pub proof fn lemma_fault_is_fatal(run: RunView, fault: Fault)
    requires
        run.phase == Phase::Stopped(Ending::Aborted(fault)),
    ensures
        !run.succeeds(),
{
}

/// The decisions of one copy run.
#[derive(Debug)]
pub struct CopyRun {
    entries: Vec<String>,
    destination: String,
    into_directory: bool,
    forced: bool,
    phase: Phase,
    index: usize,
    errors: usize,
}

impl View for CopyRun {
    type V = RunView;

    closed spec fn view(&self) -> RunView {
        RunView {
            entries: texts(self.entries@),
            destination: self.destination@,
            into_directory: self.into_directory,
            forced: self.forced,
            phase: self.phase,
            index: self.index as nat,
            errors: self.errors as nat,
        }
    }
}

impl CopyRun {
    /// Begins a run that copies `entries` to `target`.
    pub fn new(entries: Vec<String>, target: CopyTarget, forced: bool) -> (run: CopyRun)
        ensures
            run@ == RunView::initial(
                texts(entries@),
                target.path(),
                target is DirectoryTarget,
                forced,
            ),
            run@.is_sound(),
    {
        let single = entries.len() == 1;
        match target {
            CopyTarget::DirectoryTarget(destination) => CopyRun {
                entries,
                destination,
                into_directory: true,
                forced,
                phase: Phase::DestinationUnknown,
                index: 0,
                errors: 0,
            },
            CopyTarget::FileTarget(destination) => CopyRun {
                entries,
                destination,
                into_directory: false,
                forced,
                phase: if single {
                    Phase::CopyingFile
                } else {
                    Phase::Stopped(Ending::Refused)
                },
                index: 0,
                errors: 0,
            },
        }
    }

    /// Whether the run has ended.
    pub fn is_over(&self) -> (over: bool)
        ensures
            over == self@.is_over(),
    {
        match self.phase {
            Phase::Stopped(_) => true,
            _ => false,
        }
    }

    /// How many copies have failed so far.
    pub fn errors(&self) -> (errors: usize)
        ensures
            errors == self@.errors,
    {
        self.errors
    }

    /// Whether the run has ended a success.
    pub fn succeeded(&self) -> (success: bool)
        ensures
            success == self@.succeeds(),
    {
        match self.phase {
            Phase::Stopped(Ending::Completed) => self.errors == 0 || (self.into_directory
                && self.forced),
            Phase::Stopped(Ending::Refused) => self.forced,
            _ => false,
        }
    }

    fn target(&self) -> (to: String)
        requires
            self@.is_sound(),
            self.phase == Phase::CopyingTree || self.phase == Phase::CopyingFile,
        ensures
            to@ == self@.target(),
    {
        if self.into_directory {
            match path_base_name(self.entries[self.index].as_str()) {
                Some(name) => path_join(self.destination.as_str(), name.as_str()),
                None => self.destination.clone(),
            }
        } else {
            self.destination.clone()
        }
    }

    fn copy_of_entries(&self) -> (copy: Vec<String>)
        ensures
            texts(copy@) == texts(self.entries@),
    {
        let mut copy: Vec<String> = Vec::new();
        let mut i: usize = 0;
        while i < self.entries.len()
            invariant
                i <= self.entries.len(),
                texts(copy@) == texts(self.entries@).take(i as int),
            decreases self.entries.len() - i,
        {
            let ghost before = texts(copy@);
            copy.push(self.entries[i].clone());
            assert(texts(copy@) =~= before.push(self.entries@[i as int]@));
            assert(texts(self.entries@).take(i + 1) =~= texts(self.entries@).take(i as int).push(
                self.entries@[i as int]@,
            ));
            i += 1;
        }
        assert(texts(self.entries@).take(self.entries.len() as int) =~= texts(self.entries@));
        copy
    }

    /// What the caller is to do next.
    pub fn next_step(&self) -> (step: Step)
        requires
            self@.is_sound(),
        ensures
            match step {
                Step::ProbeDestination(path) => self@.phase == Phase::DestinationUnknown && path@
                    == self@.destination,
                Step::CreateDestination(path) => self@.phase == Phase::DestinationMissing && path@
                    == self@.destination,
                Step::ProbeEntry(path) => self@.phase == Phase::EntryUnknown && path@
                    == self@.entries[self@.index as int],
                Step::CopyTree { from, to } => self@.phase == Phase::CopyingTree && from@
                    == self@.entries[self@.index as int] && to@ == self@.target(),
                Step::CopyFile { from, to } => self@.phase == Phase::CopyingFile && from@
                    == self@.entries[self@.index as int] && to@ == self@.target(),
                Step::Abort { fault, path } => self@.phase == Phase::Stopped(
                    Ending::Aborted(fault),
                ) && path@ == self@.fault_path(fault),
                Step::Refuse { entries, success } => self@.phase == Phase::Stopped(
                    Ending::Refused,
                ) && texts(entries@) == self@.entries && success == self@.succeeds(),
                Step::Exit { success, errors } => self@.phase == Phase::Stopped(
                    Ending::Completed,
                ) && errors == self@.errors && success == self@.succeeds(),
            },
    {
        match self.phase {
            Phase::DestinationUnknown => Step::ProbeDestination(self.destination.clone()),
            Phase::DestinationMissing => Step::CreateDestination(self.destination.clone()),
            Phase::EntryUnknown => Step::ProbeEntry(self.entries[self.index].clone()),
            Phase::CopyingTree => Step::CopyTree {
                from: self.entries[self.index].clone(),
                to: self.target(),
            },
            Phase::CopyingFile => Step::CopyFile {
                from: self.entries[self.index].clone(),
                to: self.target(),
            },
            Phase::Stopped(Ending::Aborted(fault)) => {
                let path = match fault {
                    Fault::DestinationIsFile | Fault::DestinationNotCreated => {
                        self.destination.clone()
                    },
                    Fault::SourceVanished | Fault::SourceUnnamed => {
                        self.entries[self.index].clone()
                    },
                };
                Step::Abort { fault, path }
            },
            Phase::Stopped(Ending::Refused) => Step::Refuse {
                entries: self.copy_of_entries(),
                success: self.forced,
            },
            Phase::Stopped(Ending::Completed) => Step::Exit {
                success: self.succeeded(),
                errors: self.errors,
            },
        }
    }

    fn turn_to(&mut self, index: usize)
        requires
            index <= old(self).entries.len(),
        ensures
            final(self)@ == old(self)@.turn_to(index as nat),
    {
        self.index = index;
        if index >= self.entries.len() {
            self.phase = Phase::Stopped(Ending::Completed);
        } else {
            match path_base_name(self.entries[index].as_str()) {
                None => {
                    self.phase = Phase::Stopped(Ending::Aborted(Fault::SourceUnnamed));
                },
                Some(_) => {
                    self.phase = Phase::EntryUnknown;
                },
            }
        }
    }

    fn after_copy(&mut self, went_well: bool)
        requires
            old(self)@.is_sound(),
            old(self).phase == Phase::CopyingTree || old(self).phase == Phase::CopyingFile,
        ensures
            final(self)@ == old(self)@.after_copy(went_well),
    {
        let total = self.entries.len();
        assert(self@.errors <= self@.index < self@.entries.len() == total);
        if !went_well {
            self.errors = self.errors + 1;
        }
        if self.into_directory {
            self.turn_to(self.index + 1);
        } else {
            self.index = self.index + 1;
            self.phase = Phase::Stopped(Ending::Completed);
        }
    }

    /// Takes the caller's report of the step handed out and moves on.
    pub fn report(&mut self, event: Event)
        requires
            old(self)@.is_sound(),
        ensures
            final(self)@ == old(self)@.after(event),
            final(self)@.is_sound(),
    {
        match self.phase {
            Phase::DestinationUnknown => {
                match event {
                    Event::Found(EntryKind::File) => {
                        self.phase = Phase::Stopped(Ending::Aborted(Fault::DestinationIsFile));
                    },
                    Event::Found(EntryKind::Directory) => {
                        self.turn_to(0);
                    },
                    Event::Found(EntryKind::Other) => {
                        self.phase = Phase::DestinationMissing;
                    },
                    _ => {},
                }
            },
            Phase::DestinationMissing => {
                match event {
                    Event::Finished(true) => {
                        self.turn_to(0);
                    },
                    Event::Finished(false) => {
                        self.phase = Phase::Stopped(Ending::Aborted(Fault::DestinationNotCreated));
                    },
                    _ => {},
                }
            },
            Phase::EntryUnknown => {
                match event {
                    Event::Found(EntryKind::Directory) => {
                        self.phase = Phase::CopyingTree;
                    },
                    Event::Found(EntryKind::File) => {
                        self.phase = Phase::CopyingFile;
                    },
                    Event::Found(EntryKind::Other) => {
                        self.phase = Phase::Stopped(Ending::Aborted(Fault::SourceVanished));
                    },
                    _ => {},
                }
            },
            Phase::CopyingTree | Phase::CopyingFile => {
                match event {
                    Event::Finished(went_well) => {
                        self.after_copy(went_well);
                    },
                    _ => {},
                }
            },
            Phase::Stopped(_) => {},
        }
    }
}

} // verus!
