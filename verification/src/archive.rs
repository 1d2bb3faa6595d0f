//! The archive of finished logs: each file becomes a zip of its own under a name
//! that is new, and its original may be deleted.

use vstd::prelude::*;
use vstd::string::*;

use crate::messages;
use crate::names;
use crate::names::{UsedNames, ZipCandidate};

verus! {

broadcast use {
    vstd::string::group_string_axioms,
    vstd::seq::group_seq_axioms,
    vstd::set::group_set_axioms,
};

/// What to archive, and where the zips go.
#[derive(Debug)]
pub struct ArchiveArgs {
    pub files: Vec<String>,
    pub dest_dir: String,
    pub delete_originals: bool,
}

// ---- names and progress -------------------------------------------------------------

/// `name`, or `fallback` where there is none.
pub open spec fn name_or(name: Option<Seq<char>>, fallback: Seq<char>) -> Seq<char> {
    match name {
        Some(name) => name,
        None => fallback,
    }
}

/// The text of an optional string.
pub open spec fn text_view(name: Option<&str>) -> Option<Seq<char>> {
    match name {
        Some(name) => Some(name@),
        None => None,
    }
}

/// The name of the entry in the zip of a file: the file's own name, where it can be
/// read.
pub fn entry_name(name: Option<&str>) -> (r: String)
    ensures
        r@ == name_or(text_view(name), "log.txt"@),
{
    match name {
        Some(name) => name.to_owned(),
        None => "log.txt".to_owned(),
    }
}

/// What the user is told when the archive of a file starts.
pub fn archive_message(name: Option<&str>) -> (r: String)
    ensures
        r@ == "Archiving "@ + name_or(text_view(name), "log"@) + "…"@,
{
    let name = match name {
        Some(name) => name,
        None => "log",
    };
    let mut out = messages::joined("Archiving ", name);
    out.append("…");
    out
}

/// How far the archive is before file `index` of `total`, in percent.
pub open spec fn percent_before(index: nat, total: nat) -> u32 {
    (index * 100 / total) as u32
}

/// The folder for archives inside a folder of logs.
pub const ARCHIVE_FOLDER: &'static str = "archive";

/// The path ends in a separator, or is empty: a name may follow at once.
pub open spec fn is_open_path(path: Seq<char>) -> bool {
    path.len() == 0 || path.last() == '/' || path.last() == '\\'
}

/// Where the zips go: to the folder that was asked for, or to the folder for archives
/// inside the folder of the logs.
pub open spec fn folder_of(dest_dir: Option<Seq<char>>, logs: Seq<char>) -> Seq<char> {
    match dest_dir {
        Some(folder) => folder,
        None => if is_open_path(logs) {
            logs + ARCHIVE_FOLDER@
        } else {
            logs + "/"@ + ARCHIVE_FOLDER@
        },
    }
}

/// Where the zips go. `logs` is the folder that the logs are in.
pub fn archive_folder(dest_dir: Option<String>, logs: &str) -> (r: String)
    ensures
        r@ == folder_of(
            match dest_dir {
                Some(folder) => Some(folder@),
                None => None,
            },
            logs@,
        ),
{
    if let Some(folder) = dest_dir {
        return folder;
    }
    let mut out = logs.to_owned();
    let n = logs.unicode_len();
    let is_open = if n == 0 {
        true
    } else {
        let last = logs.get_char(n - 1);
        last == '/' || last == '\\'
    };
    if !is_open {
        out.append("/");
    }
    out.append(ARCHIVE_FOLDER);
    out
}

// ---- the course of an archive ---------------------------------------------------------

/// What the archive is waiting for.
#[derive(Clone, Copy, PartialEq, Eq, Structural, Debug)]
pub enum ArchivePhase {
    /// The name of a file.
    Naming,
    /// Whether a zip of a name exists already.
    Probing,
    /// A file to be zipped.
    Zipping,
    /// An original to be deleted.
    Deleting,
    /// Nothing: the archive is over.
    Over,
}

/// An answer that the archive got.
pub enum ArchiveEvent {
    /// The name of the file without its extension, where it can be read.
    Named(Option<String>),
    /// Whether a file of the name exists in the destination.
    Exists(bool),
    /// Whether the file was zipped.
    Zipped(bool),
    /// Whether the original was deleted.
    Deleted(bool),
}

/// What the archive does next.
pub enum ArchiveAction {
    /// Name file `index`.
    Name { index: usize },
    /// Look whether `name` exists in the destination.
    Probe { name: String },
    /// Zip the file as `name`.
    Zip { name: String },
    /// Delete the original.
    Delete,
    /// The archive failed with the error at hand.
    Fail,
    /// The archive is over; how many files it holds.
    Done { count: u32 },
}

/// An event as plain values.
pub enum EventView {
    Named(Option<Seq<char>>),
    Exists(bool),
    Zipped(bool),
    Deleted(bool),
}

impl View for ArchiveEvent {
    type V = EventView;

    open spec fn view(&self) -> EventView {
        match *self {
            ArchiveEvent::Named(Some(stem)) => EventView::Named(Some(stem@)),
            ArchiveEvent::Named(None) => EventView::Named(None),
            ArchiveEvent::Exists(exists) => EventView::Exists(exists),
            ArchiveEvent::Zipped(ok) => EventView::Zipped(ok),
            ArchiveEvent::Deleted(ok) => EventView::Deleted(ok),
        }
    }
}

/// An action as plain values.
pub enum ActionView {
    Name { index: nat },
    Probe { name: Seq<char> },
    Zip { name: Seq<char> },
    Delete,
    Fail,
    Done { count: u32 },
}

impl View for ArchiveAction {
    type V = ActionView;

    open spec fn view(&self) -> ActionView {
        match *self {
            ArchiveAction::Name { index } => ActionView::Name { index: index as nat },
            ArchiveAction::Probe { name } => ActionView::Probe { name: name@ },
            ArchiveAction::Zip { name } => ActionView::Zip { name: name@ },
            ArchiveAction::Delete => ActionView::Delete,
            ArchiveAction::Fail => ActionView::Fail,
            ArchiveAction::Done { count } => ActionView::Done { count },
        }
    }
}

/// The state of an archive.
pub struct Archive {
    phase: ArchivePhase,
    total: usize,
    index: usize,
    delete_originals: bool,
    used: UsedNames,
    stem: String,
    candidate: ZipCandidate,
}

/// The state of an archive as plain values.
#[verifier::ext_equal]
pub struct ArchiveView {
    pub phase: ArchivePhase,
    /// How many files there are.
    pub total: nat,
    /// The file at work; those before it are archived.
    pub index: nat,
    pub delete_originals: bool,
    /// The names of the zips of this run.
    pub used: Set<Seq<char>>,
    /// The name of the file at work without its extension.
    pub stem: Seq<char>,
    /// The try at a name for its zip.
    pub attempt: nat,
    /// The name of that try.
    pub name: Seq<char>,
}

impl View for Archive {
    type V = ArchiveView;

    closed spec fn view(&self) -> ArchiveView {
        ArchiveView {
            phase: self.phase,
            total: self.total as nat,
            index: self.index as nat,
            delete_originals: self.delete_originals,
            used: self.used@,
            stem: self.stem@,
            attempt: self.candidate.attempt as nat,
            name: self.candidate.name@,
        }
    }
}

/// A step as plain values: the state behind it, the progress to tell, and what to do.
pub struct StepView {
    pub state: ArchiveView,
    pub progress: Option<u32>,
    pub action: ActionView,
}

/// One step of an archive: the progress to tell, and what to do.
pub struct ArchiveStep {
    pub progress: Option<u32>,
    pub action: ArchiveAction,
}

pub open spec fn stepped(r: (Archive, ArchiveStep)) -> StepView {
    StepView { state: r.0@, progress: r.1.progress, action: r.1.action@ }
}

/// File `index`, or the end.
pub open spec fn file(s: ArchiveView, index: nat) -> StepView {
    if index < s.total {
        StepView {
            state: ArchiveView { phase: ArchivePhase::Naming, index, ..s },
            progress: None,
            action: ActionView::Name { index },
        }
    } else {
        StepView {
            state: ArchiveView { phase: ArchivePhase::Over, index, ..s },
            progress: None,
            action: ActionView::Done { count: index as u32 },
        }
    }
}

/// The state before the first file.
pub open spec fn blank(total: nat, delete_originals: bool) -> ArchiveView {
    ArchiveView {
        phase: ArchivePhase::Over,
        total,
        index: 0,
        delete_originals,
        used: Set::empty(),
        stem: Seq::empty(),
        attempt: 0,
        name: Seq::empty(),
    }
}

/// The next free name for a zip, from try `from` on.
pub open spec fn probe(s: ArchiveView, from: nat, progress: Option<u32>) -> StepView {
    let attempt = names::zip_attempt(s.used, s.stem, from);
    let name = names::zip_name(s.stem, attempt);
    StepView {
        state: ArchiveView { phase: ArchivePhase::Probing, attempt, name, ..s },
        progress,
        action: ActionView::Probe { name },
    }
}

pub open spec fn fail(s: ArchiveView) -> StepView {
    StepView {
        state: ArchiveView { phase: ArchivePhase::Over, ..s },
        progress: None,
        action: ActionView::Fail,
    }
}

/// The numbers of the tries at a name stay in range.
pub open spec fn numbers_left(s: ArchiveView) -> bool {
    s.attempt + s.used.len() < u64::MAX
}

/// What follows in state `s` on `event`.
pub open spec fn next(s: ArchiveView, event: EventView) -> StepView {
    match (s.phase, event) {
        (ArchivePhase::Naming, EventView::Named(stem)) => probe(
            ArchiveView { stem: name_or(stem, "log"@), ..s },
            1,
            Some(percent_before(s.index, s.total)),
        ),
        (ArchivePhase::Probing, EventView::Exists(true)) => probe(s, s.attempt + 1, None),
        (ArchivePhase::Probing, EventView::Exists(false)) => StepView {
            state: ArchiveView { phase: ArchivePhase::Zipping, used: s.used.insert(s.name), ..s },
            progress: None,
            action: ActionView::Zip { name: s.name },
        },
        (ArchivePhase::Zipping, EventView::Zipped(true)) if s.delete_originals => StepView {
            state: ArchiveView { phase: ArchivePhase::Deleting, ..s },
            progress: None,
            action: ActionView::Delete,
        },
        (ArchivePhase::Zipping, EventView::Zipped(true)) => file(s, s.index + 1),
        (ArchivePhase::Deleting, EventView::Deleted(true)) => file(s, s.index + 1),
        _ => fail(s),
    }
}

impl Archive {
    #[verifier::type_invariant]
    spec fn in_order(self) -> bool {
        &&& self.total <= u32::MAX
        &&& self.index <= self.total
        &&& self.phase != ArchivePhase::Over ==> self.index < self.total
        &&& self.used@.finite()
        &&& self.used@.len() <= self.index + (if self.phase == ArchivePhase::Naming || self.phase
            == ArchivePhase::Probing {
            0int
        } else {
            1
        })
    }

    /// Starts the archive of `total` files.
    pub fn begin(total: usize, delete_originals: bool) -> (r: (Archive, ArchiveStep))
        requires
            total <= u32::MAX,
        ensures
            stepped(r) == file(blank(total as nat, delete_originals), 0),
    {
        let candidate = ZipCandidate { attempt: 0, name: String::new() };
        let used = UsedNames::new();
        let stem = String::new();
        if total > 0 {
            let archive = Archive {
                phase: ArchivePhase::Naming,
                total,
                index: 0,
                delete_originals,
                used,
                stem,
                candidate,
            };
            let step = ArchiveStep { progress: None, action: ArchiveAction::Name { index: 0 } };
            assert(stepped((archive, step)) == file(blank(total as nat, delete_originals), 0));
            (archive, step)
        } else {
            let archive = Archive {
                phase: ArchivePhase::Over,
                total,
                index: 0,
                delete_originals,
                used,
                stem,
                candidate,
            };
            let step = ArchiveStep { progress: None, action: ArchiveAction::Done { count: 0 } };
            assert(stepped((archive, step)) == file(blank(total as nat, delete_originals), 0));
            (archive, step)
        }
    }

    fn named(self, stem: Option<String>) -> (r: (Archive, ArchiveStep))
        requires
            self@.phase == ArchivePhase::Naming,
        ensures
            stepped(r) == next(
                self@,
                EventView::Named(
                    match stem {
                        Some(s) => Some(s@),
                        None => None,
                    },
                ),
            ),
    {
        proof {
            use_type_invariant(&self);
        }
        let stem = match stem {
            Some(stem) => stem,
            None => "log".to_owned(),
        };
        let pct = (self.index as u64 * 100 / self.total as u64) as u32;
        let candidate = names::zip_candidate(stem.as_str(), &self.used, 1);
        proof {
            names::lemma_follows(candidate, self.used@, stem@, 1);
        }
        let name = candidate.name.clone();
        let archive = Archive {
            phase: ArchivePhase::Probing,
            total: self.total,
            index: self.index,
            delete_originals: self.delete_originals,
            used: self.used,
            stem,
            candidate,
        };
        (archive, ArchiveStep { progress: Some(pct), action: ArchiveAction::Probe { name } })
    }

    fn probed(self, exists: bool) -> (r: (Archive, ArchiveStep))
        requires
            self@.phase == ArchivePhase::Probing,
            numbers_left(self@),
        ensures
            stepped(r) == next(self@, EventView::Exists(exists)),
    {
        proof {
            use_type_invariant(&self);
        }
        let mut used = self.used;
        let ghost before = used@;
        let ghost name = self.candidate.name@;
        let ghost attempt = self.candidate.attempt as nat;
        let tried = self.candidate.attempt;
        let candidate = ZipCandidate { attempt: tried, name: self.candidate.name.clone() };
        match names::unique_zip_path(self.stem.as_str(), &mut used, self.candidate, exists) {
            Ok(name) => {
                let archive = Archive {
                    phase: ArchivePhase::Zipping,
                    total: self.total,
                    index: self.index,
                    delete_originals: self.delete_originals,
                    used,
                    stem: self.stem,
                    candidate,
                };
                (archive, ArchiveStep { progress: None, action: ArchiveAction::Zip { name } })
            },
            Err(candidate) => {
                proof {
                    names::lemma_follows(candidate, before, self.stem@, attempt + 1);
                }
                let name = candidate.name.clone();
                let archive = Archive {
                    phase: ArchivePhase::Probing,
                    total: self.total,
                    index: self.index,
                    delete_originals: self.delete_originals,
                    used,
                    stem: self.stem,
                    candidate,
                };
                (archive, ArchiveStep { progress: None, action: ArchiveAction::Probe { name } })
            },
        }
    }

    /// The next file, or the end.
    fn file_done(self) -> (r: (Archive, ArchiveStep))
        requires
            self@.phase == ArchivePhase::Zipping || self@.phase == ArchivePhase::Deleting,
        ensures
            stepped(r) == file(self@, self@.index + 1),
    {
        proof {
            use_type_invariant(&self);
        }
        let index = self.index + 1;
        let (phase, action) = if index < self.total {
            (ArchivePhase::Naming, ArchiveAction::Name { index })
        } else {
            (ArchivePhase::Over, ArchiveAction::Done { count: index as u32 })
        };
        let archive = Archive {
            phase,
            total: self.total,
            index,
            delete_originals: self.delete_originals,
            used: self.used,
            stem: self.stem,
            candidate: self.candidate,
        };
        (archive, ArchiveStep { progress: None, action })
    }

    fn turn(self, phase: ArchivePhase, action: ArchiveAction) -> (r: (Archive, ArchiveStep))
        requires
            phase == ArchivePhase::Over || (phase == ArchivePhase::Deleting && self@.phase
                == ArchivePhase::Zipping),
        ensures
            stepped(r) == (StepView {
                state: ArchiveView { phase, ..self@ },
                progress: None,
                action: action@,
            }),
    {
        proof {
            use_type_invariant(&self);
        }
        let archive = Archive {
            phase,
            total: self.total,
            index: self.index,
            delete_originals: self.delete_originals,
            used: self.used,
            stem: self.stem,
            candidate: self.candidate,
        };
        (archive, ArchiveStep { progress: None, action })
    }

    /// Whether there are numbers left for the names of the zips.
    pub fn has_numbers(&self) -> (r: bool)
        ensures
            r == numbers_left(self@),
    {
        self.candidate.attempt < u64::MAX - self.used.len() as u64
    }

    /// What follows on the answer `event`. An answer that the archive does not wait
    /// for ends it as a failure does.
    pub fn step(self, event: ArchiveEvent) -> (r: (Archive, ArchiveStep))
        requires
            numbers_left(self@),
        ensures
            stepped(r) == next(self@, event@),
    {
        match (self.phase, event) {
            (ArchivePhase::Naming, ArchiveEvent::Named(stem)) => self.named(stem),
            (ArchivePhase::Probing, ArchiveEvent::Exists(exists)) => self.probed(exists),
            (ArchivePhase::Zipping, ArchiveEvent::Zipped(true)) => {
                if self.delete_originals {
                    self.turn(ArchivePhase::Deleting, ArchiveAction::Delete)
                } else {
                    self.file_done()
                }
            },
            (ArchivePhase::Deleting, ArchiveEvent::Deleted(true)) => self.file_done(),
            _ => self.turn(ArchivePhase::Over, ArchiveAction::Fail),
        }
    }
}

// ---- laws ---------------------------------------------------------------------------

/// The last step of an archive of `total` files that got the answers `events`.
pub open spec fn run(total: nat, delete_originals: bool, events: Seq<EventView>) -> StepView
    decreases events.len(),
{
    if events.len() == 0 {
        file(blank(total, delete_originals), 0)
    } else {
        next(run(total, delete_originals, events.drop_last()).state, events.last())
    }
}

/// The names under which files were zipped, in order.
pub open spec fn zips(total: nat, delete_originals: bool, events: Seq<EventView>) -> Seq<Seq<char>>
    decreases events.len(),
{
    if events.len() == 0 {
        Seq::empty()
    } else {
        let before = zips(total, delete_originals, events.drop_last());
        match run(total, delete_originals, events).action {
            ActionView::Zip { name } => before.push(name),
            _ => before,
        }
    }
}

/// How often `answer` came while the archive was waiting for it in `phase`.
pub open spec fn answered(
    total: nat,
    delete_originals: bool,
    events: Seq<EventView>,
    phase: ArchivePhase,
    answer: EventView,
) -> nat
    decreases events.len(),
{
    if events.len() == 0 {
        0
    } else {
        let before = events.drop_last();
        answered(total, delete_originals, before, phase, answer) + (if events.last() == answer
            && run(total, delete_originals, before).state.phase == phase {
            1nat
        } else {
            0nat
        })
    }
}

proof fn lemma_push_to_set(s: Seq<Seq<char>>, x: Seq<char>)
    ensures
        s.push(x).to_set() == s.to_set().insert(x),
{
    let more = s.push(x);
    assert forall|y: Seq<char>| more.to_set().contains(y) == s.to_set().insert(x).contains(y) by {
        if more.contains(y) {
            let i = choose|i: int| 0 <= i < more.len() && more[i] == y;
            if i < s.len() {
                assert(s[i] == y);
            }
        }
        if s.contains(y) {
            let i = choose|i: int| 0 <= i < s.len() && s[i] == y;
            assert(more[i] == y);
        }
        if y == x {
            assert(more[s.len() as int] == y);
        }
    }
    assert(more.to_set() =~= s.to_set().insert(x));
}

proof fn lemma_zips(total: nat, delete_originals: bool, events: Seq<EventView>)
    ensures
        ({
            let s = run(total, delete_originals, events).state;
            let zips = zips(total, delete_originals, events);
            &&& s.used == zips.to_set()
            &&& zips.no_duplicates()
            &&& s.phase == ArchivePhase::Probing ==> !s.used.contains(s.name)
        }),
    decreases events.len(),
{
    if events.len() > 0 {
        let less = events.drop_last();
        lemma_zips(total, delete_originals, less);
        let s = run(total, delete_originals, less).state;
        let before = zips(total, delete_originals, less);
        let after = next(s, events.last());
        vstd::seq_lib::seq_to_set_is_finite(before);
        match (s.phase, events.last()) {
            (ArchivePhase::Naming, EventView::Named(stem)) => {
                names::a_zip_name_is_free(s.used, name_or(stem, "log"@), 1);
            },
            (ArchivePhase::Probing, EventView::Exists(true)) => {
                names::a_zip_name_is_free(s.used, s.stem, s.attempt + 1);
            },
            (ArchivePhase::Probing, EventView::Exists(false)) => {
                lemma_push_to_set(before, s.name);
                assert forall|i: int| 0 <= i < before.len() implies before[i] != s.name by {
                    assert(before.to_set().contains(before[i]));
                }
            },
            _ => {},
        }
    } else {
        assert(Seq::<Seq<char>>::empty().to_set() =~= Set::<Seq<char>>::empty());
    }
}

/// No two files of a run get the same zip.
pub proof fn zip_names_are_distinct(total: nat, delete_originals: bool, events: Seq<EventView>)
    ensures
        zips(total, delete_originals, events).no_duplicates(),
{
    lemma_zips(total, delete_originals, events);
}

/// A file is zipped only under a name that was just found not to exist, so no zip
/// is overwritten.
pub proof fn existing_zips_are_kept(s: ArchiveView, event: EventView)
    ensures
        next(s, event).action matches ActionView::Zip { name } ==> {
            &&& s.phase == ArchivePhase::Probing
            &&& event == EventView::Exists(false)
            &&& name == s.name
        },
        next(s, event).action matches ActionView::Probe { name } ==> next(s, event).state.name
            == name && next(s, event).state.phase == ArchivePhase::Probing,
{
}

/// An original is deleted only where that was asked for, and only behind its zip.
pub proof fn only_zipped_originals_are_deleted(s: ArchiveView, event: EventView)
    ensures
        next(s, event).action == ActionView::Delete <==> {
            &&& s.phase == ArchivePhase::Zipping
            &&& event == EventView::Zipped(true)
            &&& s.delete_originals
        },
        next(s, event).state.delete_originals == s.delete_originals,
{
}

proof fn lemma_count(total: nat, delete_originals: bool, events: Seq<EventView>)
    ensures
        ({
            let last = run(total, delete_originals, events);
            let s = last.state;
            let zipped = answered(
                total,
                delete_originals,
                events,
                ArchivePhase::Zipping,
                EventView::Zipped(true),
            );
            let deleted = answered(
                total,
                delete_originals,
                events,
                ArchivePhase::Deleting,
                EventView::Deleted(true),
            );
            &&& s.total == total
            &&& s.delete_originals == delete_originals
            &&& s.index <= total
            &&& s.phase != ArchivePhase::Over ==> s.index < total
            &&& delete_originals ==> deleted == s.index
            &&& !delete_originals ==> deleted == 0 && s.phase != ArchivePhase::Deleting
            &&& s.phase != ArchivePhase::Over ==> zipped == s.index + (if s.phase
                == ArchivePhase::Deleting {
                1int
            } else {
                0
            })
            &&& last.action matches ActionView::Done { count } ==> {
                &&& s.phase == ArchivePhase::Over
                &&& s.index == total == zipped
                &&& count == total as u32
            }
        }),
    decreases events.len(),
{
    if events.len() > 0 {
        lemma_count(total, delete_originals, events.drop_last());
    }
}

/// An archive that ends well has zipped every file, counts them all, and has deleted
/// every original where that was asked for, and none where it was not.
pub proof fn every_file_is_archived(total: nat, delete_originals: bool, events: Seq<EventView>)
    ensures
        run(total, delete_originals, events).action matches ActionView::Done { count } ==> {
            &&& count == total as u32
            &&& answered(
                total,
                delete_originals,
                events,
                ArchivePhase::Zipping,
                EventView::Zipped(true),
            ) == total
            &&& answered(
                total,
                delete_originals,
                events,
                ArchivePhase::Deleting,
                EventView::Deleted(true),
            ) == (if delete_originals {
                total
            } else {
                0
            })
        },
{
    lemma_count(total, delete_originals, events);
}

/// The files that were turned to, in order.
pub open spec fn turned_to(total: nat, delete_originals: bool, events: Seq<EventView>) -> Seq<nat>
    decreases events.len(),
{
    let before = if events.len() == 0 {
        Seq::empty()
    } else {
        turned_to(total, delete_originals, events.drop_last())
    };
    match run(total, delete_originals, events).action {
        ActionView::Name { index } => before.push(index),
        _ => before,
    }
}

proof fn lemma_turned_to(total: nat, delete_originals: bool, events: Seq<EventView>)
    ensures
        ({
            let s = run(total, delete_originals, events).state;
            let files = turned_to(total, delete_originals, events);
            &&& s.total == total
            &&& s.index <= total
            &&& files.len() <= total
            &&& s.phase != ArchivePhase::Over ==> files.len() == s.index + 1 && s.index < total
            &&& run(total, delete_originals, events).action is Done ==> files.len() == total
                && s.phase == ArchivePhase::Over
            &&& forall|i: int| 0 <= i < files.len() ==> #[trigger] files[i] == i
        }),
    decreases events.len(),
{
    if events.len() > 0 {
        lemma_turned_to(total, delete_originals, events.drop_last());
    }
}

/// The files are turned to one behind the other: the first, the second and so on, each
/// once. An archive that ends well has turned to all of them.
pub proof fn files_are_taken_in_turn(total: nat, delete_originals: bool, events: Seq<EventView>)
    ensures
        ({
            let files = turned_to(total, delete_originals, events);
            &&& files.len() <= total
            &&& forall|i: int| 0 <= i < files.len() ==> #[trigger] files[i] == i
            &&& run(total, delete_originals, events).action is Done ==> files.len() == total
        }),
{
    lemma_turned_to(total, delete_originals, events);
}

/// How many files have been zipped, and deleted where that is asked for.
pub open spec fn files_done(total: nat, delete_originals: bool, events: Seq<EventView>) -> nat {
    if delete_originals {
        answered(
            total,
            delete_originals,
            events,
            ArchivePhase::Deleting,
            EventView::Deleted(true),
        )
    } else {
        answered(
            total,
            delete_originals,
            events,
            ArchivePhase::Zipping,
            EventView::Zipped(true),
        )
    }
}

proof fn lemma_files_done(total: nat, delete_originals: bool, events: Seq<EventView>)
    ensures
        ({
            let s = run(total, delete_originals, events).state;
            let done = files_done(total, delete_originals, events);
            &&& s.delete_originals == delete_originals
            &&& s.index == done
            &&& !delete_originals ==> s.phase != ArchivePhase::Deleting
        }),
    decreases events.len(),
{
    if events.len() > 0 {
        lemma_files_done(total, delete_originals, events.drop_last());
    }
}

/// A file is turned to once all files before it are done with, and the count at the end
/// is that of the files that are.
pub proof fn files_are_counted(total: nat, delete_originals: bool, events: Seq<EventView>)
    ensures
        ({
            let last = run(total, delete_originals, events);
            let done = files_done(total, delete_originals, events);
            &&& last.action matches ActionView::Name { index } ==> index == done
            &&& last.action matches ActionView::Done { count } ==> count == done as u32 && done
                == total
        }),
{
    lemma_files_done(total, delete_originals, events);
    lemma_turned_to(total, delete_originals, events);
    if events.len() > 0 {
        lemma_files_done(total, delete_originals, events.drop_last());
        lemma_turned_to(total, delete_originals, events.drop_last());
    }
}

/// A file from its name to its zip: the progress is told, the first name for the zip that
/// the run has not used is looked up, and the file is zipped under it where it is not on
/// disk. Where it is, the next such name is tried.
pub proof fn files_are_zipped_under_new_names(s: ArchiveView, stem: Option<Seq<char>>)
    requires
        s.phase == ArchivePhase::Naming,
        s.used.finite(),
    ensures
        ({
            let base = match stem {
                Some(text) => text,
                None => "log"@,
            };
            let probing = next(s, EventView::Named(stem));
            let zipping = next(probing.state, EventView::Exists(false));
            let again = next(probing.state, EventView::Exists(true));
            let first = probing.state.attempt;
            let second = again.state.attempt;
            &&& probing.progress == Some((s.index * 100 / s.total) as u32)
            &&& names::first_free(s.used, base, 1, first, ".zip"@)
            &&& probing.action == (ActionView::Probe { name: names::numbered(base, first, ".zip"@) })
            &&& zipping.progress is None
            &&& zipping.action == (ActionView::Zip { name: names::numbered(base, first, ".zip"@) })
            &&& zipping.state.used == s.used.insert(names::numbered(base, first, ".zip"@))
            &&& zipping.state.phase == ArchivePhase::Zipping
            &&& zipping.state.index == s.index
            &&& again.progress is None
            &&& again.state.used == s.used
            &&& again.state.stem == base
            &&& names::first_free(s.used, base, first + 1, second, ".zip"@)
            &&& again.action == (ActionView::Probe { name: names::numbered(base, second, ".zip"@) })
        }),
{
    let base = name_or(stem, "log"@);
    names::a_zip_name_is_free(s.used, base, 1);
    names::a_zip_name_is_free(s.used, base, names::zip_attempt(s.used, base, 1) + 1);
}

/// A name that is on disk leads to the next one that the run has not used, for the same
/// file.
pub proof fn names_on_disk_are_passed_over(s: ArchiveView)
    requires
        s.phase == ArchivePhase::Probing,
        s.used.finite(),
    ensures
        ({
            let again = next(s, EventView::Exists(true));
            &&& again.progress is None
            &&& names::first_free(s.used, s.stem, s.attempt + 1, again.state.attempt, ".zip"@)
            &&& again.action == (ActionView::Probe {
                name: names::numbered(s.stem, again.state.attempt, ".zip"@),
            })
            &&& again.state.name == names::numbered(s.stem, again.state.attempt, ".zip"@)
            &&& again.state.phase == ArchivePhase::Probing
            &&& again.state.stem == s.stem
            &&& again.state.used == s.used
            &&& again.state.index == s.index
            &&& again.state.total == s.total
            &&& next(s, EventView::Exists(false)).action == (ActionView::Zip { name: s.name })
            &&& next(s, EventView::Exists(false)).state.used == s.used.insert(s.name)
        }),
{
    names::a_zip_name_is_free(s.used, s.stem, s.attempt + 1);
}

/// Behind its zip, an original is deleted where that is asked for; then comes the file
/// behind it, or the end with the count of all.
pub proof fn zipped_files_are_left_behind(s: ArchiveView)
    requires
        s.phase == ArchivePhase::Zipping,
    ensures
        ({
            let zipped = next(s, EventView::Zipped(true));
            let done = if s.delete_originals {
                next(zipped.state, EventView::Deleted(true))
            } else {
                zipped
            };
            &&& s.delete_originals ==> zipped.action == ActionView::Delete && zipped.progress is None
            &&& done.progress is None
            &&& done.state.used == s.used
            &&& done.state.total == s.total
            &&& done.state.delete_originals == s.delete_originals
            &&& done.state.index == s.index + 1
            &&& done.action == (if s.index + 1 < s.total {
                ActionView::Name { index: s.index + 1 }
            } else {
                ActionView::Done { count: (s.index + 1) as u32 }
            })
        }),
{
}

/// A zip or a deletion that fails ends the archive.
pub proof fn failures_end_the_archive(s: ArchiveView)
    ensures
        s.phase == ArchivePhase::Zipping ==> next(s, EventView::Zipped(false)).action
            == ActionView::Fail,
        s.phase == ArchivePhase::Deleting ==> next(s, EventView::Deleted(false)).action
            == ActionView::Fail,
{
}

/// The progress before a file is its share of all files in whole percents.
pub proof fn progress_is_the_share_of_files(index: nat, total: nat)
    requires
        index < total <= u32::MAX,
    ensures
        percent_before(index, total) < 100,
        percent_before(index, total) * total <= index * 100 < (percent_before(index, total) + 1)
            * total,
{
    let q = index * 100 / total;
    assert(q * total <= index * 100 < (q + 1) * total && q < 100) by (nonlinear_arith)
        requires
            q == index * 100 / total,
            0 < total,
            index < total,
    ;
}

/// The folder for the zips: the one that was asked for, whatever it is; else the folder
/// `archive` inside that of the logs, behind a separator.
pub proof fn archives_stay_with_the_logs(folder: Seq<char>, logs: Seq<char>)
    ensures
        folder_of(Some(folder), logs) == folder,
        folder_of(None, Seq::empty()) == "archive"@,
        logs.len() > 0 && logs.last() != '/' && logs.last() != '\\' ==> folder_of(None, logs)
            == logs + "/"@ + "archive"@,
        logs.len() > 0 && (logs.last() == '/' || logs.last() == '\\') ==> folder_of(None, logs)
            == logs + "archive"@,
{
    assert(Seq::<char>::empty() + "archive"@ =~= "archive"@);
}

/// A name that can be read is used as it is, and only one that cannot falls back.
pub proof fn readable_names_are_used(name: Seq<char>, fallback: Seq<char>)
    ensures
        name_or(Some(name), fallback) == name,
        name_or(None, fallback) == fallback,
{
}

/// An answer that the archive does not wait for ends it, and leaves everything as it is.
pub proof fn other_answers_end_the_archive(s: ArchiveView, event: EventView)
    requires
        match s.phase {
            ArchivePhase::Naming => !(event is Named),
            ArchivePhase::Probing => !(event is Exists),
            ArchivePhase::Zipping => event != EventView::Zipped(true),
            ArchivePhase::Deleting => event != EventView::Deleted(true),
            ArchivePhase::Over => true,
        },
    ensures
        next(s, event) == (StepView {
            state: ArchiveView { phase: ArchivePhase::Over, ..s },
            progress: None,
            action: ActionView::Fail,
        }),
{
}

/// An entry of a zip has the name of its file.
pub proof fn entries_keep_their_names(name: Option<&str>, entry: String)
    requires
        call_ensures(entry_name, (name,), entry),
    ensures
        name matches Some(given) ==> entry@ == given@,
        name is None ==> entry@ == "log.txt"@,
{
}

/// Each file is told by its name.
pub proof fn files_are_told_by_name(name: Option<&str>, message: String)
    requires
        call_ensures(archive_message, (name,), message),
    ensures
        name matches Some(given) ==> message@ == "Archiving "@ + given@ + "…"@,
        name is None ==> message@ == "Archiving "@ + "log"@ + "…"@,
{
}

} // verus!
