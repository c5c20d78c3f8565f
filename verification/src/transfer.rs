//! Moving a file or a tree from one place to another: by renaming where
//! that works, and else by copying every object across before the source is
//! removed. The decisions are made here, one step at a time; the caller
//! touches the file system and reports how each step went.

use crate::path::{
    lemma_rebased_apart, lemma_rebased_back, lemma_rebased_keeps_below, lemma_rebased_mirrors,
    names, rebase, rebased, starts_with,
};
use vstd::prelude::*;

verus! {

/// Regular files larger than this many bytes are offered for permanent
/// deletion before they are copied, unless the caller sets another limit.
pub const BIG_FILE_THRESHOLD: u64 = 500_000_000;

/// What is written in place of a special file that could not be copied and
/// was given up.
pub const MARKER: &'static str =
    "This is a marker for a file that was permanently deleted.  Requiescat in pace.";

/// The kinds of object that a tree holds.
#[derive(Debug, Clone, Copy, PartialEq, Eq, Structural)]
pub enum FileKind {
    /// A regular file.
    File,
    /// A directory.
    Directory,
    /// A symbolic link.
    Symlink,
    /// A named pipe.
    Fifo,
    /// Anything else: a device node, a socket.
    Special,
}

/// One object met on a walk through a tree.
#[derive(Debug, PartialEq, Eq)]
pub struct TreeEntry {
    /// The object's path: the root of the walk, or a path below it.
    pub path: String,
    /// The object's kind, the object itself being looked at and not what a
    /// link points to.
    pub kind: FileKind,
    /// Its size in bytes.
    pub size: u64,
    /// Its permission bits.
    pub mode: u32,
}

/// A tree entry as text and numbers.
pub struct TreeEntryView {
    pub path: Seq<char>,
    pub kind: FileKind,
    pub size: u64,
    pub mode: u32,
}

impl View for TreeEntry {
    type V = TreeEntryView;

    open spec fn view(&self) -> TreeEntryView {
        TreeEntryView { path: self.path@, kind: self.kind, size: self.size, mode: self.mode }
    }
}

/// One object with the place it is to be put at.
#[derive(Debug, PartialEq, Eq)]
pub struct Placement {
    /// Where the object is.
    pub from: String,
    /// Where it goes.
    pub to: String,
    /// Its kind.
    pub kind: FileKind,
    /// Its size in bytes.
    pub size: u64,
    /// Its permission bits.
    pub mode: u32,
}

/// A placement as text and numbers.
pub struct PlacementView {
    pub from: Seq<char>,
    pub to: Seq<char>,
    pub kind: FileKind,
    pub size: u64,
    pub mode: u32,
}

impl View for Placement {
    type V = PlacementView;

    open spec fn view(&self) -> PlacementView {
        PlacementView {
            from: self.from@,
            to: self.to@,
            kind: self.kind,
            size: self.size,
            mode: self.mode,
        }
    }
}

impl Clone for Placement {
    fn clone(&self) -> (copy: Placement)
        ensures
            copy@ == self@,
    {
        Placement {
            from: self.from.clone(),
            to: self.to.clone(),
            kind: self.kind,
            size: self.size,
            mode: self.mode,
        }
    }
}

/// The entries of a list as text and numbers.
pub open spec fn walked(entries: Seq<TreeEntry>) -> Seq<TreeEntryView> {
    entries.map_values(|e: TreeEntry| e@)
}

/// The placements of a list as text and numbers.
pub open spec fn placements(plan: Seq<Placement>) -> Seq<PlacementView> {
    plan.map_values(|p: Placement| p@)
}

/// Whether every entry is `source` or lies below it.
pub open spec fn all_below(entries: Seq<TreeEntryView>, source: Seq<char>) -> bool {
    forall|i: int| 0 <= i < entries.len() ==> starts_with((#[trigger] entries[i]).path, source)
}

/// The placement of one entry when `source` goes to `dest`.
pub open spec fn placed(e: TreeEntryView, source: Seq<char>, dest: Seq<char>) -> PlacementView {
    PlacementView {
        from: e.path,
        to: rebased(e.path, source, dest).unwrap(),
        kind: e.kind,
        size: e.size,
        mode: e.mode,
    }
}

/// The plan for copying the tree at `source` to `dest`: one placement for
/// each entry, in the order of the walk, each at the same place below `dest`
/// that it has below `source`. There is none where an entry is neither
/// `source` nor below it.
pub open spec fn planned(entries: Seq<TreeEntryView>, source: Seq<char>, dest: Seq<char>) -> Option<
    Seq<PlacementView>,
> {
    if all_below(entries, source) {
        Some(Seq::new(entries.len(), |i: int| placed(entries[i], source, dest)))
    } else {
        None
    }
}

/// Lay out the copy of a walked tree: every entry keeps its kind, size and
/// mode and goes to the path below `dest` that mirrors its path below
/// `source`.
pub fn plan_tree(entries: &Vec<TreeEntry>, source: &str, dest: &str) -> (plan: Option<
    Vec<Placement>,
>)
    ensures
        plan.is_some() == planned(walked(entries@), source@, dest@).is_some(),
        plan matches Some(p) ==> planned(walked(entries@), source@, dest@) == Some(placements(p@)),
{
    let mut plan: Vec<Placement> = Vec::new();
    let mut i: usize = 0;
    let ghost all = walked(entries@);
    while i < entries.len()
        invariant
            i <= entries.len(),
            all == walked(entries@),
            plan.len() == i,
            forall|j: int| 0 <= j < i ==> starts_with((#[trigger] all[j]).path, source@),
            forall|j: int|
                0 <= j < i ==> (#[trigger] placements(plan@)[j]) == placed(all[j], source@, dest@),
        decreases entries.len() - i,
    {
        let e = &entries[i];
        match rebase(e.path.as_str(), source, dest) {
            None => {
                assert(!starts_with(all[i as int].path, source@));
                return None;
            },
            Some(to) => {
                let p = Placement {
                    from: e.path.clone(),
                    to,
                    kind: e.kind,
                    size: e.size,
                    mode: e.mode,
                };
                proof {
                    let grown = plan@.push(p);
                    assert forall|j: int| 0 <= j < i + 1 implies (#[trigger] placements(grown)[j])
                        == placed(all[j], source@, dest@) by {
                        if j < i {
                            assert(placements(grown)[j] == placements(plan@)[j]);
                        }
                    }
                }
                plan.push(p);
            },
        }
        i += 1;
    }
    Some(plan)
}

/// Why a transfer did not move its object.
#[derive(Debug, Clone, Copy, PartialEq, Eq, Structural)]
pub enum TransferError {
    /// The source could not be looked at.
    NotFound,
    /// An object of the tree could not be created or copied, or the source
    /// could not be removed once the copy stood.
    PartialTransfer,
    /// A special file could not be copied and was not given up.
    NonTransferableType,
}

/// How a transfer ended.
#[derive(Debug, Clone, Copy, PartialEq, Eq, Structural)]
pub enum Outcome {
    /// The object stands at the destination and no longer at the source.
    Moved,
    /// Nothing was moved, and what had been put at the destination was
    /// removed again.
    Failed(TransferError),
    /// Nothing was moved, and what had been put at the destination could
    /// not be removed: a partial copy may stand there.
    Unsafe(TransferError),
}

/// What the caller is asked to confirm.
#[derive(Debug, Clone, Copy, PartialEq, Eq, Structural)]
pub enum Question {
    /// Delete this large file for good instead of copying it?
    DiscardLarge,
    /// Delete for good this special file, which could not be copied?
    DiscardSpecial,
}

/// One thing for the caller to do to the file system, or to ask the user.
#[derive(Debug, PartialEq, Eq)]
pub enum Action {
    /// Rename `from` to `to` in one step.
    Rename { from: String, to: String },
    /// Create the directories above `of` that are missing.
    CreateParents { of: String },
    /// Look at `root` without following a link: answer with its entry alone
    /// where it is no directory, and else with the entries of a walk through
    /// it, each directory before what it holds, `root` itself first.
    Survey { root: String },
    /// Create the directory `path` with the permission bits `mode`.
    CreateDir { path: String, mode: u32 },
    /// Copy the bytes of the file `from` to `to`.
    CopyFile { from: String, to: String },
    /// Make `to` a symbolic link to what the link `from` points to.
    Link { from: String, to: String },
    /// Make a named pipe at `path` with the permission bits `mode`.
    MakeFifo { path: String, mode: u32 },
    /// Ask the user about the object at `path`, which holds `size` bytes.
    Confirm { question: Question, path: String, size: u64 },
    /// Write a file at `path` that holds the marker text.
    WriteMarker { path: String },
    /// Remove the source: the tree at `path` where `tree` is set, the one
    /// object at `path` where it is not.
    RemoveSource { path: String, tree: bool },
    /// Remove whatever stands at `path`, a single object or a tree. That
    /// nothing stands there counts as done.
    RollBack { path: String },
    /// Nothing more: the transfer has ended.
    Finish { outcome: Outcome },
}

/// An action as text and numbers.
pub enum ActionView {
    Rename { from: Seq<char>, to: Seq<char> },
    CreateParents { of: Seq<char> },
    Survey { root: Seq<char> },
    CreateDir { path: Seq<char>, mode: u32 },
    CopyFile { from: Seq<char>, to: Seq<char> },
    Link { from: Seq<char>, to: Seq<char> },
    MakeFifo { path: Seq<char>, mode: u32 },
    Confirm { question: Question, path: Seq<char>, size: u64 },
    WriteMarker { path: Seq<char> },
    RemoveSource { path: Seq<char>, tree: bool },
    RollBack { path: Seq<char> },
    Finish { outcome: Outcome },
}

impl View for Action {
    type V = ActionView;

    open spec fn view(&self) -> ActionView {
        match *self {
            Action::Rename { from, to } => ActionView::Rename { from: from@, to: to@ },
            Action::CreateParents { of } => ActionView::CreateParents { of: of@ },
            Action::Survey { root } => ActionView::Survey { root: root@ },
            Action::CreateDir { path, mode } => ActionView::CreateDir { path: path@, mode },
            Action::CopyFile { from, to } => ActionView::CopyFile { from: from@, to: to@ },
            Action::Link { from, to } => ActionView::Link { from: from@, to: to@ },
            Action::MakeFifo { path, mode } => ActionView::MakeFifo { path: path@, mode },
            Action::Confirm { question, path, size } => ActionView::Confirm {
                question,
                path: path@,
                size,
            },
            Action::WriteMarker { path } => ActionView::WriteMarker { path: path@ },
            Action::RemoveSource { path, tree } => ActionView::RemoveSource { path: path@, tree },
            Action::RollBack { path } => ActionView::RollBack { path: path@ },
            Action::Finish { outcome } => ActionView::Finish { outcome },
        }
    }
}

/// How the last action went.
#[derive(Debug, PartialEq, Eq)]
pub enum Event {
    /// It was done.
    Done,
    /// It could not be done.
    Failed,
    /// The survey found these entries.
    Listed(Vec<TreeEntry>),
    /// The user said yes (`true`) or no.
    Answer(bool),
}

/// An event as text and numbers.
pub enum EventView {
    Done,
    Failed,
    Listed(Seq<TreeEntryView>),
    Answer(bool),
}

impl View for Event {
    type V = EventView;

    open spec fn view(&self) -> EventView {
        match *self {
            Event::Done => EventView::Done,
            Event::Failed => EventView::Failed,
            Event::Listed(entries) => EventView::Listed(walked(entries@)),
            Event::Answer(yes) => EventView::Answer(yes),
        }
    }
}

/// Where a transfer stands: which action is out, waiting for its event.
#[derive(Debug, Clone, Copy, PartialEq, Eq, Structural)]
pub enum Phase {
    /// The rename is out.
    Renaming,
    /// The rename failed; the directories above the destination are being
    /// made.
    MakingParents,
    /// The source is being looked at.
    Surveying,
    /// The placement `cursor` of the plan is being put at its place.
    Placing { cursor: usize },
    /// The user is asked whether the large file of placement `cursor` may be
    /// deleted for good.
    AskingLarge { cursor: usize },
    /// The special file of placement `cursor` could not be copied; the user
    /// is asked whether it may be deleted for good.
    AskingSpecial { cursor: usize },
    /// A marker is being written in place of the special file of placement
    /// `cursor`.
    Marking { cursor: usize },
    /// Every placement is dealt with; the source is being removed.
    Removing,
    /// Something failed; what stands at the destination is being removed.
    RollingBack { cause: TransferError },
    /// The transfer has ended.
    Finished { outcome: Outcome },
}

/// One transfer under way.
#[derive(Debug)]
pub struct Transfer {
    source: String,
    dest: String,
    threshold: u64,
    plan: Vec<Placement>,
    phase: Phase,
}

/// A transfer as text and numbers.
pub struct TransferView {
    pub source: Seq<char>,
    pub dest: Seq<char>,
    pub threshold: u64,
    pub plan: Seq<PlacementView>,
    pub phase: Phase,
}

impl View for Transfer {
    type V = TransferView;

    closed spec fn view(&self) -> TransferView {
        TransferView {
            source: self.source@,
            dest: self.dest@,
            threshold: self.threshold,
            plan: placements(self.plan@),
            phase: self.phase,
        }
    }
}

/// The first thing to do with one object: a regular file above the limit is
/// asked about before it is copied, everything else is put at its place.
pub open spec fn approach(p: PlacementView, cursor: usize, threshold: u64) -> Phase {
    if p.kind == FileKind::File && p.size > threshold {
        Phase::AskingLarge { cursor }
    } else {
        Phase::Placing { cursor }
    }
}

/// The action that puts one object at its place, by its kind: a directory
/// is created with its mode, a link is made anew, a pipe is made anew with
/// its mode, and a regular or special file is copied.
pub open spec fn placing(p: PlacementView) -> ActionView {
    match p.kind {
        FileKind::Directory => ActionView::CreateDir { path: p.to, mode: p.mode },
        FileKind::Symlink => ActionView::Link { from: p.from, to: p.to },
        FileKind::Fifo => ActionView::MakeFifo { path: p.to, mode: p.mode },
        FileKind::File => ActionView::CopyFile { from: p.from, to: p.to },
        FileKind::Special => ActionView::CopyFile { from: p.from, to: p.to },
    }
}

impl TransferView {
    /// The state in which a transfer of `source` to `dest` begins.
    pub open spec fn initial(source: Seq<char>, dest: Seq<char>, threshold: u64) -> TransferView {
        TransferView { source, dest, threshold, plan: Seq::empty(), phase: Phase::Renaming }
    }

    /// What begins when the placements before `cursor` are dealt with: the
    /// next placement, or the removal of the source after the last.
    pub open spec fn arrive(self, cursor: int) -> Phase {
        if 0 <= cursor < self.plan.len() {
            approach(self.plan[cursor], cursor as usize, self.threshold)
        } else {
            Phase::Removing
        }
    }

    /// The phase, with a cursor behind the plan's end read as the removal of
    /// the source.
    pub open spec fn current(self) -> Phase {
        match self.phase {
            Phase::Placing { cursor } | Phase::AskingLarge { cursor } | Phase::AskingSpecial {
                cursor,
            } | Phase::Marking { cursor } => if cursor < self.plan.len() {
                self.phase
            } else {
                Phase::Removing
            },
            _ => self.phase,
        }
    }

    /// The action that is out.
    pub open spec fn pending(self) -> ActionView {
        match self.current() {
            Phase::Renaming => ActionView::Rename { from: self.source, to: self.dest },
            Phase::MakingParents => ActionView::CreateParents { of: self.dest },
            Phase::Surveying => ActionView::Survey { root: self.source },
            Phase::Placing { cursor } => placing(self.plan[cursor as int]),
            Phase::AskingLarge { cursor } => ActionView::Confirm {
                question: Question::DiscardLarge,
                path: self.plan[cursor as int].from,
                size: self.plan[cursor as int].size,
            },
            Phase::AskingSpecial { cursor } => ActionView::Confirm {
                question: Question::DiscardSpecial,
                path: self.plan[cursor as int].from,
                size: self.plan[cursor as int].size,
            },
            Phase::Marking { cursor } => ActionView::WriteMarker {
                path: self.plan[cursor as int].to,
            },
            Phase::Removing => ActionView::RemoveSource {
                path: self.source,
                tree: self.plan.len() > 0 && self.plan[0].kind == FileKind::Directory,
            },
            Phase::RollingBack { cause } => ActionView::RollBack { path: self.dest },
            Phase::Finished { outcome } => ActionView::Finish { outcome },
        }
    }

    /// This state in another phase.
    pub open spec fn at(self, phase: Phase) -> TransferView {
        TransferView { phase, ..self }
    }

    /// The state after the survey has answered with `entries`: the plan is
    /// laid out and its first placement begins. Where the survey found
    /// nothing, or something that is not below the source, the transfer
    /// fails.
    pub open spec fn listed(self, entries: Seq<TreeEntryView>) -> TransferView {
        match planned(entries, self.source, self.dest) {
            Some(plan) => if plan.len() > 0 {
                (TransferView { plan, ..self }).at(
                    approach(plan[0], 0, self.threshold),
                )
            } else {
                self.at(Phase::RollingBack { cause: TransferError::NotFound })
            },
            None => self.at(Phase::RollingBack { cause: TransferError::PartialTransfer }),
        }
    }

    /// The state after `event` has answered the action that was out. An
    /// event that is no answer to that action changes nothing.
    pub open spec fn next(self, event: EventView) -> TransferView {
        let fail = self.at(Phase::RollingBack { cause: TransferError::PartialTransfer });
        match self.current() {
            Phase::Renaming => match event {
                EventView::Done => self.at(Phase::Finished { outcome: Outcome::Moved }),
                EventView::Failed => self.at(Phase::MakingParents),
                _ => self,
            },
            Phase::MakingParents => match event {
                EventView::Done => self.at(Phase::Surveying),
                EventView::Failed => fail,
                _ => self,
            },
            Phase::Surveying => match event {
                EventView::Listed(entries) => self.listed(entries),
                EventView::Failed => self.at(
                    Phase::RollingBack { cause: TransferError::NotFound },
                ),
                _ => self,
            },
            Phase::Placing { cursor } => match event {
                EventView::Done => self.at(self.arrive(cursor + 1)),
                EventView::Failed => if self.plan[cursor as int].kind == FileKind::Special {
                    self.at(Phase::AskingSpecial { cursor })
                } else {
                    fail
                },
                _ => self,
            },
            Phase::AskingLarge { cursor } => match event {
                EventView::Answer(yes) => if yes {
                    self.at(self.arrive(cursor + 1))
                } else {
                    self.at(Phase::Placing { cursor })
                },
                _ => self,
            },
            Phase::AskingSpecial { cursor } => match event {
                EventView::Answer(yes) => if yes {
                    self.at(Phase::Marking { cursor })
                } else {
                    self.at(Phase::RollingBack { cause: TransferError::NonTransferableType })
                },
                _ => self,
            },
            Phase::Marking { cursor } => match event {
                EventView::Done => self.at(self.arrive(cursor + 1)),
                EventView::Failed => fail,
                _ => self,
            },
            Phase::Removing => match event {
                EventView::Done => self.at(Phase::Finished { outcome: Outcome::Moved }),
                EventView::Failed => fail,
                _ => self,
            },
            Phase::RollingBack { cause } => match event {
                EventView::Done => self.at(Phase::Finished { outcome: Outcome::Failed(cause) }),
                EventView::Failed => self.at(Phase::Finished { outcome: Outcome::Unsafe(cause) }),
                _ => self,
            },
            Phase::Finished { outcome } => self,
        }
    }
}

/// The first thing to do with one object of the tree, and the action that
/// puts it at its place.
pub fn copy_file(p: &Placement, cursor: usize, threshold: u64) -> (begun: (Phase, Action))
    ensures
        begun.0 == approach(p@, cursor, threshold),
        begun.1@ == placing(p@),
{
    let phase = match p.kind {
        FileKind::File => if p.size > threshold {
            Phase::AskingLarge { cursor }
        } else {
            Phase::Placing { cursor }
        },
        _ => Phase::Placing { cursor },
    };
    let action = match p.kind {
        FileKind::Directory => Action::CreateDir { path: p.to.clone(), mode: p.mode },
        FileKind::Symlink => Action::Link { from: p.from.clone(), to: p.to.clone() },
        FileKind::Fifo => Action::MakeFifo { path: p.to.clone(), mode: p.mode },
        FileKind::File => Action::CopyFile { from: p.from.clone(), to: p.to.clone() },
        FileKind::Special => Action::CopyFile { from: p.from.clone(), to: p.to.clone() },
    };
    (phase, action)
}

impl Transfer {
    /// Begin to move `source` to `dest`. Regular files of more than
    /// `threshold` bytes are asked about before they are copied. The first
    /// action is the rename.
    pub fn begin(source: &str, dest: &str, threshold: u64) -> (begun: (Transfer, Action))
        ensures
            begun.0@ == TransferView::initial(source@, dest@, threshold),
            begun.1@ == begun.0@.pending(),
    {
        let t = Transfer {
            source: source.to_owned(),
            dest: dest.to_owned(),
            threshold,
            plan: Vec::new(),
            phase: Phase::Renaming,
        };
        let a = Action::Rename { from: source.to_owned(), to: dest.to_owned() };
        assert(placements(t.plan@) == Seq::<PlacementView>::empty());
        (t, a)
    }

    /// The phase, with a cursor behind the plan's end read as the removal of
    /// the source.
    pub fn current(&self) -> (phase: Phase)
        ensures
            phase == self@.current(),
    {
        match self.phase {
            Phase::Placing { cursor } | Phase::AskingLarge { cursor } | Phase::AskingSpecial {
                cursor,
            } | Phase::Marking { cursor } => if cursor < self.plan.len() {
                self.phase
            } else {
                Phase::Removing
            },
            _ => self.phase,
        }
    }

    /// How the transfer ended, once it has.
    pub fn outcome(&self) -> (outcome: Option<Outcome>)
        ensures
            outcome == match self@.phase {
                Phase::Finished { outcome } => Some(outcome),
                _ => None,
            },
    {
        match self.phase {
            Phase::Finished { outcome } => Some(outcome),
            _ => None,
        }
    }

    fn arrive(&self, cursor: usize) -> (phase: Phase)
        ensures
            phase == self@.arrive(cursor as int),
    {
        if cursor < self.plan.len() {
            copy_file(&self.plan[cursor], cursor, self.threshold).0
        } else {
            Phase::Removing
        }
    }

    /// The action that is out.
    pub fn pending(&self) -> (action: Action)
        ensures
            action@ == self@.pending(),
    {
        match self.current() {
            Phase::Renaming => Action::Rename { from: self.source.clone(), to: self.dest.clone() },
            Phase::MakingParents => Action::CreateParents { of: self.dest.clone() },
            Phase::Surveying => Action::Survey { root: self.source.clone() },
            Phase::Placing { cursor } => copy_file(&self.plan[cursor], cursor, self.threshold).1,
            Phase::AskingLarge { cursor } => Action::Confirm {
                question: Question::DiscardLarge,
                path: self.plan[cursor].from.clone(),
                size: self.plan[cursor].size,
            },
            Phase::AskingSpecial { cursor } => Action::Confirm {
                question: Question::DiscardSpecial,
                path: self.plan[cursor].from.clone(),
                size: self.plan[cursor].size,
            },
            Phase::Marking { cursor } => Action::WriteMarker { path: self.plan[cursor].to.clone() },
            Phase::Removing => {
                let tree = self.plan.len() > 0 && match self.plan[0].kind {
                    FileKind::Directory => true,
                    _ => false,
                };
                Action::RemoveSource { path: self.source.clone(), tree }
            },
            Phase::RollingBack { cause } => Action::RollBack { path: self.dest.clone() },
            Phase::Finished { outcome } => Action::Finish { outcome },
        }
    }

    /// Take the answer to the action that was out, and say what to do next.
    /// An event that is no answer to that action changes nothing, and the
    /// same action is asked for again.
    pub fn step(&mut self, event: Event) -> (action: Action)
        ensures
            final(self)@ == old(self)@.next(event@),
            action@ == final(self)@.pending(),
    {
        let fail = Phase::RollingBack { cause: TransferError::PartialTransfer };
        assert(self@.plan.len() == self.plan.len());
        match self.current() {
            Phase::Renaming => match event {
                Event::Done => {
                    self.phase = Phase::Finished { outcome: Outcome::Moved };
                },
                Event::Failed => {
                    self.phase = Phase::MakingParents;
                },
                _ => {},
            },
            Phase::MakingParents => match event {
                Event::Done => {
                    self.phase = Phase::Surveying;
                },
                Event::Failed => {
                    self.phase = fail;
                },
                _ => {},
            },
            Phase::Surveying => match event {
                Event::Listed(entries) => {
                    match plan_tree(&entries, self.source.as_str(), self.dest.as_str()) {
                        Some(plan) => {
                            if plan.len() > 0 {
                                self.plan = plan;
                                self.phase = self.arrive(0);
                            } else {
                                self.phase = Phase::RollingBack { cause: TransferError::NotFound };
                            }
                        },
                        None => {
                            self.phase = fail;
                        },
                    }
                },
                Event::Failed => {
                    self.phase = Phase::RollingBack { cause: TransferError::NotFound };
                },
                _ => {},
            },
            Phase::Placing { cursor } => match event {
                Event::Done => {
                    self.phase = self.arrive(cursor + 1);
                },
                Event::Failed => {
                    self.phase = match self.plan[cursor].kind {
                        FileKind::Special => Phase::AskingSpecial { cursor },
                        _ => fail,
                    };
                },
                _ => {},
            },
            Phase::AskingLarge { cursor } => match event {
                Event::Answer(yes) => {
                    self.phase = if yes {
                        self.arrive(cursor + 1)
                    } else {
                        Phase::Placing { cursor }
                    };
                },
                _ => {},
            },
            Phase::AskingSpecial { cursor } => match event {
                Event::Answer(yes) => {
                    self.phase = if yes {
                        Phase::Marking { cursor }
                    } else {
                        Phase::RollingBack { cause: TransferError::NonTransferableType }
                    };
                },
                _ => {},
            },
            Phase::Marking { cursor } => match event {
                Event::Done => {
                    self.phase = self.arrive(cursor + 1);
                },
                Event::Failed => {
                    self.phase = fail;
                },
                _ => {},
            },
            Phase::Removing => match event {
                Event::Done => {
                    self.phase = Phase::Finished { outcome: Outcome::Moved };
                },
                Event::Failed => {
                    self.phase = fail;
                },
                _ => {},
            },
            Phase::RollingBack { cause } => match event {
                Event::Done => {
                    self.phase = Phase::Finished { outcome: Outcome::Failed(cause) };
                },
                Event::Failed => {
                    self.phase = Phase::Finished { outcome: Outcome::Unsafe(cause) };
                },
                _ => {},
            },
            Phase::Finished { outcome } => {},
        }
        self.pending()
    }
}

impl TransferView {
    /// The state after the events of `events`, one after the other.
    pub open spec fn run(self, events: Seq<EventView>) -> TransferView
        decreases events.len(),
    {
        if events.len() == 0 {
            self
        } else {
            self.run(events.drop_last()).next(events.last())
        }
    }

    /// Whether every placement of the plan goes to the destination or below
    /// it.
    pub open spec fn stays_below(self) -> bool {
        forall|i: int|
            0 <= i < self.plan.len() ==> starts_with((#[trigger] self.plan[i]).to, self.dest)
    }

    /// Whether the transfer has failed: it is rolling back, or has ended
    /// otherwise than by moving its object.
    pub open spec fn has_failed(self) -> bool {
        match self.phase {
            Phase::RollingBack { cause } => true,
            Phase::Finished { outcome } => outcome != Outcome::Moved,
            _ => false,
        }
    }
}

/// The path that an action writes at, for the actions that put something at
/// the destination.
pub open spec fn put_at(action: ActionView) -> Option<Seq<char>> {
    match action {
        ActionView::CreateDir { path, mode } => Some(path),
        ActionView::CopyFile { from, to } => Some(to),
        ActionView::Link { from, to } => Some(to),
        ActionView::MakeFifo { path, mode } => Some(path),
        ActionView::WriteMarker { path } => Some(path),
        _ => None,
    }
}

/// A walked tree is copied as it is: the plan has one placement for each
/// entry, in the order of the walk; each keeps its source, kind, size and
/// mode and goes below `dest` under the names it has below `source`; moved
/// back from there it has the names it had; entries with different names go
/// to different places; and what lies below an entry goes below the place of
/// that entry, so that a walk which meets each directory before what it
/// holds has each directory made before anything is put into it.
pub proof fn lemma_plan_mirrors(entries: Seq<TreeEntryView>, source: Seq<char>, dest: Seq<char>)
    requires
        all_below(entries, source),
    ensures
        planned(entries, source, dest) matches Some(plan) && plan.len() == entries.len() && (forall|
            i: int,
        |
            0 <= i < entries.len() ==> {
                &&& (#[trigger] plan[i]).from == entries[i].path
                &&& plan[i].kind == entries[i].kind
                &&& plan[i].size == entries[i].size
                &&& plan[i].mode == entries[i].mode
                &&& starts_with(plan[i].to, dest)
                &&& names(plan[i].to) == names(dest) + names(entries[i].path).skip(
                    names(source).len() as int,
                )
                &&& rebased(plan[i].to, dest, source) matches Some(back) && names(back) == names(
                    entries[i].path,
                )
            }) && (forall|i: int, j: int|
            0 <= i < entries.len() && 0 <= j < entries.len() && names(entries[i].path) != names(
                entries[j].path,
            ) ==> (#[trigger] plan[i]).to != (#[trigger] plan[j]).to) && (forall|i: int, j: int|
            0 <= i < entries.len() && 0 <= j < entries.len() && starts_with(
                entries[j].path,
                entries[i].path,
            ) ==> starts_with((#[trigger] plan[j]).to, (#[trigger] plan[i]).to)),
{
    let plan = planned(entries, source, dest).unwrap();
    assert forall|i: int, j: int|
        0 <= i < entries.len() && 0 <= j < entries.len() && starts_with(
            entries[j].path,
            entries[i].path,
        ) implies starts_with((#[trigger] plan[j]).to, (#[trigger] plan[i]).to) by {
        lemma_rebased_keeps_below(entries[j].path, entries[i].path, source, dest);
    }
    assert forall|i: int| 0 <= i < entries.len() implies {
        &&& (#[trigger] plan[i]).from == entries[i].path
        &&& plan[i].kind == entries[i].kind
        &&& plan[i].size == entries[i].size
        &&& plan[i].mode == entries[i].mode
        &&& starts_with(plan[i].to, dest)
        &&& names(plan[i].to) == names(dest) + names(entries[i].path).skip(
            names(source).len() as int,
        )
        &&& rebased(plan[i].to, dest, source) matches Some(back) && names(back) == names(
            entries[i].path,
        )
    } by {
        lemma_rebased_mirrors(entries[i].path, source, dest);
        lemma_rebased_back(entries[i].path, source, dest);
    }
    assert forall|i: int, j: int|
        0 <= i < entries.len() && 0 <= j < entries.len() && names(entries[i].path) != names(
            entries[j].path,
        ) implies (#[trigger] plan[i]).to != (#[trigger] plan[j]).to by {
        lemma_rebased_apart(entries[i].path, entries[j].path, source, dest);
    }
}

/// Nothing is put anywhere but at the destination or below it: after any
/// events, the action that is out writes at such a path if it writes at all,
/// and a rollback removes the destination and nothing else.
pub proof fn lemma_writes_stay_below(
    source: Seq<char>,
    dest: Seq<char>,
    threshold: u64,
    events: Seq<EventView>,
)
    ensures
        TransferView::initial(source, dest, threshold).run(events).stays_below(),
        TransferView::initial(source, dest, threshold).run(events).source == source,
        TransferView::initial(source, dest, threshold).run(events).dest == dest,
        put_at(TransferView::initial(source, dest, threshold).run(events).pending()) matches Some(
            path,
        ) ==> starts_with(path, dest),
        TransferView::initial(source, dest, threshold).run(events).pending()
            matches ActionView::RollBack { path } ==> path == dest,
    decreases events.len(),
{
    let start = TransferView::initial(source, dest, threshold);
    if events.len() > 0 {
        lemma_writes_stay_below(source, dest, threshold, events.drop_last());
        let before = start.run(events.drop_last());
        let after = before.next(events.last());
        if after.plan != before.plan {
            let entries = events.last()->Listed_0;
            lemma_plan_mirrors(entries, source, dest);
        }
    }
    let s = start.run(events);
    match s.current() {
        Phase::Placing { cursor } => {
            assert(starts_with(s.plan[cursor as int].to, dest));
        },
        Phase::Marking { cursor } => {
            assert(starts_with(s.plan[cursor as int].to, dest));
        },
        _ => {},
    }
}

/// What fails is rolled back: when the making of the parents, the survey, a
/// placement that is no special file's, the writing of a marker or the
/// removal of the source fails, or the user will not give up a special file
/// that could not be copied, the next action removes the destination. A
/// special file that could not be copied is asked about first.
pub proof fn lemma_failure_rolls_back(s: TransferView)
    ensures
        match s.current() {
            Phase::MakingParents | Phase::Surveying | Phase::Marking { .. } | Phase::Removing => {
                s.next(EventView::Failed).pending() == (ActionView::RollBack { path: s.dest })
            },
            Phase::Placing { cursor } => if s.plan[cursor as int].kind == FileKind::Special {
                s.next(EventView::Failed).pending() == (ActionView::Confirm {
                    question: Question::DiscardSpecial,
                    path: s.plan[cursor as int].from,
                    size: s.plan[cursor as int].size,
                })
            } else {
                s.next(EventView::Failed).pending() == (ActionView::RollBack { path: s.dest })
            },
            Phase::AskingSpecial { cursor } => s.next(EventView::Answer(false)).pending() == (
            ActionView::RollBack { path: s.dest }),
            _ => true,
        },
{
}

/// A failed transfer stays failed: whatever comes after, the source is not
/// removed, nothing more is put at the destination, and the transfer does
/// not end as moved.
pub proof fn lemma_failure_is_final(s: TransferView, events: Seq<EventView>)
    requires
        s.has_failed(),
    ensures
        s.run(events).has_failed(),
        s.run(events).pending() is RollBack || s.run(events).pending() is Finish,
        s.run(events).pending() != (ActionView::Finish { outcome: Outcome::Moved }),
    decreases events.len(),
{
    if events.len() > 0 {
        lemma_failure_is_final(s, events.drop_last());
    }
}

/// The source is removed last: its removal begins only when the last
/// placement of the plan has been put at its place, marked, or given up
/// with the user's consent.
pub proof fn lemma_source_removed_last(s: TransferView, event: EventView)
    requires
        !(s.current() matches Phase::Removing),
        s.next(event).current() matches Phase::Removing,
    ensures
        s.plan.len() > 0,
        s.next(event).plan == s.plan,
        match s.current() {
            Phase::Placing { cursor } => cursor + 1 == s.plan.len() && event == EventView::Done,
            Phase::Marking { cursor } => cursor + 1 == s.plan.len() && event == EventView::Done,
            Phase::AskingLarge { cursor } => cursor + 1 == s.plan.len() && event
                == EventView::Answer(true),
            _ => false,
        },
{
    match s.current() {
        Phase::Surveying => {
            if let EventView::Listed(entries) = event {
                let after = s.listed(entries);
                match planned(entries, s.source, s.dest) {
                    Some(plan) => {
                        if plan.len() > 0 {
                            assert(after.plan == plan);
                        }
                    },
                    None => {},
                }
            }
        },
        _ => {},
    }
}

} // verus!
