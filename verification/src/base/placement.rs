//! Placing a photograph into the archive.
//!
//! Placement is a conversation with the file system. The library decides;
//! the caller acts. A placement starts in the stage [`Stage::Start`]; the
//! caller hands each answer of the file system to [`Placement::step`] and
//! carries out the action it gets back, until the action is to finish or
//! to fail.
//!
//! A file whose destination exists is skipped before anything is written.
//! Otherwise the destination directory is created where it is missing,
//! and, where time stamps are kept, set to the day of capture; the file
//! is copied or moved; and after a copy, where time stamps are kept, the
//! copy gets the creation time of the source.

use vstd::prelude::*;
use vstd::string::*;
use crate::base::identity::{
    canonical_name_of, compact_name_of, expanded_dir_of, file_in, Identity, IdentityView,
};
use crate::base::timestamp::{seconds_of, stamp_seconds};

verus! {

/// How the archive is laid out below its root.
#[derive(Clone, Copy, Debug, PartialEq, Eq, Structural)]
pub enum Layout {
    /// One directory for each day of capture, below one for each year
    /// where `by_year` is set; files have canonical names.
    Expanded { by_year: bool },
    /// No directories; files have compact names.
    Compact,
}

/// Whether the source stays where it is.
#[derive(Clone, Copy, Debug, PartialEq, Eq, Structural)]
pub enum Transfer {
    Copy,
    Move,
}

/// What is asked for: which file goes below which root, and how.
#[derive(Debug)]
pub struct PlacementRequest {
    pub source: String,
    pub root: String,
    pub layout: Layout,
    pub transfer: Transfer,
    pub touch: bool,
}

/// The mathematical value of a [`PlacementRequest`].
pub struct PlacementRequestView {
    pub source: Seq<char>,
    pub root: Seq<char>,
    pub layout: Layout,
    pub transfer: Transfer,
    pub touch: bool,
}

impl View for PlacementRequest {
    type V = PlacementRequestView;

    open spec fn view(&self) -> PlacementRequestView {
        PlacementRequestView {
            source: self.source@,
            root: self.root@,
            layout: self.layout,
            transfer: self.transfer,
            touch: self.touch,
        }
    }
}

/// How a placement ended.
#[derive(Clone, Copy, Debug, PartialEq, Eq, Structural)]
pub enum Outcome {
    /// The file is at its destination now.
    Placed,
    /// The destination existed: nothing was done.
    Skipped,
}

/// An operation on the file system that failed, and the path it was
/// about.
#[derive(Debug, PartialEq, Eq)]
pub struct PlacementError {
    pub operation: String,
    pub path: String,
}

/// The mathematical value of a [`PlacementError`].
pub struct PlacementErrorView {
    pub operation: Seq<char>,
    pub path: Seq<char>,
}

impl View for PlacementError {
    type V = PlacementErrorView;

    open spec fn view(&self) -> PlacementErrorView {
        PlacementErrorView { operation: self.operation@, path: self.path@ }
    }
}

/// Where a placement stands: which answer it waits for.
#[derive(Clone, Copy, Debug, PartialEq, Eq, Structural)]
pub enum Stage {
    Start,
    ProbingFile,
    ProbingDir,
    CreatingDir,
    TouchingDir,
    Transferring,
    TouchingFile,
    Finished,
}

/// What the file system answered to the last action.
#[derive(Clone, Copy, Debug, PartialEq, Eq, Structural)]
pub enum Event {
    /// Nothing was asked yet.
    Begin,
    /// What was probed exists.
    Found,
    /// What was probed does not exist.
    Missing,
    /// The operation succeeded.
    Done,
    /// The operation failed.
    Failed,
}

/// What the caller is to do next.
#[derive(Debug, PartialEq, Eq)]
pub enum Action {
    /// Tell whether a file exists at `path`.
    ProbeFile { path: String },
    /// Tell whether a directory exists at `path`.
    ProbeDir { path: String },
    /// Create the directory at `path` and those above it that are
    /// missing.
    CreateDir { path: String },
    /// Set the time stamp of the directory at `path` to `seconds` since
    /// 1970.
    TouchDir { path: String, seconds: i64 },
    /// Copy the file `from` to `to`.
    CopyFile { from: String, to: String },
    /// Move the file `from` to `to`.
    MoveFile { from: String, to: String },
    /// Set the time stamp of the file `to` to the creation time of the
    /// file `from`.
    CopyStamp { from: String, to: String },
    /// The placement is over.
    Finish(Outcome),
    /// The placement failed.
    Fail(PlacementError),
}

/// The mathematical value of an [`Action`].
pub enum ActionView {
    ProbeFile { path: Seq<char> },
    ProbeDir { path: Seq<char> },
    CreateDir { path: Seq<char> },
    TouchDir { path: Seq<char>, seconds: int },
    CopyFile { from: Seq<char>, to: Seq<char> },
    MoveFile { from: Seq<char>, to: Seq<char> },
    CopyStamp { from: Seq<char>, to: Seq<char> },
    Finish(Outcome),
    Fail(PlacementErrorView),
}

impl View for Action {
    type V = ActionView;

    open spec fn view(&self) -> ActionView {
        match self {
            Action::ProbeFile { path } => ActionView::ProbeFile { path: path@ },
            Action::ProbeDir { path } => ActionView::ProbeDir { path: path@ },
            Action::CreateDir { path } => ActionView::CreateDir { path: path@ },
            Action::TouchDir { path, seconds } => ActionView::TouchDir {
                path: path@,
                seconds: *seconds as int,
            },
            Action::CopyFile { from, to } => ActionView::CopyFile { from: from@, to: to@ },
            Action::MoveFile { from, to } => ActionView::MoveFile { from: from@, to: to@ },
            Action::CopyStamp { from, to } => ActionView::CopyStamp { from: from@, to: to@ },
            Action::Finish(outcome) => ActionView::Finish(*outcome),
            Action::Fail(error) => ActionView::Fail(error@),
        }
    }
}

/// A placement that is under way: source and destination, and what
/// governs the way between them.
#[derive(Debug, PartialEq, Eq)]
pub struct Placement {
    source: String,
    dir: String,
    dest: String,
    day: Option<i64>,
    transfer: Transfer,
    touch: bool,
}

/// The mathematical value of a [`Placement`].
pub struct PlacementView {
    /// The path of the file to place.
    pub source: Seq<char>,
    /// The directory of the destination.
    pub dir: Seq<char>,
    /// The path of the destination.
    pub dest: Seq<char>,
    /// The first moment of the day of capture, in seconds since 1970,
    /// where the date of capture is a day of the calendar.
    pub day: Option<int>,
    pub transfer: Transfer,
    pub touch: bool,
}

impl View for Placement {
    type V = PlacementView;

    closed spec fn view(&self) -> PlacementView {
        PlacementView {
            source: self.source@,
            dir: self.dir@,
            dest: self.dest@,
            day: match self.day {
                Some(t) => Some(t as int),
                None => None,
            },
            transfer: self.transfer,
            touch: self.touch,
        }
    }
}

/// The directory in which a photograph is placed.
pub open spec fn dir_of(layout: Layout, root: Seq<char>, v: IdentityView) -> Seq<char> {
    match layout {
        Layout::Expanded { by_year } => expanded_dir_of(v, root, by_year),
        Layout::Compact => root,
    }
}

/// The stem under which a photograph is placed.
pub open spec fn stem_in(layout: Layout, v: IdentityView) -> Seq<char> {
    match layout {
        Layout::Expanded { by_year } => canonical_name_of(v),
        Layout::Compact => compact_name_of(v),
    }
}

/// The placement that a request makes of a photograph.
pub open spec fn placement_of(request: PlacementRequestView, v: IdentityView) -> PlacementView {
    PlacementView {
        source: request.source,
        dir: dir_of(request.layout, request.root, v),
        dest: file_in(
            dir_of(request.layout, request.root, v),
            stem_in(request.layout, v),
            v.extension,
        ),
        day: stamp_seconds(v.capture_date, "000000"@),
        transfer: request.transfer,
        touch: request.touch,
    }
}

/// The failure of `operation` on `path`.
pub open spec fn failure(operation: Seq<char>, path: Seq<char>) -> (Stage, ActionView) {
    (Stage::Finished, ActionView::Fail(PlacementErrorView { operation, path }))
}

/// The transfer of the file.
pub open spec fn transfer_of(p: PlacementView) -> (Stage, ActionView) {
    (
        Stage::Transferring,
        match p.transfer {
            Transfer::Copy => ActionView::CopyFile { from: p.source, to: p.dest },
            Transfer::Move => ActionView::MoveFile { from: p.source, to: p.dest },
        },
    )
}

/// What follows the creation of the destination directory.
pub open spec fn after_create(p: PlacementView) -> (Stage, ActionView) {
    if p.touch && p.day is Some {
        (Stage::TouchingDir, ActionView::TouchDir { path: p.dir, seconds: p.day->0 })
    } else {
        transfer_of(p)
    }
}

/// What follows the transfer of the file.
pub open spec fn after_transfer(p: PlacementView) -> (Stage, ActionView) {
    if p.touch && p.transfer == Transfer::Copy {
        (Stage::TouchingFile, ActionView::CopyStamp { from: p.source, to: p.dest })
    } else {
        (Stage::Finished, ActionView::Finish(Outcome::Placed))
    }
}

/// The name of the operation that transfers the file.
pub open spec fn transfer_name(p: PlacementView) -> Seq<char> {
    match p.transfer {
        Transfer::Copy => "copy"@,
        Transfer::Move => "rename"@,
    }
}

/// The next stage and action of a placement, given the stage it is in
/// and the answer to its last action. An answer that the stage does not
/// wait for fails the placement.
pub open spec fn next_of(p: PlacementView, stage: Stage, event: Event) -> (Stage, ActionView) {
    match (stage, event) {
        (Stage::Start, Event::Begin) => (
            Stage::ProbingFile,
            ActionView::ProbeFile { path: p.dest },
        ),
        (Stage::ProbingFile, Event::Found) => (
            Stage::Finished,
            ActionView::Finish(Outcome::Skipped),
        ),
        (Stage::ProbingFile, Event::Missing) => (
            Stage::ProbingDir,
            ActionView::ProbeDir { path: p.dir },
        ),
        (Stage::ProbingDir, Event::Found) => transfer_of(p),
        (Stage::ProbingDir, Event::Missing) => (
            Stage::CreatingDir,
            ActionView::CreateDir { path: p.dir },
        ),
        (Stage::CreatingDir, Event::Done) => after_create(p),
        (Stage::CreatingDir, Event::Failed) => failure("create-dir"@, p.dir),
        (Stage::TouchingDir, Event::Done) => transfer_of(p),
        (Stage::TouchingDir, Event::Failed) => failure("touch"@, p.dir),
        (Stage::Transferring, Event::Done) => after_transfer(p),
        (Stage::Transferring, Event::Failed) => failure(transfer_name(p), p.source),
        (Stage::TouchingFile, Event::Done) => (
            Stage::Finished,
            ActionView::Finish(Outcome::Placed),
        ),
        (Stage::TouchingFile, Event::Failed) => failure("touch"@, p.dest),
        _ => failure("protocol"@, p.dest),
    }
}

impl Placement {
    /// The placement that `request` makes of the photograph `identity`.
    pub fn new(request: &PlacementRequest, identity: &Identity) -> (p: Placement)
        ensures
            p@ == placement_of(request@, identity@),
    {
        let (dir, dest) = match request.layout {
            Layout::Expanded { by_year } => identity.expanded_dir_and_path(
                request.root.as_str(),
                by_year,
            ),
            Layout::Compact => identity.compact_dir_and_path(request.root.as_str()),
        };
        let day = seconds_of(identity.capture_date(), "000000");
        Placement {
            source: request.source.clone(),
            dir,
            dest,
            day,
            transfer: request.transfer,
            touch: request.touch,
        }
    }

    /// The path of the destination.
    pub fn destination(&self) -> (r: &str)
        ensures
            r@ == self@.dest,
    {
        self.dest.as_str()
    }

    /// The directory of the destination.
    pub fn directory(&self) -> (r: &str)
        ensures
            r@ == self@.dir,
    {
        self.dir.as_str()
    }

    /// The failure of `operation` on `path`.
    fn fail(operation: &str, path: &String) -> (r: (Stage, Action))
        ensures
            (r.0, r.1@) == failure(operation@, path@),
    {
        (
            Stage::Finished,
            Action::Fail(
                PlacementError { operation: String::from_str(operation), path: path.clone() },
            ),
        )
    }

    /// The transfer of the file.
    fn transfer(&self) -> (r: (Stage, Action))
        ensures
            (r.0, r.1@) == transfer_of(self@),
    {
        let action = match self.transfer {
            Transfer::Copy => Action::CopyFile { from: self.source.clone(), to: self.dest.clone() },
            Transfer::Move => Action::MoveFile { from: self.source.clone(), to: self.dest.clone() },
        };
        (Stage::Transferring, action)
    }

    /// Decides what is to be done next: the caller hands in the stage of
    /// the placement and the answer of the file system to the last
    /// action, and gets the new stage and the next action.
    pub fn step(&self, stage: Stage, event: Event) -> (r: (Stage, Action))
        ensures
            (r.0, r.1@) == next_of(self@, stage, event),
    {
        match (stage, event) {
            (Stage::Start, Event::Begin) => (
                Stage::ProbingFile,
                Action::ProbeFile { path: self.dest.clone() },
            ),
            (Stage::ProbingFile, Event::Found) => (
                Stage::Finished,
                Action::Finish(Outcome::Skipped),
            ),
            (Stage::ProbingFile, Event::Missing) => (
                Stage::ProbingDir,
                Action::ProbeDir { path: self.dir.clone() },
            ),
            (Stage::ProbingDir, Event::Found) => self.transfer(),
            (Stage::ProbingDir, Event::Missing) => (
                Stage::CreatingDir,
                Action::CreateDir { path: self.dir.clone() },
            ),
            (Stage::CreatingDir, Event::Done) => {
                if self.touch {
                    match self.day {
                        Some(seconds) => (
                            Stage::TouchingDir,
                            Action::TouchDir { path: self.dir.clone(), seconds },
                        ),
                        None => self.transfer(),
                    }
                } else {
                    self.transfer()
                }
            },
            (Stage::CreatingDir, Event::Failed) => Self::fail("create-dir", &self.dir),
            (Stage::TouchingDir, Event::Done) => self.transfer(),
            (Stage::TouchingDir, Event::Failed) => Self::fail("touch", &self.dir),
            (Stage::Transferring, Event::Done) => {
                match self.transfer {
                    Transfer::Copy => {
                        if self.touch {
                            (
                                Stage::TouchingFile,
                                Action::CopyStamp {
                                    from: self.source.clone(),
                                    to: self.dest.clone(),
                                },
                            )
                        } else {
                            (Stage::Finished, Action::Finish(Outcome::Placed))
                        }
                    },
                    Transfer::Move => (Stage::Finished, Action::Finish(Outcome::Placed)),
                }
            },
            (Stage::Transferring, Event::Failed) => {
                match self.transfer {
                    Transfer::Copy => Self::fail("copy", &self.source),
                    Transfer::Move => Self::fail("rename", &self.source),
                }
            },
            (Stage::TouchingFile, Event::Done) => (
                Stage::Finished,
                Action::Finish(Outcome::Placed),
            ),
            (Stage::TouchingFile, Event::Failed) => Self::fail("touch", &self.dest),
            _ => Self::fail("protocol", &self.dest),
        }
    }
}

/// A file, as far as placement is concerned.
pub struct FileModel {
    pub content: Seq<u8>,
    pub created: int,
    pub modified: int,
}

/// A file system, as far as placement is concerned: its files, and its
/// directories with their time stamps, by path.
pub struct FsModel {
    pub files: Map<Seq<char>, FileModel>,
    pub dirs: Map<Seq<char>, int>,
}

/// What a file system does on an action at the time `now`, and what it
/// answers. An operation fails where the file it reads is missing, and
/// succeeds otherwise.
pub open spec fn answer(fs: FsModel, action: ActionView, now: int) -> (FsModel, Event) {
    match action {
        ActionView::ProbeFile { path } => (
            fs,
            if fs.files.contains_key(path) {
                Event::Found
            } else {
                Event::Missing
            },
        ),
        ActionView::ProbeDir { path } => (
            fs,
            if fs.dirs.contains_key(path) {
                Event::Found
            } else {
                Event::Missing
            },
        ),
        ActionView::CreateDir { path } => (
            FsModel { dirs: fs.dirs.insert(path, now), ..fs },
            Event::Done,
        ),
        ActionView::TouchDir { path, seconds } => (
            FsModel { dirs: fs.dirs.insert(path, seconds), ..fs },
            Event::Done,
        ),
        ActionView::CopyFile { from, to } => if fs.files.contains_key(from) {
            (
                FsModel {
                    files: fs.files.insert(
                        to,
                        FileModel { content: fs.files[from].content, created: now, modified: now },
                    ),
                    ..fs
                },
                Event::Done,
            )
        } else {
            (fs, Event::Failed)
        },
        ActionView::MoveFile { from, to } => if fs.files.contains_key(from) {
            (FsModel { files: fs.files.remove(from).insert(to, fs.files[from]), ..fs }, Event::Done)
        } else {
            (fs, Event::Failed)
        },
        ActionView::CopyStamp { from, to } => if fs.files.contains_key(from)
            && fs.files.contains_key(to) {
            (
                FsModel {
                    files: fs.files.insert(
                        to,
                        FileModel { modified: fs.files[from].created, ..fs.files[to] },
                    ),
                    ..fs
                },
                Event::Done,
            )
        } else {
            (fs, Event::Failed)
        },
        ActionView::Finish(outcome) => (fs, Event::Done),
        ActionView::Fail(error) => (fs, Event::Failed),
    }
}

/// A placement carried out on a file system from a given stage on, for
/// at most `fuel` actions: the file system it leaves, and how it ended,
/// if it did.
pub open spec fn run(
    p: PlacementView,
    fs: FsModel,
    stage: Stage,
    event: Event,
    now: int,
    fuel: nat,
) -> (FsModel, Option<Result<Outcome, PlacementErrorView>>)
    decreases fuel,
{
    if fuel == 0 {
        (fs, None)
    } else {
        let (next, action) = next_of(p, stage, event);
        match action {
            ActionView::Finish(outcome) => (fs, Some(Ok(outcome))),
            ActionView::Fail(error) => (fs, Some(Err(error))),
            _ => {
                let (after, reply) = answer(fs, action, now);
                run(p, after, next, reply, now, (fuel - 1) as nat)
            },
        }
    }
}

/// A placement carried out on a file system at the time `now`. No
/// placement takes more than eight actions.
pub open spec fn place(p: PlacementView, fs: FsModel, now: int) -> (
    FsModel,
    Option<Result<Outcome, PlacementErrorView>>,
) {
    run(p, fs, Stage::Start, Event::Begin, now, 8)
}

/// Every placement comes to an end.
pub proof fn lemma_place_ends(p: PlacementView, fs: FsModel, now: int)
    ensures
        place(p, fs, now).1 is Some,
{
    reveal_with_fuel(run, 9);
}

/// Where the destination exists, the placement is skipped and the file
/// system stays as it is: the source is untouched, whether it was to be
/// copied or moved.
pub proof fn lemma_present_is_skipped(p: PlacementView, fs: FsModel, now: int)
    requires
        fs.files.contains_key(p.dest),
    ensures
        place(p, fs, now) == (fs, Some(Ok::<Outcome, PlacementErrorView>(Outcome::Skipped))),
{
    reveal_with_fuel(run, 3);
}

/// Where the destination is missing and the source exists, the file is
/// placed: afterwards the destination exists and holds what the source
/// held.
pub proof fn lemma_absent_is_placed(p: PlacementView, fs: FsModel, now: int)
    requires
        !fs.files.contains_key(p.dest),
        fs.files.contains_key(p.source),
    ensures
        place(p, fs, now).1 == Some(Ok::<Outcome, PlacementErrorView>(Outcome::Placed)),
        place(p, fs, now).0.files.contains_key(p.dest),
        place(p, fs, now).0.files[p.dest].content == fs.files[p.source].content,
        p.transfer == Transfer::Copy ==> place(p, fs, now).0.files.contains_key(p.source)
            && place(p, fs, now).0.files[p.source] == fs.files[p.source],
        p.transfer == Transfer::Copy && p.touch ==> place(p, fs, now).0.files[p.dest].modified
            == fs.files[p.source].created,
{
    reveal_with_fuel(run, 9);
}

/// A placement that came to a good end leaves the destination in place.
pub proof fn lemma_success_leaves_destination(p: PlacementView, fs: FsModel, now: int)
    requires
        place(p, fs, now).1 matches Some(Ok(_)),
    ensures
        place(p, fs, now).0.files.contains_key(p.dest),
{
    reveal_with_fuel(run, 9);
}

/// Idempotence: after a placement that came to a good end, the same
/// placement again is skipped and leaves the file system as it found it.
pub proof fn lemma_place_twice(p: PlacementView, fs: FsModel, now: int, later: int)
    requires
        place(p, fs, now).1 matches Some(Ok(_)),
    ensures
        place(p, place(p, fs, now).0, later) == (
            place(p, fs, now).0,
            Some(Ok::<Outcome, PlacementErrorView>(Outcome::Skipped)),
        ),
{
    lemma_success_leaves_destination(p, fs, now);
    lemma_present_is_skipped(p, place(p, fs, now).0, later);
}

} // verus!
