//! Tidying up: moving or copying the photographs of a directory tree to
//! their places in the archive.
//!
//! The task plans over a snapshot of the tree: the subdirectories of a
//! directory first, then its files, each with the number of files of the
//! directory that are still to come, itself included. Files that are no
//! photographs are passed over. The caller carries out each placement
//! that the plan holds and reports it with the line that
//! [`report_line`] makes.

use vstd::prelude::*;
use vstd::string::*;
use crate::base::placement::{
    placement_of, Layout, Outcome, Placement, PlacementRequest, PlacementRequestView,
    PlacementView, Transfer,
};
use crate::base::reconcile::{identify, identity_of, DirTree, FileEntry};
use crate::base::utils::{image_extension, is_img_ext};
use crate::text::{
    decimal, extension_of, file_name_of, has_extension, lowered, name_parts, push_char,
    push_decimal,
};

verus! {

/// The arguments of the command.
pub struct TidyupCommand {
    /// The directory to tidy up.
    pub source: String,
    /// The root of the archive; the source itself where none is given.
    pub dest: Option<String>,
    /// Take date and time from the capture stamp inside each file.
    pub exif: bool,
    /// Show what would be done, and do nothing.
    pub dry: bool,
    /// Place the files flat, under compact names.
    pub compact: bool,
    /// Keep time stamps: set created directories to the day of capture
    /// and copies to the creation time of their sources.
    pub touch: bool,
    /// Copy the files; they are moved otherwise.
    pub docopy: bool,
    /// Put the directories of the days below directories of the years.
    pub year: bool,
}

/// A run of the command.
pub struct Task {
    pub cmd: TidyupCommand,
}

/// What is to be done about one file.
#[derive(Debug, PartialEq, Eq)]
pub enum TidyStep {
    /// Write a line to the log.
    Log(String),
    /// The run is dry: report the file as placed at `dest`, and leave
    /// it. `head` begins the line of the report.
    Promise { head: String, dest: String },
    /// Carry out the placement and report how it ended. `head` begins
    /// the line of the report.
    Place { head: String, placement: Placement },
}

/// The mathematical value of a [`TidyStep`].
pub enum TidyStepView {
    Log(Seq<char>),
    Promise { head: Seq<char>, dest: Seq<char> },
    Place { head: Seq<char>, placement: PlacementView },
}

impl View for TidyStep {
    type V = TidyStepView;

    open spec fn view(&self) -> TidyStepView {
        match self {
            TidyStep::Log(line) => TidyStepView::Log(line@),
            TidyStep::Promise { head, dest } => TidyStepView::Promise { head: head@, dest: dest@ },
            TidyStep::Place { head, placement } => TidyStepView::Place {
                head: head@,
                placement: placement@,
            },
        }
    }
}

/// The values of a sequence of steps.
pub open spec fn tidy_views(steps: Seq<TidyStep>) -> Seq<TidyStepView> {
    steps.map_values(|s: TidyStep| s@)
}

/// The root of the archive: the destination of the command, or its
/// source where it names none.
pub open spec fn root_of(cmd: TidyupCommand) -> Seq<char> {
    match cmd.dest {
        Some(d) => d@,
        None => cmd.source@,
    }
}

/// The layout that the command asks for.
pub open spec fn layout_of(cmd: TidyupCommand) -> Layout {
    if cmd.compact {
        Layout::Compact
    } else {
        Layout::Expanded { by_year: cmd.year }
    }
}

/// The request that the command makes for the file at `source`, with the
/// archive at `root`.
pub open spec fn request_of(cmd: TidyupCommand, root: Seq<char>, source: Seq<char>)
    -> PlacementRequestView {
    PlacementRequestView {
        source,
        root,
        layout: layout_of(cmd),
        transfer: if cmd.docopy {
            Transfer::Copy
        } else {
            Transfer::Move
        },
        touch: cmd.touch,
    }
}

/// How the lines on a file begin: `F`, the number of files of its
/// directory still to come, and its path.
pub open spec fn head_of(order: u64, path: Seq<char>) -> Seq<char> {
    "F,"@ + decimal(order as nat) + seq![','] + path
}

/// Whether a file counts as a photograph by its extension.
pub open spec fn is_photo(path: Seq<char>) -> bool {
    has_extension(file_name_of(path)) && image_extension(
        lowered(extension_of(file_name_of(path))),
    )
}

/// What is to be done about one file: nothing where it is no
/// photograph; a line that ends in `ERR` where its name spells no
/// identity; else its placement, or in a dry run the promise of it.
pub open spec fn file_step(cmd: TidyupCommand, root: Seq<char>, entry: FileEntry, order: u64)
    -> Option<TidyStepView> {
    if !is_photo(entry.path@) {
        None
    } else {
        let head = head_of(order, entry.path@);
        match identity_of(cmd.exif, entry) {
            None => Some(TidyStepView::Log(head + ",ERR"@)),
            Some(v) => {
                let placement = placement_of(request_of(cmd, root, entry.path@), v);
                if cmd.dry {
                    Some(TidyStepView::Promise { head, dest: placement.dest })
                } else {
                    Some(TidyStepView::Place { head, placement })
                }
            },
        }
    }
}

/// The steps for the first `n` files of a listing.
pub open spec fn files_steps(cmd: TidyupCommand, root: Seq<char>, files: Seq<FileEntry>, n: int)
    -> Seq<TidyStepView>
    decreases n,
{
    if n <= 0 {
        Seq::empty()
    } else {
        let before = files_steps(cmd, root, files, n - 1);
        match file_step(cmd, root, files[n - 1], (files.len() - (n - 1)) as u64) {
            Some(step) => before.push(step),
            None => before,
        }
    }
}

/// The steps for a tree: those for its subdirectories, then those for
/// its own files.
pub open spec fn dir_steps(cmd: TidyupCommand, root: Seq<char>, tree: DirTree) -> Seq<
    TidyStepView,
>
    decreases tree,
{
    subdirs_steps(cmd, root, tree.subdirs@) + files_steps(
        cmd,
        root,
        tree.files@,
        tree.files@.len() as int,
    )
}

/// The steps for the subdirectories of a directory, one after another.
pub open spec fn subdirs_steps(cmd: TidyupCommand, root: Seq<char>, subdirs: Seq<DirTree>) -> Seq<
    TidyStepView,
>
    decreases subdirs,
{
    if subdirs.len() == 0 {
        Seq::empty()
    } else {
        subdirs_steps(cmd, root, subdirs.drop_last()) + dir_steps(cmd, root, subdirs.last())
    }
}

/// The word that reports an outcome.
pub open spec fn status_of(outcome: Outcome) -> Seq<char> {
    match outcome {
        Outcome::Placed => "OK"@,
        Outcome::Skipped => "SKIP"@,
    }
}

/// The line that reports a file: how it begins, how the placement
/// ended, the destination, and the milliseconds it took.
pub open spec fn report_of(head: Seq<char>, outcome: Outcome, dest: Seq<char>, millis: u64) -> Seq<
    char,
> {
    head + seq![','] + status_of(outcome) + seq![','] + dest + seq![','] + decimal(millis as nat)
}

/// The line that reports a file.
pub fn report_line(head: &str, outcome: Outcome, dest: &str, millis: u64) -> (r: String)
    ensures
        r@ == report_of(head@, outcome, dest@, millis),
{
    let mut r = String::from_str(head);
    push_char(&mut r, ',');
    match outcome {
        Outcome::Placed => {
            r.append("OK");
        },
        Outcome::Skipped => {
            r.append("SKIP");
        },
    }
    push_char(&mut r, ',');
    r.append(dest);
    push_char(&mut r, ',');
    push_decimal(&mut r, millis);
    assert(r@ =~= report_of(head@, outcome, dest@, millis));
    r
}

impl Task {
    /// Plans the run over a snapshot of the tree at the source of the
    /// command.
    pub fn run(&self, tree: &DirTree) -> (r: Vec<TidyStep>)
        ensures
            tidy_views(r@) == dir_steps(self.cmd, root_of(self.cmd), *tree),
    {
        let root = match &self.cmd.dest {
            Some(d) => d.clone(),
            None => self.cmd.source.clone(),
        };
        self.dir(tree, root.as_str())
    }

    /// Plans the tidying of a tree into the archive at `dest`: the
    /// subdirectories first, then the files of the directory itself.
    pub fn dir(&self, tree: &DirTree, dest: &str) -> (r: Vec<TidyStep>)
        ensures
            tidy_views(r@) == dir_steps(self.cmd, dest@, *tree),
        decreases tree,
    {
        let mut out: Vec<TidyStep> = Vec::new();
        let mut i: usize = 0;
        assert(tidy_views(out@) =~= subdirs_steps(self.cmd, dest@, tree.subdirs@.take(0)));
        while i < tree.subdirs.len()
            invariant
                i <= tree.subdirs.len(),
                tidy_views(out@) == subdirs_steps(self.cmd, dest@, tree.subdirs@.take(i as int)),
            decreases tree.subdirs.len() - i,
        {
            proof {
                assert(tree.subdirs@.take(i + 1).drop_last() =~= tree.subdirs@.take(i as int));
                assert(tree.subdirs@.take(i + 1).last() == tree.subdirs@[i as int]);
            }
            let ghost before = out@;
            let mut steps = self.dir(&tree.subdirs[i], dest);
            let ghost inner = steps@;
            out.append(&mut steps);
            assert(tidy_views(before + inner) =~= tidy_views(before) + tidy_views(inner));
            i = i + 1;
        }
        assert(tree.subdirs@.take(tree.subdirs@.len() as int) =~= tree.subdirs@);
        let ghost below = out@;
        let n = tree.files.len();
        let mut k: usize = 0;
        assert(tidy_views(out@) =~= tidy_views(below) + files_steps(
            self.cmd,
            dest@,
            tree.files@,
            0,
        ));
        while k < n
            invariant
                k <= n,
                n == tree.files.len(),
                tidy_views(out@) == tidy_views(below) + files_steps(
                    self.cmd,
                    dest@,
                    tree.files@,
                    k as int,
                ),
            decreases n - k,
        {
            let ghost before = out@;
            match self.file(dest, &tree.files[k], (n - k) as u64) {
                Some(step) => {
                    out.push(step);
                    assert(tidy_views(before.push(step)) =~= tidy_views(before).push(step@));
                },
                None => {},
            }
            assert(tidy_views(out@) =~= tidy_views(below) + files_steps(
                self.cmd,
                dest@,
                tree.files@,
                k + 1,
            ));
            k = k + 1;
        }
        out
    }

    /// Decides what is to be done about one file, the `order`-th from
    /// the end of its directory, for the archive at `dest`.
    pub fn file(&self, dest: &str, entry: &FileEntry, order: u64) -> (r: Option<TidyStep>)
        ensures
            match r {
                Some(step) => Some(step@),
                None => None,
            } == file_step(self.cmd, dest@, *entry, order),
    {
        let path = entry.path.as_str();
        let parts = name_parts(path);
        match parts.extension {
            None => {
                return None;
            },
            Some(ext) => {
                if !is_img_ext(ext.as_str()) {
                    return None;
                }
            },
        }
        let mut head = String::from_str("F,");
        push_decimal(&mut head, order);
        push_char(&mut head, ',');
        head.append(path);
        assert(head@ =~= head_of(order, path@));
        let cmd = &self.cmd;
        match identify(cmd.exif, entry) {
            None => {
                head.append(",ERR");
                Some(TidyStep::Log(head))
            },
            Some(meta) => {
                let request = PlacementRequest {
                    source: entry.path.clone(),
                    root: String::from_str(dest),
                    layout: if cmd.compact {
                        Layout::Compact
                    } else {
                        Layout::Expanded { by_year: cmd.year }
                    },
                    transfer: if cmd.docopy {
                        Transfer::Copy
                    } else {
                        Transfer::Move
                    },
                    touch: cmd.touch,
                };
                let placement = Placement::new(&request, &meta);
                if cmd.dry {
                    let to = String::from_str(placement.destination());
                    Some(TidyStep::Promise { head, dest: to })
                } else {
                    Some(TidyStep::Place { head, placement })
                }
            },
        }
    }
}

} // verus!
