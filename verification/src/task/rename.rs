//! Renaming the photographs of a directory tree to their canonical
//! names, the files of preview directories along with the files of equal
//! stem beside them.

use vstd::prelude::*;
use vstd::string::*;
use crate::base::reconcile::{
    aborted, is_aborted, views, walk, walk_steps, DirTree, Rules, Step, StepView,
};

verus! {

/// The arguments of the command.
pub struct RenameCommand {
    /// The directory to walk.
    pub dir: String,
    /// Take date and time from the capture stamp inside each file.
    pub exif: bool,
    /// Show what would be renamed, and rename nothing.
    pub dry: bool,
    /// Rename to compact names.
    pub compact: bool,
    /// Set the time stamp of each renamed file to its capture time.
    pub touch: bool,
}

/// Why a run failed.
#[derive(Debug, PartialEq, Eq)]
pub enum RenameError {
    /// An operation on the file system failed: the operation, and what
    /// the system said.
    Io(String, String),
    /// In a directory a file was to get a name that another file has or
    /// was to get: the directory and the name.
    NameCollision(String, String),
}

/// The mathematical value of a [`RenameError`].
pub enum RenameErrorView {
    Io(Seq<char>, Seq<char>),
    NameCollision(Seq<char>, Seq<char>),
}

impl View for RenameError {
    type V = RenameErrorView;

    open spec fn view(&self) -> RenameErrorView {
        match self {
            RenameError::Io(what, why) => RenameErrorView::Io(what@, why@),
            RenameError::NameCollision(dir, name) => RenameErrorView::NameCollision(dir@, name@),
        }
    }
}

/// The message of an error.
pub open spec fn message_of(e: RenameErrorView) -> Seq<char> {
    match e {
        RenameErrorView::Io(what, why) => "io-error "@ + what + ": "@ + why,
        RenameErrorView::NameCollision(dir, name) => "name-collision "@ + dir + ": "@ + name,
    }
}

impl RenameError {
    /// The message of the error, for the user.
    pub fn message(&self) -> (r: String)
        ensures
            r@ == message_of(self@),
    {
        match self {
            RenameError::Io(what, why) => {
                let mut r = String::from_str("io-error ");
                r.append(what.as_str());
                r.append(": ");
                r.append(why.as_str());
                r
            },
            RenameError::NameCollision(dir, name) => {
                let mut r = String::from_str("name-collision ");
                r.append(dir.as_str());
                r.append(": ");
                r.append(name.as_str());
                r
            },
        }
    }
}

/// What a run is asked to do.
pub struct Request {
    pub dir: String,
    pub exif: bool,
    pub dry: bool,
    pub compact: bool,
    pub touch: bool,
}

/// The rules of a run: those of the request, without the following of
/// processed variants.
pub open spec fn rules_of(req: Request) -> Rules {
    Rules { exif: req.exif, dry: req.dry, compact: req.compact, touch: req.touch, variants: false }
}

/// How a plan ends: in a stop, which becomes the error of the run, or
/// not.
pub open spec fn verdict_of_plan(plan: Seq<StepView>) -> Result<Seq<StepView>, RenameErrorView> {
    if aborted(plan) {
        Err(RenameErrorView::NameCollision(plan.last()->Abort_dir, plan.last()->Abort_name))
    } else {
        Ok(plan)
    }
}

impl Request {
    /// The request that the arguments of the command make.
    pub fn from(cmd: &RenameCommand) -> (r: Self)
        ensures
            r.dir@ == cmd.dir@,
            r.exif == cmd.exif,
            r.dry == cmd.dry,
            r.compact == cmd.compact,
            r.touch == cmd.touch,
    {
        Request {
            dir: cmd.dir.clone(),
            exif: cmd.exif,
            dry: cmd.dry,
            compact: cmd.compact,
            touch: cmd.touch,
        }
    }

    /// The rules of a run of this request.
    pub fn rules(&self) -> (r: Rules)
        ensures
            r == rules_of(*self),
    {
        Rules {
            exif: self.exif,
            dry: self.dry,
            compact: self.compact,
            touch: self.touch,
            variants: false,
        }
    }
}

/// Plans a run over `tree`, a snapshot of what is at the directory of
/// the request.
///
/// The plan is that of the walk from level 0. Where the walk stops
/// because a file name is contested, nothing is to be done at all: the
/// run fails with the directory and the name.
pub fn do_rename(req: &Request, tree: &DirTree) -> (r: Result<Vec<Step>, RenameError>)
    ensures
        match r {
            Ok(steps) => Ok(views(steps@)),
            Err(e) => Err(e@),
        } == verdict_of_plan(walk_steps(rules_of(*req), 0, *tree)),
{
    let rules = req.rules();
    let mut steps = walk(&rules, 0, tree);
    if is_aborted(&steps) {
        match steps.pop() {
            Some(Step::Abort { dir, name }) => Err(RenameError::NameCollision(dir, name)),
            _ => Ok(steps),
        }
    } else {
        Ok(steps)
    }
}

} // verus!
