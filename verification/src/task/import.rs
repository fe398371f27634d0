//! Importing: copying or moving the raw files of a camera's card to
//! their places in the archive.
//!
//! The task says where to look for the files and where each of them
//! goes. The caller lists the files, carries out each placement and
//! counts it.

use vstd::prelude::*;
use vstd::string::*;
use crate::base::identity::{parse, parse_name};
use crate::base::placement::{
    placement_of, Layout, Outcome, Placement, PlacementError, PlacementErrorView,
    PlacementRequest, PlacementRequestView, Transfer,
};
use crate::text::{chars_of, decimal, push_decimal, same_chars, sub_vec};

verus! {

/// The arguments of the command.
pub struct ImportCommand {
    /// Where the card is mounted; the usual place of the host where none
    /// is given.
    pub source: Option<String>,
    /// The root of the archive; a directory in the user's home where
    /// none is given.
    pub dest: Option<String>,
    /// The kind of host that the command runs on.
    pub host: String,
    /// Place the files flat, under compact names.
    pub compact: bool,
    /// Keep time stamps.
    pub touch: bool,
    /// Move the files; they are copied otherwise.
    pub rename: bool,
}

/// What a run is asked to do.
pub struct Request {
    pub source: String,
    pub dest: String,
    pub compact: bool,
    pub touch: bool,
    pub rename: bool,
}

/// What a run gives back.
pub struct Response {}

/// Why a run failed.
#[derive(Debug, PartialEq, Eq)]
pub enum ImportError {
    /// An operation on the file system failed: the operation, and the
    /// path it was about.
    Io(String, String),
}

/// The mathematical value of an [`ImportError`].
pub enum ImportErrorView {
    Io(Seq<char>, Seq<char>),
}

impl View for ImportError {
    type V = ImportErrorView;

    open spec fn view(&self) -> ImportErrorView {
        match self {
            ImportError::Io(why, who) => ImportErrorView::Io(why@, who@),
        }
    }
}

/// A run of the command.
pub struct Task<'a> {
    pub request: &'a Request,
}

/// What a skipped file counts for in place of a number of bytes.
pub const SKIPPED: u64 = 999999999;

/// Where the card is looked for.
pub open spec fn source_dir_of(cmd: ImportCommand) -> Seq<char> {
    match cmd.source {
        Some(s) => s@,
        None => "/Volumns/Untitled"@,
    }
}

/// Where the archive is, for a user whose home is `home`.
pub open spec fn dest_dir_of(cmd: ImportCommand, home: Seq<char>) -> Seq<char> {
    match cmd.dest {
        Some(s) => s@,
        None => home + "/PI"@,
    }
}

/// The pattern below which the files of a card are looked for: the
/// source itself, or what is below its directory `DCIM` where the source
/// is that directory or holds it.
pub open spec fn pattern_of(source: Seq<char>, has_dcim: bool) -> Seq<char> {
    if ends_with_dcim(source) {
        source + "/**"@
    } else if has_dcim {
        source + "/DCIM/**"@
    } else {
        source
    }
}

/// Whether a path ends in `/DCIM`.
pub open spec fn ends_with_dcim(source: Seq<char>) -> bool {
    source.len() >= "/DCIM"@.len() && source.skip(source.len() - "/DCIM"@.len()) == "/DCIM"@
}

/// The layout that a request asks for.
pub open spec fn layout_of(request: Request) -> Layout {
    if request.compact {
        Layout::Compact
    } else {
        Layout::Expanded { by_year: false }
    }
}

/// The placement request that a request makes for the file at `source`.
pub open spec fn request_of(request: Request, source: Seq<char>) -> PlacementRequestView {
    PlacementRequestView {
        source,
        root: request.dest@,
        layout: layout_of(request),
        transfer: if request.rename {
            Transfer::Move
        } else {
            Transfer::Copy
        },
        touch: request.touch,
    }
}

/// How the placement of a file counts: a failure as an error of the
/// run, a skipped file as [`SKIPPED`], a placed file as the bytes that
/// were copied.
pub open spec fn settled(result: Result<Outcome, PlacementErrorView>, bytes: u64) -> Result<
    u64,
    ImportErrorView,
> {
    match result {
        Ok(Outcome::Placed) => Ok(bytes),
        Ok(Outcome::Skipped) => Ok(SKIPPED),
        Err(e) => Err(ImportErrorView::Io(e.operation, e.path)),
    }
}

/// The line that announces a run over `count` files.
pub open spec fn banner_of(request: Request, count: u64) -> Seq<char> {
    "[IMPORT] "@ + request.source@ + " to "@ + request.dest@ + ", "@ + decimal(count as nat)
        + " photos"@
}

/// Where the card is looked for: the source of the command, or the usual
/// place of the host.
pub fn cmd_import_source_dir(cmd: &ImportCommand) -> (r: String)
    ensures
        r@ == source_dir_of(*cmd),
{
    match &cmd.source {
        Some(s) => s.clone(),
        None => String::from_str("/Volumns/Untitled"),
    }
}

/// Where the archive is: the destination of the command, or the
/// directory `PI` in the home of the user.
pub fn cmd_import_dest_dir(cmd: &ImportCommand, home: &str) -> (r: String)
    ensures
        r@ == dest_dir_of(*cmd, home@),
{
    match &cmd.dest {
        Some(s) => s.clone(),
        None => {
            let mut r = String::from_str(home);
            r.append("/PI");
            r
        },
    }
}

/// The error of an operation `why` on `who`.
pub fn io_error(why: String, who: String) -> (e: ImportError)
    ensures
        e@ == ImportErrorView::Io(why@, who@),
{
    ImportError::Io(why, who)
}

/// The patterns of the raw files in `base_dir`.
pub fn glob_ex(base_dir: &str) -> (r: Vec<String>)
    ensures
        r@.len() == 2,
        r@[0]@ == base_dir@ + "/*.ARW"@,
        r@[1]@ == base_dir@ + "/*.NEF"@,
{
    let mut arw = String::from_str(base_dir);
    arw.append("/*.ARW");
    let mut nef = String::from_str(base_dir);
    nef.append("/*.NEF");
    let mut r: Vec<String> = Vec::new();
    r.push(arw);
    r.push(nef);
    r
}

impl ImportError {
    /// The message of the error, for the user.
    pub fn message(&self) -> (r: String)
        ensures
            self@ matches ImportErrorView::Io(why, who) && r@ == "io-error "@ + why + ": "@ + who,
    {
        match self {
            ImportError::Io(why, who) => {
                let mut r = String::from_str("io-error ");
                r.append(why.as_str());
                r.append(": ");
                r.append(who.as_str());
                r
            },
        }
    }
}

impl<'a> Task<'a> {
    /// The pattern below which the files of the card are looked for.
    /// `has_dcim` says whether the source holds a directory `DCIM`.
    pub fn pattern(&self, has_dcim: bool) -> (r: String)
        ensures
            r@ == pattern_of(self.request.source@, has_dcim),
    {
        let source = chars_of(self.request.source.as_str());
        let suffix = chars_of("/DCIM");
        let n = source.len();
        let m = suffix.len();
        let ends = n >= m && {
            let tail = sub_vec(&source, n - m, n);
            same_chars(&tail, &suffix)
        };
        let mut r = self.request.source.clone();
        if ends {
            r.append("/**");
        } else if has_dcim {
            r.append("/DCIM/**");
        }
        r
    }

    /// The line that announces the run over `count` files.
    pub fn banner(&self, count: u64) -> (r: String)
        ensures
            r@ == banner_of(*self.request, count),
    {
        let mut r = String::from_str("[IMPORT] ");
        r.append(self.request.source.as_str());
        r.append(" to ");
        r.append(self.request.dest.as_str());
        r.append(", ");
        push_decimal(&mut r, count);
        r.append(" photos");
        r
    }

    /// The placement of the file at `src` in the archive. None where the
    /// name of the file spells no identity.
    pub fn copy(&self, src: &str) -> (r: Option<Placement>)
        ensures
            match parse_name(src@) {
                Some(v) => r is Some && r->0@ == placement_of(request_of(*self.request, src@), v),
                None => r is None,
            },
    {
        match parse(src) {
            Err(_) => None,
            Ok(info) => {
                let request = PlacementRequest {
                    source: String::from_str(src),
                    root: self.request.dest.clone(),
                    layout: if self.request.compact {
                        Layout::Compact
                    } else {
                        Layout::Expanded { by_year: false }
                    },
                    transfer: if self.request.rename {
                        Transfer::Move
                    } else {
                        Transfer::Copy
                    },
                    touch: self.request.touch,
                };
                Some(Placement::new(&request, &info))
            },
        }
    }

    /// How the placement of a file counts for the run. `bytes` is the
    /// number of bytes that were copied, 0 where the file was moved.
    pub fn settle(result: Result<Outcome, PlacementError>, bytes: u64) -> (r: Result<
        u64,
        ImportError,
    >)
        ensures
            match r {
                Ok(n) => Ok(n),
                Err(e) => Err(e@),
            } == settled(
                match result {
                    Ok(o) => Ok(o),
                    Err(e) => Err(e@),
                },
                bytes,
            ),
    {
        match result {
            Ok(Outcome::Placed) => Ok(bytes),
            Ok(Outcome::Skipped) => Ok(SKIPPED),
            Err(e) => Err(io_error(e.operation, e.path)),
        }
    }
}

} // verus!
