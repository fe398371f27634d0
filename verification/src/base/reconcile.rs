//! Reconciling the file names of a directory tree with the canonical
//! names of the photographs.
//!
//! The walker works on a snapshot of the tree. It visits the
//! subdirectories of a directory before the directory's own files. Of
//! the files it builds the rename map, from the stem a file has now to
//! the name it should have; it applies the map to the files of the
//! directory and then to those of the preview directory beside them,
//! where a file may carry the marker of a processed variant behind the
//! stem of the file it was made from. What comes out is a plan: the lines
//! to log and the renames to make, in order.

use vstd::prelude::*;
use vstd::string::*;
use crate::base::identity::{
    canonical_name_of, compact_name_of, file_in, join_file, parse, parse_name, refined,
    CaptureStamp, Identity, IdentityView,
};
use crate::base::namemap::{NameMap, RenameEntry, Target};
use crate::base::timestamp::{seconds_of, stamp_seconds};
use crate::base::utils::{image_extension, is_img_ext};
use crate::text::{
    chars_of, debug_text, decimal, dotted, extension_of, file_name_of, has_extension, leaf_of,
    lowered, name_parts, push_char, push_decimal, quoted, same_chars, same_text, stem_of,
    text_of,
};

verus! {

/// What governs a walk.
#[derive(Clone, Copy, Debug, PartialEq, Eq)]
pub struct Rules {
    /// Take date and time from the capture stamp of a file, where it has
    /// one.
    pub exif: bool,
    /// Log only: plan no rename.
    pub dry: bool,
    /// Rename to compact names.
    pub compact: bool,
    /// Set the time stamp of a renamed file to its capture time.
    pub touch: bool,
    /// Follow processed variants in preview directories.
    pub variants: bool,
}

/// A file of a directory listing.
#[derive(Debug, PartialEq, Eq)]
pub struct FileEntry {
    /// The path of the file.
    pub path: String,
    /// Date and time of capture as read from inside the file, if they
    /// were read and found.
    pub capture: Option<CaptureStamp>,
}

/// A snapshot of a directory and what is below it.
#[derive(Debug, PartialEq, Eq)]
pub struct DirTree {
    /// The path of the directory.
    pub path: String,
    /// Its files, in the order in which they are to be handled.
    pub files: Vec<FileEntry>,
    /// Its subdirectories but the preview directory.
    pub subdirs: Vec<DirTree>,
    /// The files of its preview directory, if it has one.
    pub preview: Option<Vec<FileEntry>>,
}

/// One step of a plan.
#[derive(Debug, PartialEq, Eq)]
pub enum Step {
    /// Write a line to the log.
    Log(String),
    /// Rename a file and, where `touch` holds a time in seconds since
    /// 1970, set the time stamp of the renamed file to it.
    Rename { from: String, to: String, touch: Option<i64> },
    /// Stop: in directory `dir` the file name `name` would be given to a
    /// file while another file has it or is to get it.
    Abort { dir: String, name: String },
}

/// The mathematical value of a [`Step`].
pub enum StepView {
    Log(Seq<char>),
    Rename { from: Seq<char>, to: Seq<char>, touch: Option<int> },
    Abort { dir: Seq<char>, name: Seq<char> },
}

impl View for Step {
    type V = StepView;

    open spec fn view(&self) -> StepView {
        match self {
            Step::Log(line) => StepView::Log(line@),
            Step::Rename { from, to, touch } => StepView::Rename {
                from: from@,
                to: to@,
                touch: match touch {
                    Some(t) => Some(*t as int),
                    None => None,
                },
            },
            Step::Abort { dir, name } => StepView::Abort { dir: dir@, name: name@ },
        }
    }
}

/// The values of a sequence of steps.
pub open spec fn views(steps: Seq<Step>) -> Seq<StepView> {
    steps.map_values(|s: Step| s@)
}

/// How a file fares when the rename map is built.
pub enum Verdict {
    /// The file has no extension: it is passed over in silence.
    Ignored,
    /// The extension is not that of a photograph.
    NotImage,
    /// The name spells out no identity.
    Unrecognized,
    /// The file has the name it should have.
    Hold,
    /// The file should have another name.
    Retitle(Target),
}

/// How a file fares when the rename map is built.
#[derive(Debug, PartialEq, Eq)]
pub enum Classification {
    Ignored,
    NotImage,
    Unrecognized,
    Hold,
    Retitle(RenameEntry),
}

impl View for Classification {
    type V = Verdict;

    open spec fn view(&self) -> Verdict {
        match self {
            Classification::Ignored => Verdict::Ignored,
            Classification::NotImage => Verdict::NotImage,
            Classification::Unrecognized => Verdict::Unrecognized,
            Classification::Hold => Verdict::Hold,
            Classification::Retitle(entry) => Verdict::Retitle(entry@),
        }
    }
}

/// The name of the directory that holds what was derived from the files
/// beside it.
pub open spec fn preview_name() -> Seq<char> {
    "preview"@
}

/// What a processed variant carries behind the stem of the file it was
/// made from.
pub open spec fn marker() -> Seq<char> {
    "-Enhanced-NR"@
}

/// A stem that ends in the marker, with something before it.
pub open spec fn has_marker(stem: Seq<char>) -> bool {
    stem.len() > marker().len() && stem.skip(stem.len() - marker().len()) == marker()
}

/// A stem without the marker at its end.
pub open spec fn without_marker(stem: Seq<char>) -> Seq<char> {
    stem.take(stem.len() - marker().len())
}

/// The capture stamp of a file as a pair of date and time.
pub open spec fn stamp_of(file: FileEntry) -> Option<(Seq<char>, Seq<char>)> {
    match file.capture {
        Some(s) => Some(s@),
        None => None,
    }
}

/// The stem that a photograph should have.
pub open spec fn target_stem(compact: bool, v: IdentityView) -> Seq<char> {
    if compact {
        compact_name_of(v)
    } else {
        canonical_name_of(v)
    }
}

/// The identity that counts for a file: the one its name spells out,
/// with date and time from its capture stamp where `exif` is set.
pub open spec fn identity_of(exif: bool, file: FileEntry) -> Option<IdentityView> {
    match parse_name(file.path@) {
        None => None,
        Some(parsed) => Some(
            if exif {
                refined(parsed, stamp_of(file))
            } else {
                parsed
            },
        ),
    }
}

/// How a file fares when the rename map is built.
pub open spec fn verdict_of(rules: Rules, file: FileEntry) -> Verdict {
    let name = file_name_of(file.path@);
    if !has_extension(name) {
        Verdict::Ignored
    } else if !image_extension(lowered(extension_of(name))) {
        Verdict::NotImage
    } else {
        match identity_of(rules.exif, file) {
            None => Verdict::Unrecognized,
            Some(v) => {
                let stem = target_stem(rules.compact, v);
                if stem_of(name) == stem {
                    Verdict::Hold
                } else {
                    Verdict::Retitle(Target { name: stem, identity: v })
                }
            },
        }
    }
}

/// The rename map of a listing: each file that should have another name
/// maps, by its stem, to that name.
pub open spec fn survey_map(rules: Rules, files: Seq<FileEntry>) -> Map<Seq<char>, Target>
    decreases files.len(),
{
    if files.len() == 0 {
        Map::empty()
    } else {
        let before = survey_map(rules, files.drop_last());
        match verdict_of(rules, files.last()) {
            Verdict::Retitle(target) => before.insert(
                stem_of(file_name_of(files.last().path@)),
                target,
            ),
            _ => before,
        }
    }
}

/// How the line on a file begins: the level, and the path as written for
/// debugging.
pub open spec fn survey_head(level: u64, path: Seq<char>) -> Seq<char> {
    decimal(level as nat) + " - "@ + debug_text(path)
}

/// The line that reports how a file fared, if it gets one.
pub open spec fn survey_line(rules: Rules, level: u64, file: FileEntry) -> Option<Seq<char>> {
    let head = survey_head(level, file.path@);
    match verdict_of(rules, file) {
        Verdict::Ignored => None,
        Verdict::NotImage => Some(head + " - NO.IMG"@),
        Verdict::Unrecognized => Some(head + " - MISS.META"@),
        Verdict::Hold => Some(head + " -> HOLD"@),
        Verdict::Retitle(target) => Some(
            head + " -> "@ + target.name + seq!['.'] + extension_of(file_name_of(file.path@)),
        ),
    }
}

/// The log of building the rename map of a listing.
pub open spec fn survey_steps(rules: Rules, level: u64, files: Seq<FileEntry>) -> Seq<StepView>
    decreases files.len(),
{
    if files.len() == 0 {
        Seq::empty()
    } else {
        let before = survey_steps(rules, level, files.drop_last());
        match survey_line(rules, level, files.last()) {
            Some(line) => before.push(StepView::Log(line)),
            None => before,
        }
    }
}

/// Pushing a step pushes its value.
pub proof fn lemma_views_push(steps: Seq<Step>, step: Step)
    ensures
        views(steps.push(step)) == views(steps).push(step@),
{
    assert(views(steps.push(step)) =~= views(steps).push(step@));
}

/// Whether reading the capture stamp of a file can change its name: it
/// is a photograph by its extension, and its name spells out an identity.
pub fn wants_capture(path: &str) -> (r: bool)
    ensures
        r == (has_extension(file_name_of(path@)) && image_extension(
            lowered(extension_of(file_name_of(path@))),
        ) && parse_name(path@) is Some),
{
    let parts = name_parts(path);
    match parts.extension {
        None => false,
        Some(ext) => is_img_ext(ext.as_str()) && parse(path).is_ok(),
    }
}

/// Finds the identity that counts for a file.
pub fn identify(exif: bool, file: &FileEntry) -> (r: Option<Identity>)
    ensures
        match r {
            Some(id) => Some(id@),
            None => None,
        } == identity_of(exif, *file),
{
    match parse(file.path.as_str()) {
        Err(_) => None,
        Ok(parsed) => Some(
            if exif {
                parsed.refine_from_capture_metadata(file.capture.as_ref())
            } else {
                parsed
            },
        ),
    }
}

/// Finds how a file fares when the rename map is built.
pub fn classify(rules: &Rules, file: &FileEntry) -> (r: Classification)
    ensures
        r@ == verdict_of(*rules, *file),
{
    let parts = name_parts(file.path.as_str());
    match parts.extension {
        None => Classification::Ignored,
        Some(ext) => {
            if !is_img_ext(ext.as_str()) {
                return Classification::NotImage;
            }
            match identify(rules.exif, file) {
                None => Classification::Unrecognized,
                Some(meta) => {
                    let name = if rules.compact {
                        meta.compact_name()
                    } else {
                        meta.canonical_name()
                    };
                    if same_text(parts.stem.as_str(), name.as_str()) {
                        Classification::Hold
                    } else {
                        Classification::Retitle(RenameEntry { name, meta })
                    }
                },
            }
        },
    }
}

/// Builds the rename map of a listing and appends the log of doing so
/// to `out`: one line for each file that has an extension.
pub fn survey(rules: &Rules, level: u64, files: &Vec<FileEntry>, out: &mut Vec<Step>) -> (map:
    NameMap)
    ensures
        map@ == survey_map(*rules, files@),
        views(final(out)@) == views(old(out)@) + survey_steps(*rules, level, files@),
{
    let mut map = NameMap::new();
    let mut i: usize = 0;
    assert(views(out@) =~= views(old(out)@) + survey_steps(*rules, level, files@.take(0)));
    while i < files.len()
        invariant
            i <= files.len(),
            map@ == survey_map(*rules, files@.take(i as int)),
            views(out@) == views(old(out)@) + survey_steps(*rules, level, files@.take(i as int)),
        decreases files.len() - i,
    {
        let file = &files[i];
        proof {
            assert(files@.take(i + 1).drop_last() =~= files@.take(i as int));
            assert(files@.take(i + 1).last() == files@[i as int]);
        }
        let ghost before = out@;
        let verdict = classify(rules, file);
        match report(level, file, &verdict) {
            Some(line) => {
                out.push(Step::Log(line));
                proof {
                    lemma_views_push(before, out@.last());
                }
            },
            None => {},
        }
        match verdict {
            Classification::Retitle(entry) => {
                let parts = name_parts(file.path.as_str());
                map.insert(parts.stem, entry);
            },
            _ => {},
        }
        assert(views(out@) =~= views(old(out)@) + survey_steps(
            *rules,
            level,
            files@.take(i + 1),
        ));
        i = i + 1;
    }
    assert(files@.take(files@.len() as int) =~= files@);
    map
}

/// The line that reports how a file fared, if it gets one.
fn report(level: u64, file: &FileEntry, verdict: &Classification) -> (r: Option<String>)
    ensures
        match r {
            Some(line) => Some(line@),
            None => None,
        } == (match verdict@ {
            Verdict::Ignored => None,
            Verdict::NotImage => Some(survey_head(level, file.path@) + " - NO.IMG"@),
            Verdict::Unrecognized => Some(survey_head(level, file.path@) + " - MISS.META"@),
            Verdict::Hold => Some(survey_head(level, file.path@) + " -> HOLD"@),
            Verdict::Retitle(target) => Some(
                survey_head(level, file.path@) + " -> "@ + target.name + seq!['.'] + extension_of(
                    file_name_of(file.path@),
                ),
            ),
        }),
{
    match verdict {
        Classification::Ignored => None,
        Classification::NotImage => {
            let mut line = line_head(level, file.path.as_str());
            line.append(" - NO.IMG");
            Some(line)
        },
        Classification::Unrecognized => {
            let mut line = line_head(level, file.path.as_str());
            line.append(" - MISS.META");
            Some(line)
        },
        Classification::Hold => {
            let mut line = line_head(level, file.path.as_str());
            line.append(" -> HOLD");
            Some(line)
        },
        Classification::Retitle(entry) => {
            let parts = name_parts(file.path.as_str());
            let mut line = line_head(level, file.path.as_str());
            line.append(" -> ");
            line.append(entry.name.as_str());
            push_char(&mut line, '.');
            match &parts.extension {
                Some(ext) => {
                    line.append(ext.as_str());
                },
                None => {},
            }
            assert(line@ =~= survey_head(level, file.path@) + " -> "@ + entry.name@ + seq!['.']
                + extension_of(file_name_of(file.path@)));
            Some(line)
        },
    }
}

/// How the line on a file begins: the level, and the path as it was
/// written for debugging.
pub fn head_with(level: u64, quoted_path: &str) -> (r: String)
    ensures
        r@ == decimal(level as nat) + " - "@ + quoted_path@,
{
    let mut r = String::new();
    push_decimal(&mut r, level);
    r.append(" - ");
    r.append(quoted_path);
    assert(r@ =~= decimal(level as nat) + " - "@ + quoted_path@);
    r
}

/// How the line on a file begins.
fn line_head(level: u64, path: &str) -> (r: String)
    ensures
        r@ == survey_head(level, path@),
{
    let q = quoted(path);
    head_with(level, q.as_str())
}

/// What applying the rename map does to a file.
pub enum Decision {
    /// The file keeps its name.
    Keep,
    /// The file gets the stem `stem` before its extension. `identity` is
    /// the identity behind the new stem, where one is known.
    Move { stem: Seq<char>, identity: Option<IdentityView> },
}

/// What applying the rename map does to a file: the stem that it is to
/// get, its extension as it is written, and the identity behind the stem.
#[derive(Debug, PartialEq, Eq)]
pub struct Planned {
    pub stem: String,
    pub extension: String,
    pub identity: Option<Identity>,
}

/// What applying `map` does to the file at `path`.
///
/// A file without extension keeps its name. A file whose stem the map
/// holds gets the name of that entry. In a preview directory, where the
/// rules follow variants, a file whose stem ends in the marker and is not
/// in the map is looked up without the marker; if that fails too, it
/// loses the marker and keeps the rest of its stem.
pub open spec fn decide(rules: Rules, derived: bool, map: Map<Seq<char>, Target>, path: Seq<char>)
    -> Decision {
    let name = file_name_of(path);
    let stem = stem_of(name);
    if !has_extension(name) {
        Decision::Keep
    } else if map.contains_key(stem) {
        Decision::Move { stem: map[stem].name, identity: Some(map[stem].identity) }
    } else if rules.variants && derived && has_marker(stem) {
        let bare = without_marker(stem);
        if map.contains_key(bare) {
            Decision::Move { stem: map[bare].name, identity: Some(map[bare].identity) }
        } else {
            Decision::Move {
                stem: bare,
                identity: parse_name(bare + seq!['.'] + extension_of(name)),
            }
        }
    } else {
        Decision::Keep
    }
}

/// The file name that a file is to get, if it is to get another.
pub open spec fn dest_of(rules: Rules, derived: bool, map: Map<Seq<char>, Target>, path: Seq<char>)
    -> Option<Seq<char>> {
    match decide(rules, derived, map, path) {
        Decision::Keep => None,
        Decision::Move { stem, identity } => Some(
            stem + seq!['.'] + extension_of(file_name_of(path)),
        ),
    }
}

/// The time to which a renamed file is set, in seconds since 1970: the
/// capture time of its identity, where the rules ask for it, the names
/// are not compact, and the identity denotes a moment.
pub open spec fn touch_of(rules: Rules, identity: Option<IdentityView>) -> Option<int> {
    if rules.touch && !rules.compact {
        match identity {
            Some(v) => stamp_seconds(v.capture_date, v.capture_time),
            None => None,
        }
    } else {
        None
    }
}

/// The steps that applying `map` to the file at `path` in `dir` takes:
/// none where the file keeps its name; else a line, and the rename
/// unless the run is dry.
pub open spec fn file_steps(
    rules: Rules,
    derived: bool,
    dir: Seq<char>,
    map: Map<Seq<char>, Target>,
    path: Seq<char>,
) -> Seq<StepView> {
    match decide(rules, derived, map, path) {
        Decision::Keep => Seq::empty(),
        Decision::Move { stem, identity } => {
            let to = file_in(dir, stem, extension_of(file_name_of(path)));
            let line = StepView::Log("RENAME "@ + path + " -> "@ + to);
            if rules.dry {
                seq![line]
            } else {
                seq![line, StepView::Rename { from: path, to, touch: touch_of(rules, identity) }]
            }
        },
    }
}

/// The steps that applying `map` to a listing takes, file by file.
pub open spec fn pass_steps(
    rules: Rules,
    derived: bool,
    dir: Seq<char>,
    map: Map<Seq<char>, Target>,
    files: Seq<FileEntry>,
) -> Seq<StepView>
    decreases files.len(),
{
    if files.len() == 0 {
        Seq::empty()
    } else {
        pass_steps(rules, derived, dir, map, files.drop_last()) + file_steps(
            rules,
            derived,
            dir,
            map,
            files.last().path@,
        )
    }
}

/// The file names of a listing.
pub open spec fn listing_names(files: Seq<FileEntry>) -> Seq<Seq<char>> {
    Seq::new(files.len(), |i: int| file_name_of(files[i].path@))
}

/// The file names that the files of a listing are to get.
pub open spec fn listing_dests(
    rules: Rules,
    derived: bool,
    map: Map<Seq<char>, Target>,
    files: Seq<FileEntry>,
) -> Seq<Option<Seq<char>>> {
    Seq::new(files.len(), |i: int| dest_of(rules, derived, map, files[i].path@))
}

/// File `i` is to get the name that file `j` has, or that another file
/// `j` is to get.
pub open spec fn hits(names: Seq<Seq<char>>, dests: Seq<Option<Seq<char>>>, i: int, j: int)
    -> bool {
    dests[i] is Some && (names[j] == dests[i]->0 || (j != i && dests[j] == dests[i]))
}

/// The name that file `i` is to get is taken, now or after the renames.
pub open spec fn clashes(names: Seq<Seq<char>>, dests: Seq<Option<Seq<char>>>, i: int) -> bool {
    exists|j: int| 0 <= j < names.len() && hits(names, dests, i, j)
}

/// No file is to get a name that is taken: the renames can be made in
/// any order, and none overwrites a file.
pub open spec fn clash_free(names: Seq<Seq<char>>, dests: Seq<Option<Seq<char>>>) -> bool {
    forall|i: int| 0 <= i < names.len() ==> !clashes(names, dests, i)
}

/// File `i` is the first whose new name is taken.
pub open spec fn is_first_clash(names: Seq<Seq<char>>, dests: Seq<Option<Seq<char>>>, i: int)
    -> bool {
    &&& 0 <= i < names.len()
    &&& clashes(names, dests, i)
    &&& forall|k: int| 0 <= k < i ==> !clashes(names, dests, k)
}

/// The first file whose new name is taken, if there is one.
pub open spec fn first_clash(names: Seq<Seq<char>>, dests: Seq<Option<Seq<char>>>) -> Option<int> {
    if exists|i: int| is_first_clash(names, dests, i) {
        Some(choose|i: int| is_first_clash(names, dests, i))
    } else {
        None
    }
}

/// The contested name of a pass: the name that the first file whose new
/// name is taken is to get. None where the pass is free of clashes.
pub open spec fn clash_name(
    rules: Rules,
    derived: bool,
    map: Map<Seq<char>, Target>,
    files: Seq<FileEntry>,
) -> Option<Seq<char>> {
    let dests = listing_dests(rules, derived, map, files);
    match first_clash(listing_names(files), dests) {
        Some(i) => dests[i],
        None => None,
    }
}

/// Whether the value of what was planned for a file is `decision`.
pub open spec fn plans(planned: Option<Planned>, decision: Decision) -> bool {
    match planned {
        None => decision is Keep,
        Some(p) => decision == (Decision::Move {
            stem: p.stem@,
            identity: match p.identity {
                Some(id) => Some(id@),
                None => None,
            },
        }),
    }
}

/// The views of a vector of texts.
spec fn texts(v: Seq<Vec<char>>) -> Seq<Seq<char>> {
    Seq::new(v.len(), |i: int| v[i]@)
}

/// The views of a vector of texts of which some are missing.
spec fn optional_texts(v: Seq<Option<Vec<char>>>) -> Seq<Option<Seq<char>>> {
    Seq::new(
        v.len(),
        |i: int|
            match v[i] {
                Some(t) => Some(t@),
                None => None,
            },
    )
}

/// A stem without the marker at its end, where it ends in the marker and
/// has something before it.
pub fn strip_marker(stem: &str) -> (r: Option<String>)
    ensures
        match r {
            Some(bare) => has_marker(stem@) && bare@ == without_marker(stem@),
            None => !has_marker(stem@),
        },
{
    let s = chars_of(stem);
    let m = chars_of("-Enhanced-NR");
    if s.len() <= m.len() {
        return None;
    }
    let start: usize = s.len() - m.len();
    let mut i: usize = 0;
    while i < m.len()
        invariant
            i <= m.len(),
            start + m.len() == s.len(),
            s@ == stem@,
            m@ == marker(),
            forall|j: int| 0 <= j < i ==> s@[start + j] == m@[j],
        decreases m.len() - i,
    {
        if s[start + i] != m[i] {
            assert(stem@.skip(start as int)[i as int] != marker()[i as int]);
            return None;
        }
        i = i + 1;
    }
    assert(stem@.skip(start as int) =~= marker());
    Some(text_of(&s, 0, start))
}

/// Decides what applying `map` does to a file.
pub fn decide_file(rules: &Rules, derived: bool, map: &NameMap, path: &str) -> (r: Option<Planned>)
    ensures
        plans(r, decide(*rules, derived, map@, path@)),
        r matches Some(p) ==> p.extension@ == extension_of(file_name_of(path@)),
{
    let parts = name_parts(path);
    let extension = match parts.extension {
        None => {
            return None;
        },
        Some(e) => e,
    };
    match map.get(parts.stem.as_str()) {
        Some(entry) => {
            return Some(
                Planned {
                    stem: entry.name.clone(),
                    extension,
                    identity: Some(entry.meta.clone()),
                },
            );
        },
        None => {},
    }
    if !(rules.variants && derived) {
        return None;
    }
    match strip_marker(parts.stem.as_str()) {
        None => None,
        Some(bare) => {
            match map.get(bare.as_str()) {
                Some(entry) => Some(
                    Planned {
                        stem: entry.name.clone(),
                        extension,
                        identity: Some(entry.meta.clone()),
                    },
                ),
                None => {
                    let name = dotted(bare.as_str(), extension.as_str());
                    let identity = match parse(name.as_str()) {
                        Ok(id) => Some(id),
                        Err(_) => None,
                    };
                    Some(Planned { stem: bare, extension, identity })
                },
            }
        },
    }
}

/// Finds the first file whose new name is taken.
fn find_clash(names: &Vec<Vec<char>>, dests: &Vec<Option<Vec<char>>>) -> (r: Option<usize>)
    requires
        names.len() == dests.len(),
    ensures
        match r {
            Some(i) => first_clash(texts(names@), optional_texts(dests@)) == Some(i as int),
            None => first_clash(texts(names@), optional_texts(dests@)) is None,
        },
{
    let ghost ns = texts(names@);
    let ghost ds = optional_texts(dests@);
    let n = names.len();
    let mut i: usize = 0;
    while i < n
        invariant
            i <= n,
            n == names.len(),
            n == dests.len(),
            ns == texts(names@),
            ds == optional_texts(dests@),
            forall|k: int| 0 <= k < i ==> !clashes(ns, ds, k),
        decreases n - i,
    {
        match &dests[i] {
            Some(d) => {
                let mut j: usize = 0;
                while j < n
                    invariant
                        j <= n,
                        i < n,
                        n == names.len(),
                        n == dests.len(),
                        ns == texts(names@),
                        ds == optional_texts(dests@),
                        dests@[i as int] == Some(*d),
                        forall|k: int| 0 <= k < i ==> !clashes(ns, ds, k),
                        forall|k: int| 0 <= k < j ==> !hits(ns, ds, i as int, k),
                    decreases n - j,
                {
                    let taken = same_chars(&names[j], d);
                    let wanted = j != i && match &dests[j] {
                        Some(e) => same_chars(e, d),
                        None => false,
                    };
                    if taken || wanted {
                        assert(hits(ns, ds, i as int, j as int));
                        assert(is_first_clash(ns, ds, i as int));
                        return Some(i);
                    }
                    j = j + 1;
                }
            },
            None => {},
        }
        i = i + 1;
    }
    None
}

/// Checks a pass before any of its renames is made: finds the name that
/// the first file whose new name is taken is to get.
pub fn check_pass(rules: &Rules, derived: bool, map: &NameMap, files: &Vec<FileEntry>) -> (r:
    Option<String>)
    ensures
        match r {
            Some(name) => Some(name@),
            None => None,
        } == clash_name(*rules, derived, map@, files@),
{
    let mut names: Vec<Vec<char>> = Vec::new();
    let mut dests: Vec<Option<Vec<char>>> = Vec::new();
    let mut i: usize = 0;
    while i < files.len()
        invariant
            i <= files.len(),
            names.len() == i,
            dests.len() == i,
            texts(names@) == listing_names(files@.take(i as int)),
            optional_texts(dests@) == listing_dests(*rules, derived, map@, files@.take(i as int)),
        decreases files.len() - i,
    {
        let path = files[i].path.as_str();
        let name = leaf_of(path);
        let dest = match decide_file(rules, derived, map, path) {
            Some(p) => {
                let d = dotted(p.stem.as_str(), p.extension.as_str());
                Some(chars_of(d.as_str()))
            },
            None => None,
        };
        let ghost names_before = names@;
        let ghost dests_before = dests@;
        names.push(chars_of(name.as_str()));
        dests.push(dest);
        proof {
            assert forall|k: int| 0 <= k < i implies texts(names@)[k] == listing_names(
                files@.take(i + 1),
            )[k] by {
                assert(texts(names@)[k] == texts(names_before)[k]);
                assert(files@.take(i as int)[k] == files@.take(i + 1)[k]);
            }
            assert forall|k: int| 0 <= k < i implies optional_texts(dests@)[k] == listing_dests(
                *rules,
                derived,
                map@,
                files@.take(i + 1),
            )[k] by {
                assert(optional_texts(dests@)[k] == optional_texts(dests_before)[k]);
                assert(files@.take(i as int)[k] == files@.take(i + 1)[k]);
            }
            assert(texts(names@) =~= listing_names(files@.take(i + 1)));
            assert(optional_texts(dests@) =~= listing_dests(
                *rules,
                derived,
                map@,
                files@.take(i + 1),
            ));
        }
        i = i + 1;
    }
    assert(files@.take(files@.len() as int) =~= files@);
    match find_clash(&names, &dests) {
        Some(k) => {
            match &dests[k] {
                Some(d) => Some(text_of(d, 0, d.len())),
                None => None,
            }
        },
        None => None,
    }
}

/// The preview directory of `dir`.
pub open spec fn preview_dir(dir: Seq<char>) -> Seq<char> {
    dir + seq!['/'] + preview_name()
}

/// The renames that a rename map makes in one directory, or the stop in
/// place of them.
///
/// Both passes are checked before either is planned: where a file of
/// the directory, or else one of its preview directory, is to get a name
/// that is taken, the plan stops there, with no rename in this directory.
pub open spec fn rename_steps(rules: Rules, tree: DirTree, map: Map<Seq<char>, Target>) -> Seq<
    StepView,
> {
    let own = pass_steps(rules, false, tree.path@, map, tree.files@);
    match clash_name(rules, false, map, tree.files@) {
        Some(name) => seq![StepView::Abort { dir: tree.path@, name }],
        None => match tree.preview {
            None => own,
            Some(listing) => match clash_name(rules, true, map, listing@) {
                Some(name) => seq![StepView::Abort { dir: preview_dir(tree.path@), name }],
                None => own + pass_steps(rules, true, preview_dir(tree.path@), map, listing@),
            },
        },
    }
}

/// The steps for the files of one directory: the log of building its
/// rename map, then its renames.
pub open spec fn own_steps(rules: Rules, level: u64, tree: DirTree) -> Seq<StepView> {
    survey_steps(rules, level, tree.files@) + rename_steps(
        rules,
        tree,
        survey_map(rules, tree.files@),
    )
}

/// A plan that ends in a stop.
pub open spec fn aborted(steps: Seq<StepView>) -> bool {
    steps.len() > 0 && steps.last() is Abort
}

/// One plan after another; nothing follows a stop.
pub open spec fn chain(first: Seq<StepView>, second: Seq<StepView>) -> Seq<StepView> {
    if aborted(first) {
        first
    } else {
        first + second
    }
}

/// The level below `level`. Levels stop at the largest number that the
/// machine holds.
pub open spec fn next_level(level: u64) -> u64 {
    if level < u64::MAX {
        (level + 1) as u64
    } else {
        level
    }
}

/// The line that reports the descent into a subdirectory.
pub open spec fn enter_line(level: u64, path: Seq<char>) -> Seq<char> {
    decimal(level as nat) + " dirs - "@ + path
}

/// The plan for a tree: first its subdirectories, then its own files.
pub open spec fn walk_steps(rules: Rules, level: u64, tree: DirTree) -> Seq<StepView>
    decreases tree,
{
    chain(children_steps(rules, level, tree.subdirs@), own_steps(rules, level, tree))
}

/// The plan for the subdirectories of a directory at `level`, one after
/// another: for each the line that reports the descent, then its plan.
pub open spec fn children_steps(rules: Rules, level: u64, subdirs: Seq<DirTree>) -> Seq<StepView>
    decreases subdirs,
{
    if subdirs.len() == 0 {
        Seq::empty()
    } else {
        chain(
            children_steps(rules, level, subdirs.drop_last()),
            seq![StepView::Log(enter_line(level, subdirs.last().path@))] + walk_steps(
                rules,
                next_level(level),
                subdirs.last(),
            ),
        )
    }
}

/// The values of two sequences of steps, one after the other.
pub proof fn lemma_views_add(a: Seq<Step>, b: Seq<Step>)
    ensures
        views(a + b) == views(a) + views(b),
{
    assert(views(a + b) =~= views(a) + views(b));
}

/// Applies the rename map to a listing: appends to `out`, for each file
/// that is to get another name, the line that says so and, unless the
/// run is dry, the rename.
pub fn apply_pass(
    rules: &Rules,
    derived: bool,
    dir: &str,
    map: &NameMap,
    files: &Vec<FileEntry>,
    out: &mut Vec<Step>,
)
    ensures
        views(final(out)@) == views(old(out)@) + pass_steps(*rules, derived, dir@, map@, files@),
{
    let mut i: usize = 0;
    assert(views(out@) =~= views(old(out)@) + pass_steps(
        *rules,
        derived,
        dir@,
        map@,
        files@.take(0),
    ));
    while i < files.len()
        invariant
            i <= files.len(),
            views(out@) == views(old(out)@) + pass_steps(
                *rules,
                derived,
                dir@,
                map@,
                files@.take(i as int),
            ),
        decreases files.len() - i,
    {
        let path = files[i].path.as_str();
        proof {
            assert(files@.take(i + 1).drop_last() =~= files@.take(i as int));
            assert(files@.take(i + 1).last() == files@[i as int]);
        }
        match decide_file(rules, derived, map, path) {
            None => {},
            Some(p) => {
                let to = join_file(dir, p.stem.as_str(), p.extension.as_str());
                let mut line = String::from_str("RENAME ");
                line.append(path);
                line.append(" -> ");
                line.append(to.as_str());
                let ghost before = out@;
                out.push(Step::Log(line));
                proof {
                    lemma_views_push(before, out@.last());
                }
                if !rules.dry {
                    let touch = if rules.touch && !rules.compact {
                        match &p.identity {
                            Some(id) => seconds_of(id.capture_date(), id.capture_time()),
                            None => None,
                        }
                    } else {
                        None
                    };
                    let ghost logged = out@;
                    out.push(Step::Rename { from: String::from_str(path), to, touch });
                    proof {
                        lemma_views_push(logged, out@.last());
                    }
                }
            },
        }
        assert(views(out@) =~= views(old(out)@) + pass_steps(
            *rules,
            derived,
            dir@,
            map@,
            files@.take(i + 1),
        ));
        i = i + 1;
    }
    assert(files@.take(files@.len() as int) =~= files@);
}

/// Plans the renames that `map` makes in one directory, or the stop in
/// place of them, and appends them to `out`.
pub fn plan_renames(rules: &Rules, tree: &DirTree, map: &NameMap, out: &mut Vec<Step>)
    ensures
        views(final(out)@) == views(old(out)@) + rename_steps(*rules, *tree, map@),
{
    let ghost before = out@;
    match check_pass(rules, false, map, &tree.files) {
        Some(name) => {
            out.push(Step::Abort { dir: tree.path.clone(), name });
            proof {
                lemma_views_push(before, out@.last());
                assert(views(out@) =~= views(before) + rename_steps(*rules, *tree, map@));
            }
            return ;
        },
        None => {},
    }
    match &tree.preview {
        None => {
            apply_pass(rules, false, tree.path.as_str(), map, &tree.files, out);
        },
        Some(listing) => {
            let mut dir = tree.path.clone();
            push_char(&mut dir, '/');
            dir.append("preview");
            assert(dir@ =~= preview_dir(tree.path@));
            match check_pass(rules, true, map, listing) {
                Some(name) => {
                    out.push(Step::Abort { dir, name });
                    proof {
                        lemma_views_push(before, out@.last());
                        assert(views(out@) =~= views(before) + rename_steps(*rules, *tree, map@));
                    }
                },
                None => {
                    apply_pass(rules, false, tree.path.as_str(), map, &tree.files, out);
                    apply_pass(rules, true, dir.as_str(), map, listing, out);
                    assert(views(out@) =~= views(before) + rename_steps(*rules, *tree, map@));
                },
            }
        },
    }
}

/// Whether a plan ends in a stop.
pub fn is_aborted(steps: &Vec<Step>) -> (r: bool)
    ensures
        r == aborted(views(steps@)),
{
    let n = steps.len();
    if n == 0 {
        return false;
    }
    match &steps[n - 1] {
        Step::Abort { dir, name } => true,
        _ => false,
    }
}

/// Plans the walk of a tree whose root is at `level`: the subdirectories
/// first, each after the line that reports the descent into it, then the
/// files of the directory itself. The plan ends at the first stop.
pub fn walk(rules: &Rules, level: u64, tree: &DirTree) -> (r: Vec<Step>)
    ensures
        views(r@) == walk_steps(*rules, level, *tree),
    decreases tree,
{
    let mut out: Vec<Step> = Vec::new();
    let below: u64 = if level < u64::MAX {
        level + 1
    } else {
        level
    };
    let mut i: usize = 0;
    assert(views(out@) =~= children_steps(*rules, level, tree.subdirs@.take(0)));
    while i < tree.subdirs.len()
        invariant
            i <= tree.subdirs.len(),
            below == next_level(level),
            views(out@) == children_steps(*rules, level, tree.subdirs@.take(i as int)),
        decreases tree.subdirs.len() - i,
    {
        proof {
            assert(tree.subdirs@.take(i + 1).drop_last() =~= tree.subdirs@.take(i as int));
            assert(tree.subdirs@.take(i + 1).last() == tree.subdirs@[i as int]);
        }
        if !is_aborted(&out) {
            let child = &tree.subdirs[i];
            let mut line = String::new();
            push_decimal(&mut line, level);
            line.append(" dirs - ");
            line.append(child.path.as_str());
            assert(line@ =~= enter_line(level, child.path@));
            let ghost before = out@;
            out.push(Step::Log(line));
            let ghost entered = out@;
            let mut steps = walk(rules, below, child);
            let ghost inner = steps@;
            out.append(&mut steps);
            proof {
                lemma_views_push(before, entered.last());
                lemma_views_add(entered, inner);
                assert(views(out@) =~= views(before) + (seq![
                    StepView::Log(enter_line(level, child.path@)),
                ] + walk_steps(*rules, below, *child)));
            }
        }
        i = i + 1;
    }
    assert(tree.subdirs@.take(tree.subdirs@.len() as int) =~= tree.subdirs@);
    if is_aborted(&out) {
        return out;
    }
    let map = survey(rules, level, &tree.files, &mut out);
    plan_renames(rules, tree, &map, &mut out);
    assert(views(out@) =~= children_steps(*rules, level, tree.subdirs@) + own_steps(
        *rules,
        level,
        *tree,
    ));
    out
}

} // verus!
