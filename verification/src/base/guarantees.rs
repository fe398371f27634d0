//! What the plans of the walker guarantee.

use vstd::prelude::*;
use vstd::string::*;
use vstd::multiset::*;
use vstd::seq_lib::*;
use crate::base::identity::{
    canonical_name_of, date_shaped, file_in, lemma_canonical_file, lemma_canonical_plain,
    lemma_extension_plain, lemma_parse_sound, parse_name, time_shaped, well_formed,
};
use crate::base::namemap::Target;
use crate::base::reconcile::{
    aborted, chain, children_steps, clash_free, clash_name, clashes, decide, enter_line,
    file_steps, first_clash, has_marker, hits, identity_of, is_first_clash, listing_dests,
    listing_names, marker, next_level, own_steps, pass_steps, preview_dir, rename_steps,
    survey_map, survey_steps, target_stem, verdict_of, walk_steps, without_marker, Decision,
    DirTree, FileEntry, Rules, StepView, Verdict,
};
use crate::text::{extension_of, file_name_of, has_extension, is_alnum, stem_of};

verus! {

/// A derived file is the counterpart of a primary file: they have the
/// same stem, or, where variants are followed, the stem of the derived
/// file is that of the primary file with the marker behind it.
pub open spec fn counterpart(rules: Rules, primary: Seq<char>, derived: Seq<char>) -> bool {
    let p = stem_of(file_name_of(primary));
    let d = stem_of(file_name_of(derived));
    d == p || (rules.variants && has_marker(d) && without_marker(d) == p)
}

/// A name that spells out an identity does not end in the marker.
pub proof fn lemma_parsed_stem_plain(path: Seq<char>)
    requires
        parse_name(path) is Some,
    ensures
        !has_marker(stem_of(file_name_of(path))),
{
    let stem = stem_of(file_name_of(path));
    let v = parse_name(path)->0;
    lemma_parse_sound(path);
    lemma_canonical_plain(v);
    reveal_strlit("-Enhanced-NR");
    if has_marker(stem) {
        let at = stem.len() - marker().len();
        assert(stem.skip(at)[0] == marker()[0]);
        assert(stem[at] == '-');
        assert(is_alnum(canonical_name_of(v)[at]) || canonical_name_of(v)[at] == '_');
    }
}

/// A file that should have another name is in the rename map of its
/// listing, by its stem.
pub proof fn lemma_survey_holds(rules: Rules, files: Seq<FileEntry>, i: int)
    requires
        0 <= i < files.len(),
        verdict_of(rules, files[i]) is Retitle,
    ensures
        survey_map(rules, files).contains_key(stem_of(file_name_of(files[i].path@))),
    decreases files.len(),
{
    if i < files.len() - 1 {
        lemma_survey_holds(rules, files.drop_last(), i);
    }
}

/// Every key of the rename map of a listing is the stem of a file whose
/// name spells out an identity: no key ends in the marker. And every
/// entry holds the stem that its identity should have.
pub proof fn lemma_survey_entries(rules: Rules, files: Seq<FileEntry>, key: Seq<char>)
    requires
        survey_map(rules, files).contains_key(key),
    ensures
        !has_marker(key),
        survey_map(rules, files)[key].name == target_stem(
            rules.compact,
            survey_map(rules, files)[key].identity,
        ),
    decreases files.len(),
{
    if files.len() > 0 {
        let last = files.last();
        match verdict_of(rules, last) {
            Verdict::Retitle(target) => {
                if key == stem_of(file_name_of(last.path@)) {
                    lemma_parsed_stem_plain(last.path@);
                } else {
                    lemma_survey_entries(rules, files.drop_last(), key);
                }
            },
            _ => {
                lemma_survey_entries(rules, files.drop_last(), key);
            },
        }
    }
}

/// Pairing: where a file of a directory is to be renamed, its
/// counterpart in the preview directory is renamed with it, to the same
/// stem and by the same identity, and that stem is the one the identity
/// should have.
pub proof fn lemma_pairing(rules: Rules, files: Seq<FileEntry>, i: int, derived: Seq<char>)
    requires
        0 <= i < files.len(),
        verdict_of(rules, files[i]) is Retitle,
        has_extension(file_name_of(derived)),
        counterpart(rules, files[i].path@, derived),
    ensures
        decide(rules, false, survey_map(rules, files), files[i].path@) matches Decision::Move {
            stem,
            identity,
        } && identity is Some && stem == target_stem(rules.compact, identity->0),
        decide(rules, true, survey_map(rules, files), derived) == decide(
            rules,
            false,
            survey_map(rules, files),
            files[i].path@,
        ),
{
    let map = survey_map(rules, files);
    let p = stem_of(file_name_of(files[i].path@));
    let d = stem_of(file_name_of(derived));
    lemma_survey_holds(rules, files, i);
    lemma_survey_entries(rules, files, p);
    if d != p {
        if map.contains_key(d) {
            lemma_survey_entries(rules, files, d);
        }
    }
}

/// Marker fallback: in a preview directory, a file whose stem ends in
/// the marker and which has no counterpart in the rename map, with or
/// without the marker, is renamed to its stem without the marker.
pub proof fn lemma_marker_fallback(
    rules: Rules,
    dir: Seq<char>,
    map: Map<Seq<char>, Target>,
    path: Seq<char>,
)
    requires
        rules.variants,
        has_extension(file_name_of(path)),
        has_marker(stem_of(file_name_of(path))),
        !map.contains_key(stem_of(file_name_of(path))),
        !map.contains_key(without_marker(stem_of(file_name_of(path)))),
    ensures
        decide(rules, true, map, path) matches Decision::Move { stem, identity } && stem
            == without_marker(stem_of(file_name_of(path))),
        file_steps(rules, true, dir, map, path).len() > 0,
        !rules.dry ==> (file_steps(rules, true, dir, map, path).last() matches StepView::Rename {
            from,
            to,
            touch,
        } && from == path && to == file_in(
            dir,
            without_marker(stem_of(file_name_of(path))),
            extension_of(file_name_of(path)),
        )),
{
}

/// The capture stamp of a file, where it has one, holds a date of eight
/// digits and a time of six: what holds of every file that was read.
pub open spec fn stamp_shaped(file: FileEntry) -> bool {
    file.capture matches Some(stamp) ==> date_shaped(stamp@.0) && time_shaped(stamp@.1)
}

/// The identity that counts for a file is well formed.
pub proof fn lemma_identity_well_formed(exif: bool, file: FileEntry)
    requires
        stamp_shaped(file),
        identity_of(exif, file) is Some,
    ensures
        well_formed(identity_of(exif, file)->0),
{
    lemma_parse_sound(file.path@);
}

/// Renaming settles: a file that was renamed to the canonical name that
/// counted for it is held by the next walk, where its capture stamp is
/// read as before.
pub proof fn lemma_renamed_file_is_held(
    rules: Rules,
    file: FileEntry,
    dir: Seq<char>,
    renamed: FileEntry,
)
    requires
        !rules.compact,
        stamp_shaped(file),
        verdict_of(rules, file) is Retitle,
        renamed.path@ == file_in(
            dir,
            verdict_of(rules, file)->Retitle_0.name,
            extension_of(file_name_of(file.path@)),
        ),
        renamed.capture == file.capture,
    ensures
        verdict_of(rules, renamed) is Hold,
{
    let v = identity_of(rules.exif, file)->0;
    let ext = extension_of(file_name_of(file.path@));
    lemma_identity_well_formed(rules.exif, file);
    lemma_parse_sound(file.path@);
    lemma_extension_plain(file.path@);
    lemma_canonical_file(v, dir, ext);
    let again = parse_name(renamed.path@)->0;
    assert(again == v);
    assert(identity_of(rules.exif, renamed) == Some(v));
}

/// A plan holds no stop, or one stop, which is its last step.
pub open spec fn stops_at_end_only(steps: Seq<StepView>) -> bool {
    forall|i: int| 0 <= i < steps.len() - 1 ==> !(#[trigger] steps[i] is Abort)
}

/// A plan holds no stop at all.
pub open spec fn free_of_stops(steps: Seq<StepView>) -> bool {
    forall|i: int| 0 <= i < steps.len() ==> !(#[trigger] steps[i] is Abort)
}

/// A plan holds lines only.
pub open spec fn lines_only(steps: Seq<StepView>) -> bool {
    forall|i: int| 0 <= i < steps.len() ==> #[trigger] steps[i] is Log
}

/// The log of building a rename map holds lines only.
pub proof fn lemma_survey_lines_only(rules: Rules, level: u64, files: Seq<FileEntry>)
    ensures
        lines_only(survey_steps(rules, level, files)),
    decreases files.len(),
{
    if files.len() > 0 {
        lemma_survey_lines_only(rules, level, files.drop_last());
    }
}

/// Applying a rename map plans no stop.
pub proof fn lemma_pass_free_of_stops(
    rules: Rules,
    derived: bool,
    dir: Seq<char>,
    map: Map<Seq<char>, Target>,
    files: Seq<FileEntry>,
)
    ensures
        free_of_stops(pass_steps(rules, derived, dir, map, files)),
    decreases files.len(),
{
    if files.len() > 0 {
        lemma_pass_free_of_stops(rules, derived, dir, map, files.drop_last());
    }
}

/// The plan for the files of one directory stops at its end or not at
/// all.
pub proof fn lemma_own_stops_at_end(rules: Rules, level: u64, tree: DirTree)
    ensures
        stops_at_end_only(own_steps(rules, level, tree)),
{
    let map = survey_map(rules, tree.files@);
    lemma_survey_lines_only(rules, level, tree.files@);
    lemma_pass_free_of_stops(rules, false, tree.path@, map, tree.files@);
    match tree.preview {
        Some(listing) => {
            lemma_pass_free_of_stops(
                rules,
                true,
                preview_dir(tree.path@),
                map,
                listing@,
            );
        },
        None => {},
    }
}

/// One plan after another stops at its end or not at all, where each of
/// them does.
pub proof fn lemma_chain_stops_at_end(first: Seq<StepView>, second: Seq<StepView>)
    requires
        stops_at_end_only(first),
        stops_at_end_only(second),
    ensures
        stops_at_end_only(chain(first, second)),
{
    if !aborted(first) {
        assert forall|i: int| 0 <= i < (first + second).len() - 1 implies !(#[trigger] (first
            + second)[i] is Abort) by {
            if i < first.len() {
                assert((first + second)[i] == first[i]);
            } else {
                assert((first + second)[i] == second[i - first.len()]);
            }
        }
    }
}

/// Nothing follows a stop: the plan of a walk holds at most one stop,
/// and that is its last step.
pub proof fn lemma_walk_stops_at_end(rules: Rules, level: u64, tree: DirTree)
    ensures
        stops_at_end_only(walk_steps(rules, level, tree)),
    decreases tree,
{
    lemma_children_stop_at_end(rules, level, tree.subdirs@);
    lemma_own_stops_at_end(rules, level, tree);
    lemma_chain_stops_at_end(
        children_steps(rules, level, tree.subdirs@),
        own_steps(rules, level, tree),
    );
}

/// The plan for the subdirectories of a directory holds at most one
/// stop, and that is its last step.
pub proof fn lemma_children_stop_at_end(rules: Rules, level: u64, subdirs: Seq<DirTree>)
    ensures
        stops_at_end_only(children_steps(rules, level, subdirs)),
    decreases subdirs,
{
    if subdirs.len() > 0 {
        lemma_children_stop_at_end(rules, level, subdirs.drop_last());
        lemma_walk_stops_at_end(rules, next_level(level), subdirs.last());
        let entered = seq![StepView::Log(enter_line(level, subdirs.last().path@))];
        let inner = walk_steps(rules, next_level(level), subdirs.last());
        assert forall|i: int| 0 <= i < (entered + inner).len() - 1 implies !(#[trigger] (entered
            + inner)[i] is Abort) by {
            if i >= 1 {
                assert((entered + inner)[i] == inner[i - 1]);
            }
        }
        lemma_chain_stops_at_end(
            children_steps(rules, level, subdirs.drop_last()),
            entered + inner,
        );
    }
}

/// A plan without its renames: what a dry run leaves of it.
pub open spec fn without_renames(steps: Seq<StepView>) -> Seq<StepView>
    decreases steps.len(),
{
    if steps.len() == 0 {
        Seq::empty()
    } else if steps.last() is Rename {
        without_renames(steps.drop_last())
    } else {
        without_renames(steps.drop_last()).push(steps.last())
    }
}

/// The rules with the run made dry or not.
pub open spec fn with_dry(rules: Rules, dry: bool) -> Rules {
    Rules { dry, ..rules }
}

/// Leaving out the renames of two plans in a row.
pub proof fn lemma_without_renames_add(a: Seq<StepView>, b: Seq<StepView>)
    ensures
        without_renames(a + b) == without_renames(a) + without_renames(b),
    decreases b.len(),
{
    if b.len() == 0 {
        assert(a + b =~= a);
        assert(without_renames(a) + without_renames(b) =~= without_renames(a));
    } else {
        lemma_without_renames_add(a, b.drop_last());
        assert((a + b).drop_last() =~= a + b.drop_last());
        assert((a + b).last() == b.last());
        if !(b.last() is Rename) {
            assert(without_renames(a + b) =~= without_renames(a) + without_renames(b));
        }
    }
}

/// A plan without renames stays as it is.
pub proof fn lemma_without_renames_same(a: Seq<StepView>)
    requires
        forall|i: int| 0 <= i < a.len() ==> !(#[trigger] a[i] is Rename),
    ensures
        without_renames(a) == a,
    decreases a.len(),
{
    if a.len() > 0 {
        assert forall|i: int| 0 <= i < a.drop_last().len() implies !(#[trigger] a.drop_last()[i]
            is Rename) by {
            assert(a.drop_last()[i] == a[i]);
        }
        lemma_without_renames_same(a.drop_last());
        assert(a.drop_last().push(a.last()) =~= a);
    }
}

/// What is left of a plan without stops holds no stop.
pub proof fn lemma_without_renames_free(a: Seq<StepView>)
    requires
        free_of_stops(a),
    ensures
        free_of_stops(without_renames(a)),
    decreases a.len(),
{
    if a.len() > 0 {
        assert forall|i: int| 0 <= i < a.drop_last().len() implies !(#[trigger] a.drop_last()[i]
            is Abort) by {
            assert(a.drop_last()[i] == a[i]);
        }
        assert(!(a[a.len() - 1] is Abort));
        lemma_without_renames_free(a.drop_last());
    }
}

/// A plan that keeps its stops to its end ends in a stop just when what
/// is left of it without the renames does.
pub proof fn lemma_without_renames_aborted(a: Seq<StepView>)
    requires
        stops_at_end_only(a),
    ensures
        aborted(a) == aborted(without_renames(a)),
{
    if a.len() > 0 && !(a.last() is Abort) {
        assert forall|i: int| 0 <= i < a.len() implies !(#[trigger] a[i] is Abort) by {}
        lemma_without_renames_free(a);
        let q = without_renames(a);
        if q.len() > 0 {
            assert(!(q[q.len() - 1] is Abort));
        }
    }
}

/// Whether a run is dry makes no difference to the rename map.
pub proof fn lemma_dry_survey_map(rules: Rules, files: Seq<FileEntry>)
    ensures
        survey_map(with_dry(rules, true), files) == survey_map(with_dry(rules, false), files),
    decreases files.len(),
{
    if files.len() > 0 {
        lemma_dry_survey_map(rules, files.drop_last());
    }
}

/// Whether a run is dry makes no difference to the log of building the
/// rename map.
pub proof fn lemma_dry_survey_steps(rules: Rules, level: u64, files: Seq<FileEntry>)
    ensures
        survey_steps(with_dry(rules, true), level, files) == survey_steps(
            with_dry(rules, false),
            level,
            files,
        ),
    decreases files.len(),
{
    if files.len() > 0 {
        lemma_dry_survey_steps(rules, level, files.drop_last());
    }
}

/// A dry pass plans what the pass plans, without the renames.
pub proof fn lemma_dry_pass(
    rules: Rules,
    derived: bool,
    dir: Seq<char>,
    map: Map<Seq<char>, Target>,
    files: Seq<FileEntry>,
)
    ensures
        pass_steps(with_dry(rules, true), derived, dir, map, files) == without_renames(
            pass_steps(with_dry(rules, false), derived, dir, map, files),
        ),
    decreases files.len(),
{
    if files.len() > 0 {
        lemma_dry_pass(rules, derived, dir, map, files.drop_last());
        let live = file_steps(with_dry(rules, false), derived, dir, map, files.last().path@);
        let dry = file_steps(with_dry(rules, true), derived, dir, map, files.last().path@);
        assert(dry == without_renames(live)) by {
            reveal_with_fuel(without_renames, 3);
            if live.len() > 0 {
                assert(live.drop_last() =~= seq![live[0]]);
                assert(live.drop_last().drop_last() =~= Seq::<StepView>::empty());
                assert(without_renames(live) =~= dry);
            }
        }
        lemma_without_renames_add(
            pass_steps(with_dry(rules, false), derived, dir, map, files.drop_last()),
            live,
        );
    }
}

/// Whether a run is dry makes no difference to the contested name of a
/// pass.
pub proof fn lemma_dry_clash(
    rules: Rules,
    derived: bool,
    map: Map<Seq<char>, Target>,
    files: Seq<FileEntry>,
)
    ensures
        clash_name(with_dry(rules, true), derived, map, files) == clash_name(
            with_dry(rules, false),
            derived,
            map,
            files,
        ),
{
    assert(listing_dests(with_dry(rules, true), derived, map, files) =~= listing_dests(
        with_dry(rules, false),
        derived,
        map,
        files,
    ));
}

/// A dry run plans for the files of a directory what the run plans,
/// without the renames.
pub proof fn lemma_dry_own(rules: Rules, level: u64, tree: DirTree)
    ensures
        own_steps(with_dry(rules, true), level, tree) == without_renames(
            own_steps(with_dry(rules, false), level, tree),
        ),
{
    let dry = with_dry(rules, true);
    let live = with_dry(rules, false);
    let map = survey_map(live, tree.files@);
    lemma_dry_survey_map(rules, tree.files@);
    lemma_dry_survey_steps(rules, level, tree.files@);
    lemma_survey_lines_only(live, level, tree.files@);
    lemma_without_renames_same(survey_steps(live, level, tree.files@));
    lemma_dry_clash(rules, false, map, tree.files@);
    lemma_dry_pass(rules, false, tree.path@, map, tree.files@);
    match tree.preview {
        Some(listing) => {
            lemma_dry_clash(rules, true, map, listing@);
            lemma_dry_pass(rules, true, preview_dir(tree.path@), map, listing@);
            lemma_without_renames_add(
                pass_steps(live, false, tree.path@, map, tree.files@),
                pass_steps(live, true, preview_dir(tree.path@), map, listing@),
            );
        },
        None => {},
    }
    assert(rename_steps(dry, tree, map) == without_renames(rename_steps(live, tree, map))) by {
        reveal_with_fuel(without_renames, 2);
        let stop = rename_steps(live, tree, map);
        if stop.len() == 1 && stop[0] is Abort {
            assert(stop.drop_last() =~= Seq::<StepView>::empty());
            assert(without_renames(stop) =~= stop);
        }
    }
    lemma_without_renames_add(
        survey_steps(live, level, tree.files@),
        rename_steps(live, tree, map),
    );
}

/// Leaving out the renames of one plan after another.
pub proof fn lemma_without_renames_chain(first: Seq<StepView>, second: Seq<StepView>)
    requires
        stops_at_end_only(first),
    ensures
        without_renames(chain(first, second)) == chain(
            without_renames(first),
            without_renames(second),
        ),
{
    lemma_without_renames_aborted(first);
    lemma_without_renames_add(first, second);
}

/// Dry run: the plan of a dry run is the plan of the run without its
/// renames. It holds the same lines in the same order, and the same
/// stop.
pub proof fn lemma_dry_run(rules: Rules, level: u64, tree: DirTree)
    ensures
        walk_steps(with_dry(rules, true), level, tree) == without_renames(
            walk_steps(with_dry(rules, false), level, tree),
        ),
    decreases tree,
{
    let live = with_dry(rules, false);
    lemma_dry_children(rules, level, tree.subdirs@);
    lemma_dry_own(rules, level, tree);
    lemma_children_stop_at_end(live, level, tree.subdirs@);
    lemma_without_renames_chain(
        children_steps(live, level, tree.subdirs@),
        own_steps(live, level, tree),
    );
}

/// The plan of a dry run for the subdirectories of a directory is the
/// plan of the run for them without its renames.
pub proof fn lemma_dry_children(rules: Rules, level: u64, subdirs: Seq<DirTree>)
    ensures
        children_steps(with_dry(rules, true), level, subdirs) == without_renames(
            children_steps(with_dry(rules, false), level, subdirs),
        ),
    decreases subdirs,
{
    let live = with_dry(rules, false);
    if subdirs.len() > 0 {
        lemma_dry_children(rules, level, subdirs.drop_last());
        lemma_dry_run(rules, next_level(level), subdirs.last());
        lemma_children_stop_at_end(live, level, subdirs.drop_last());
        let entered = seq![StepView::Log(enter_line(level, subdirs.last().path@))];
        let inner = walk_steps(live, next_level(level), subdirs.last());
        lemma_without_renames_same(entered);
        lemma_without_renames_add(entered, inner);
        lemma_without_renames_chain(
            children_steps(live, level, subdirs.drop_last()),
            entered + inner,
        );
    }
}

/// The renames of a plan, in order.
pub open spec fn renames_of(steps: Seq<StepView>) -> Seq<StepView>
    decreases steps.len(),
{
    if steps.len() == 0 {
        Seq::empty()
    } else if steps.last() is Rename {
        renames_of(steps.drop_last()).push(steps.last())
    } else {
        renames_of(steps.drop_last())
    }
}

/// The renames of two plans in a row.
pub proof fn lemma_renames_add(a: Seq<StepView>, b: Seq<StepView>)
    ensures
        renames_of(a + b) == renames_of(a) + renames_of(b),
    decreases b.len(),
{
    if b.len() == 0 {
        assert(a + b =~= a);
        assert(renames_of(a) + renames_of(b) =~= renames_of(a));
    } else {
        lemma_renames_add(a, b.drop_last());
        assert((a + b).drop_last() =~= a + b.drop_last());
        assert((a + b).last() == b.last());
        if b.last() is Rename {
            assert(renames_of(a + b) =~= renames_of(a) + renames_of(b));
        }
    }
}

/// The renames that the walks of the subdirectories of a directory plan,
/// taken together, whatever their order.
pub open spec fn renames_below(rules: Rules, level: u64, subdirs: Seq<DirTree>) -> Multiset<
    StepView,
>
    decreases subdirs.len(),
{
    if subdirs.len() == 0 {
        Multiset::empty()
    } else {
        renames_below(rules, level, subdirs.drop_last()).add(
            renames_of(walk_steps(rules, next_level(level), subdirs.last())).to_multiset(),
        )
    }
}

/// No walk of a subdirectory stops.
pub open spec fn none_stops(rules: Rules, level: u64, subdirs: Seq<DirTree>) -> bool {
    forall|i: int|
        0 <= i < subdirs.len() ==> !aborted(
            walk_steps(rules, next_level(level), #[trigger] subdirs[i]),
        )
}

/// The plan for the subdirectories of a directory stops just when the
/// walk of one of them does; where none does, its renames are those of
/// the walks taken together.
pub proof fn lemma_children_renames(rules: Rules, level: u64, subdirs: Seq<DirTree>)
    ensures
        !aborted(children_steps(rules, level, subdirs)) <==> none_stops(rules, level, subdirs),
        none_stops(rules, level, subdirs) ==> renames_of(
            children_steps(rules, level, subdirs),
        ).to_multiset() == renames_below(rules, level, subdirs),
    decreases subdirs.len(),
{
    if subdirs.len() == 0 {
        let none = renames_of(children_steps(rules, level, subdirs));
        assert(none =~= Seq::<StepView>::empty());
        none.to_multiset_ensures();
        assert forall|x: StepView| none.to_multiset().count(x) == 0 by {
            to_multiset_contains(none, x);
        }
        assert(none.to_multiset() =~= Multiset::<StepView>::empty());
    } else {
        let front = subdirs.drop_last();
        let before = children_steps(rules, level, front);
        let entered = seq![StepView::Log(enter_line(level, subdirs.last().path@))];
        let inner = walk_steps(rules, next_level(level), subdirs.last());
        lemma_children_renames(rules, level, front);
        assert(aborted(entered + inner) == aborted(inner)) by {
            if inner.len() > 0 {
                assert((entered + inner).last() == inner.last());
            } else {
                assert(entered + inner =~= entered);
            }
        }
        if none_stops(rules, level, subdirs) {
            assert forall|i: int| 0 <= i < front.len() implies !aborted(
                walk_steps(rules, next_level(level), #[trigger] front[i]),
            ) by {
                assert(front[i] == subdirs[i]);
            }
            assert(!aborted(inner)) by {
                assert(subdirs[subdirs.len() - 1] == subdirs.last());
            }
            assert(!aborted(before + (entered + inner))) by {
                assert((before + (entered + inner)).last() == (entered + inner).last());
            }
            lemma_renames_add(before, entered + inner);
            lemma_renames_add(entered, inner);
            assert(renames_of(entered) =~= Seq::<StepView>::empty()) by {
                reveal_with_fuel(renames_of, 2);
            }
            assert(renames_of(entered) + renames_of(inner) =~= renames_of(inner));
            lemma_multiset_commutative(renames_of(before), renames_of(inner));
        }
        if !aborted(children_steps(rules, level, subdirs)) {
            assert(!aborted(before));
            assert(!aborted(entered + inner)) by {
                assert((before + (entered + inner)).last() == (entered + inner).last());
            }
            assert forall|i: int| 0 <= i < subdirs.len() implies !aborted(
                walk_steps(rules, next_level(level), #[trigger] subdirs[i]),
            ) by {
                if i < front.len() {
                    assert(front[i] == subdirs[i]);
                }
            }
        }
    }
}

/// Taking one subdirectory out of the row takes its renames out of the
/// renames of the row.
pub proof fn lemma_renames_below_remove(rules: Rules, level: u64, subdirs: Seq<DirTree>, k: int)
    requires
        0 <= k < subdirs.len(),
    ensures
        renames_below(rules, level, subdirs) == renames_below(
            rules,
            level,
            subdirs.remove(k),
        ).add(renames_of(walk_steps(rules, next_level(level), subdirs[k])).to_multiset()),
    decreases subdirs.len(),
{
    if k == subdirs.len() - 1 {
        assert(subdirs.remove(k) =~= subdirs.drop_last());
    } else {
        lemma_renames_below_remove(rules, level, subdirs.drop_last(), k);
        assert(subdirs.remove(k).drop_last() =~= subdirs.drop_last().remove(k));
        assert(subdirs.remove(k).last() == subdirs.last());
        assert(subdirs.drop_last()[k] == subdirs[k]);
        assert(renames_below(rules, level, subdirs) =~= renames_below(
            rules,
            level,
            subdirs.remove(k),
        ).add(renames_of(walk_steps(rules, next_level(level), subdirs[k])).to_multiset()));
    }
}

/// The renames of a row of subdirectories do not depend on the order of
/// the row.
pub proof fn lemma_renames_below_any_order(
    rules: Rules,
    level: u64,
    one: Seq<DirTree>,
    other: Seq<DirTree>,
)
    requires
        one.to_multiset() == other.to_multiset(),
    ensures
        renames_below(rules, level, one) == renames_below(rules, level, other),
    decreases one.len(),
{
    one.to_multiset_ensures();
    other.to_multiset_ensures();
    if one.len() == 0 {
        assert(other.len() == 0);
    } else {
        let x = one.last();
        assert(one.contains(x)) by {
            assert(one[one.len() - 1] == x);
        }
        to_multiset_contains(one, x);
        to_multiset_contains(other, x);
        let k = choose|k: int| 0 <= k < other.len() && other[k] == x;
        to_multiset_remove(other, k);
        to_multiset_remove(one, one.len() - 1);
        assert(one.remove(one.len() - 1) =~= one.drop_last());
        lemma_renames_below_any_order(rules, level, one.drop_last(), other.remove(k));
        lemma_renames_below_remove(rules, level, other, k);
    }
}

/// Whether a walk of a subdirectory stops does not depend on the order
/// of the row.
pub proof fn lemma_none_stops_any_order(
    rules: Rules,
    level: u64,
    one: Seq<DirTree>,
    other: Seq<DirTree>,
)
    requires
        one.to_multiset() == other.to_multiset(),
        none_stops(rules, level, one),
    ensures
        none_stops(rules, level, other),
{
    assert forall|i: int| 0 <= i < other.len() implies !aborted(
        walk_steps(rules, next_level(level), #[trigger] other[i]),
    ) by {
        let x = other[i];
        assert(other.contains(x));
        to_multiset_contains(other, x);
        to_multiset_contains(one, x);
        let k = choose|k: int| 0 <= k < one.len() && one[k] == x;
        assert(!aborted(walk_steps(rules, next_level(level), one[k])));
    }
}

/// Order of siblings: of two trees that differ only in the order of the
/// subdirectories of their root, where the walk of the one does not stop,
/// neither does the walk of the other, and both plan the same renames.
pub proof fn lemma_sibling_order(rules: Rules, level: u64, one: DirTree, other: DirTree)
    requires
        one.path == other.path,
        one.files == other.files,
        one.preview == other.preview,
        one.subdirs@.to_multiset() == other.subdirs@.to_multiset(),
        !aborted(walk_steps(rules, level, one)),
    ensures
        !aborted(walk_steps(rules, level, other)),
        renames_of(walk_steps(rules, level, one)).to_multiset() == renames_of(
            walk_steps(rules, level, other),
        ).to_multiset(),
{
    let own = own_steps(rules, level, one);
    assert(own == own_steps(rules, level, other));
    let a = children_steps(rules, level, one.subdirs@);
    let b = children_steps(rules, level, other.subdirs@);
    lemma_children_renames(rules, level, one.subdirs@);
    lemma_children_renames(rules, level, other.subdirs@);
    assert(!aborted(a));
    lemma_none_stops_any_order(rules, level, one.subdirs@, other.subdirs@);
    lemma_renames_below_any_order(rules, level, one.subdirs@, other.subdirs@);
    assert(!aborted(b));
    assert(aborted(a + own) == aborted(b + own)) by {
        if own.len() > 0 {
            assert((a + own).last() == own.last());
            assert((b + own).last() == own.last());
        } else {
            assert(a + own =~= a);
            assert(b + own =~= b);
        }
    }
    lemma_renames_add(a, own);
    lemma_renames_add(b, own);
    lemma_multiset_commutative(renames_of(a), renames_of(own));
    lemma_multiset_commutative(renames_of(b), renames_of(own));
}

/// Where the new name of some file up to `i` is taken, there is a first
/// file whose new name is taken.
proof fn lemma_first_clash_exists(names: Seq<Seq<char>>, dests: Seq<Option<Seq<char>>>, i: int)
    requires
        0 <= i < names.len(),
        clashes(names, dests, i),
    ensures
        exists|k: int| is_first_clash(names, dests, k),
    decreases i,
{
    if exists|k: int| 0 <= k < i && clashes(names, dests, k) {
        let k = choose|k: int| 0 <= k < i && clashes(names, dests, k);
        lemma_first_clash_exists(names, dests, k);
    } else {
        assert(is_first_clash(names, dests, i));
    }
}

/// A pass has no contested name just when no file of it is to get a
/// name that is taken.
pub proof fn lemma_clash_free(names: Seq<Seq<char>>, dests: Seq<Option<Seq<char>>>)
    ensures
        first_clash(names, dests) is None <==> clash_free(names, dests),
{
    if !clash_free(names, dests) {
        let i = choose|i: int| 0 <= i < names.len() && clashes(names, dests, i);
        lemma_first_clash_exists(names, dests, i);
    }
}

/// Safe renames: where a pass is checked and found free of clashes, no
/// two of its files are to get the same name, and none is to get a name
/// that a file of the listing has.
pub proof fn lemma_checked_pass_is_safe(
    rules: Rules,
    derived: bool,
    map: Map<Seq<char>, Target>,
    files: Seq<FileEntry>,
    i: int,
    j: int,
)
    requires
        clash_name(rules, derived, map, files) is None,
        0 <= i < files.len(),
        0 <= j < files.len(),
        listing_dests(rules, derived, map, files)[i] is Some,
    ensures
        listing_names(files)[j] != listing_dests(rules, derived, map, files)[i]->0,
        i != j ==> listing_dests(rules, derived, map, files)[j] != listing_dests(
            rules,
            derived,
            map,
            files,
        )[i],
{
    let names = listing_names(files);
    let dests = listing_dests(rules, derived, map, files);
    if first_clash(names, dests) is Some {
        let k = first_clash(names, dests)->0;
        assert(is_first_clash(names, dests, k));
        assert(dests[k] is Some);
    }
    lemma_clash_free(names, dests);
    assert(!clashes(names, dests, i));
    assert(!hits(names, dests, i, j));
}

} // verus!
