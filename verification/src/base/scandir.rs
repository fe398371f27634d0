//! The listing of a directory, parted into files and subdirectories and
//! put in the order of the names.

use vstd::prelude::*;
use vstd::string::*;
use vstd::seq_lib::*;
use crate::base::reconcile::preview_name;
use crate::text::{chars_of, file_name, file_name_of, same_chars, text_le};

verus! {

/// An entry of a directory as it was read: its path, and whether it is a
/// directory.
#[derive(Debug, PartialEq, Eq)]
pub struct DirEntry {
    pub path: String,
    pub is_dir: bool,
}

/// The mathematical value of a [`DirEntry`].
pub struct DirEntryView {
    pub path: Seq<char>,
    pub is_dir: bool,
}

impl View for DirEntry {
    type V = DirEntryView;

    open spec fn view(&self) -> DirEntryView {
        DirEntryView { path: self.path@, is_dir: self.is_dir }
    }
}

/// The values of a sequence of entries.
pub open spec fn entry_views(entries: Seq<DirEntry>) -> Seq<DirEntryView> {
    entries.map_values(|e: DirEntry| e@)
}

/// An entry that is listed among the files: whatever is no directory.
pub open spec fn listed_file(e: DirEntryView) -> bool {
    !e.is_dir
}

/// An entry that is listed among the subdirectories: a directory whose
/// name is not that of the preview directory.
pub open spec fn listed_dir(e: DirEntryView) -> bool {
    e.is_dir && file_name_of(e.path) != preview_name()
}

/// The entries are in the order of their file names.
pub open spec fn sorted_by_name(entries: Seq<DirEntryView>) -> bool {
    forall|i: int, j: int|
        0 <= i < j < entries.len() ==> text_le(
            file_name_of(#[trigger] entries[i].path),
            file_name_of(#[trigger] entries[j].path),
        )
}

/// The entries whose file name is `name`, in their order.
pub open spec fn with_name(entries: Seq<DirEntryView>, name: Seq<char>) -> Seq<DirEntryView>
    decreases entries.len(),
{
    if entries.len() == 0 {
        Seq::empty()
    } else if file_name_of(entries.last().path) == name {
        with_name(entries.drop_last(), name).push(entries.last())
    } else {
        with_name(entries.drop_last(), name)
    }
}

/// Two listings hold, under each file name, the same entries in the same
/// order.
pub open spec fn same_within_names(a: Seq<DirEntryView>, b: Seq<DirEntryView>) -> bool {
    forall|name: Seq<char>| #[trigger] with_name(a, name) == with_name(b, name)
}

/// The entries of one name in two listings in a row.
pub proof fn lemma_with_name_add(a: Seq<DirEntryView>, b: Seq<DirEntryView>, name: Seq<char>)
    ensures
        with_name(a + b, name) == with_name(a, name) + with_name(b, name),
    decreases b.len(),
{
    if b.len() == 0 {
        assert(a + b =~= a);
        assert(with_name(a, name) + with_name(b, name) =~= with_name(a, name));
    } else {
        lemma_with_name_add(a, b.drop_last(), name);
        assert((a + b).drop_last() =~= a + b.drop_last());
        assert((a + b).last() == b.last());
        assert(with_name(a + b, name) =~= with_name(a, name) + with_name(b, name));
    }
}

/// A listing without an entry of some name holds no entries of that
/// name; and the entries of a name are entries of the listing, of that
/// name.
pub proof fn lemma_with_name_members(entries: Seq<DirEntryView>, name: Seq<char>)
    ensures
        (forall|i: int| 0 <= i < entries.len() ==> file_name_of(#[trigger] entries[i].path) != name)
            ==> with_name(entries, name).len() == 0,
        forall|k: int|
            0 <= k < with_name(entries, name).len() ==> file_name_of(
                #[trigger] with_name(entries, name)[k].path,
            ) == name && entries.contains(with_name(entries, name)[k]),
    decreases entries.len(),
{
    if entries.len() > 0 {
        let front = entries.drop_last();
        lemma_with_name_members(front, name);
        if forall|i: int|
            0 <= i < entries.len() ==> file_name_of(#[trigger] entries[i].path) != name {
            assert forall|i: int| 0 <= i < front.len() implies file_name_of(
                #[trigger] front[i].path,
            ) != name by {
                assert(front[i] == entries[i]);
            }
            assert(file_name_of(entries[entries.len() - 1].path) != name);
        }
        assert forall|k: int| 0 <= k < with_name(entries, name).len() implies file_name_of(
            #[trigger] with_name(entries, name)[k].path,
        ) == name && entries.contains(with_name(entries, name)[k]) by {
            if k < with_name(front, name).len() {
                let x = with_name(front, name)[k];
                assert(file_name_of(with_name(front, name)[k].path) == name);
                assert(front.contains(x));
                let i = choose|i: int| 0 <= i < front.len() && front[i] == x;
                assert(entries[i] == x);
            } else {
                assert(entries[entries.len() - 1] == entries.last());
            }
        }
    }
}

/// Putting an entry before entries of other names only is, under each
/// name, the same as putting it at the end.
pub proof fn lemma_insert_keeps_order(before: Seq<DirEntryView>, at: int, added: DirEntryView)
    requires
        0 <= at <= before.len(),
        forall|k: int|
            at <= k < before.len() ==> file_name_of(#[trigger] before[k].path) != file_name_of(
                added.path,
            ),
    ensures
        same_within_names(before.insert(at, added), before.push(added)),
{
    let after = before.insert(at, added);
    let head = before.take(at);
    let tail = before.skip(at);
    assert(after =~= head.push(added) + tail);
    assert(before.push(added) =~= head + tail.push(added));
    assert(head.push(added).drop_last() =~= head);
    assert(tail.push(added).drop_last() =~= tail);
    assert forall|n: Seq<char>| #[trigger]
        with_name(after, n) == with_name(before.push(added), n) by {
        lemma_with_name_add(head.push(added), tail, n);
        lemma_with_name_add(head, tail.push(added), n);
        if file_name_of(added.path) == n {
            assert forall|i: int| 0 <= i < tail.len() implies file_name_of(
                #[trigger] tail[i].path,
            ) != n by {
                assert(tail[i] == before[at + i]);
            }
            lemma_with_name_members(tail, n);
            assert(with_name(tail, n) =~= Seq::<DirEntryView>::empty());
            assert(with_name(tail.push(added), n) =~= seq![added]);
            assert(with_name(head.push(added), n) + with_name(tail, n) =~= with_name(head, n)
                + with_name(tail.push(added), n));
        } else {
            assert(with_name(head.push(added), n) + with_name(tail, n) =~= with_name(head, n)
                + with_name(tail.push(added), n));
        }
    }
}

/// A text comes before itself.
pub proof fn lemma_text_le_reflexive(a: Seq<char>)
    ensures
        text_le(a, a),
    decreases a.len(),
{
    if a.len() > 0 {
        lemma_text_le_reflexive(a.skip(1));
    }
}

/// Of two texts one comes before the other or equals it.
pub proof fn lemma_text_le_total(a: Seq<char>, b: Seq<char>)
    ensures
        text_le(a, b) || text_le(b, a),
    decreases a.len(),
{
    if a.len() > 0 && b.len() > 0 && a[0] == b[0] {
        lemma_text_le_total(a.skip(1), b.skip(1));
    }
}

/// The order of texts is transitive.
pub proof fn lemma_text_le_transitive(a: Seq<char>, b: Seq<char>, c: Seq<char>)
    requires
        text_le(a, b),
        text_le(b, c),
    ensures
        text_le(a, c),
    decreases a.len(),
{
    if a.len() > 0 && b.len() > 0 && c.len() > 0 && a[0] == b[0] && b[0] == c[0] {
        lemma_text_le_transitive(a.skip(1), b.skip(1), c.skip(1));
    }
}

/// Texts that come before each other are equal.
pub proof fn lemma_text_le_antisymmetric(a: Seq<char>, b: Seq<char>)
    requires
        text_le(a, b),
        text_le(b, a),
    ensures
        a == b,
    decreases a.len(),
{
    if a.len() > 0 && b.len() > 0 {
        lemma_text_le_antisymmetric(a.skip(1), b.skip(1));
        assert(a =~= seq![a[0]] + a.skip(1));
        assert(b =~= seq![b[0]] + b.skip(1));
    } else {
        assert(a =~= b);
    }
}

/// A listing is told by its order: two listings in the order of the
/// names that hold, under each name, the same entries in the same order
/// are the same.
pub proof fn lemma_listing_unique(a: Seq<DirEntryView>, b: Seq<DirEntryView>)
    requires
        sorted_by_name(a),
        sorted_by_name(b),
        same_within_names(a, b),
    ensures
        a == b,
    decreases a.len(),
{
    if a.len() == 0 {
        if b.len() > 0 {
            let m = file_name_of(b.last().path);
            assert(with_name(a, m) == with_name(b, m));
        }
        assert(a =~= b);
    } else {
        let x = a.last();
        let n = file_name_of(x.path);
        assert(with_name(a, n) == with_name(b, n));
        lemma_with_name_members(b, n);
        assert(with_name(a, n).last() == x);
        assert(b.len() > 0);
        let y = b.last();
        let m = file_name_of(y.path);
        assert(with_name(a, m) == with_name(b, m));
        lemma_with_name_members(a, m);
        assert(m == n) by {
            let in_a = with_name(a, m)[with_name(a, m).len() - 1];
            assert(file_name_of(with_name(a, m)[with_name(a, m).len() - 1].path) == m);
            assert(a.contains(in_a));
            let i = choose|i: int| 0 <= i < a.len() && a[i] == in_a;
            if i < a.len() - 1 {
                assert(text_le(file_name_of(a[i].path), file_name_of(a[a.len() - 1].path)));
            } else {
                lemma_text_le_reflexive(m);
            }
            let in_b = with_name(b, n)[with_name(b, n).len() - 1];
            assert(file_name_of(with_name(b, n)[with_name(b, n).len() - 1].path) == n);
            assert(b.contains(in_b));
            let j = choose|j: int| 0 <= j < b.len() && b[j] == in_b;
            if j < b.len() - 1 {
                assert(text_le(file_name_of(b[j].path), file_name_of(b[b.len() - 1].path)));
            } else {
                lemma_text_le_reflexive(n);
            }
            lemma_text_le_antisymmetric(m, n);
        }
        assert(with_name(b, n).last() == y);
        assert(x == y);
        let front_a = a.drop_last();
        let front_b = b.drop_last();
        assert forall|name: Seq<char>| #[trigger]
            with_name(front_a, name) == with_name(front_b, name) by {
            assert(with_name(a, name) == with_name(b, name));
            if name == n {
                assert(with_name(a, name).drop_last() =~= with_name(front_a, name));
                assert(with_name(b, name).drop_last() =~= with_name(front_b, name));
            }
        }
        assert forall|i: int, j: int| 0 <= i < j < front_a.len() implies text_le(
            file_name_of(#[trigger] front_a[i].path),
            file_name_of(#[trigger] front_a[j].path),
        ) by {
            assert(front_a[i] == a[i] && front_a[j] == a[j]);
        }
        assert forall|i: int, j: int| 0 <= i < j < front_b.len() implies text_le(
            file_name_of(#[trigger] front_b[i].path),
            file_name_of(#[trigger] front_b[j].path),
        ) by {
            assert(front_b[i] == b[i] && front_b[j] == b[j]);
        }
        lemma_listing_unique(front_a, front_b);
        assert(a =~= front_a.push(x));
        assert(b =~= front_b.push(y));
    }
}

/// Whether `a` comes before `b` in dictionary order or equals it.
pub(crate) fn name_le(a: &Vec<char>, b: &Vec<char>) -> (r: bool)
    ensures
        r == text_le(a@, b@),
{
    let mut i: usize = 0;
    assert(a@.skip(0) =~= a@);
    assert(b@.skip(0) =~= b@);
    while i < a.len() && i < b.len()
        invariant
            i <= a.len(),
            i <= b.len(),
            text_le(a@, b@) == text_le(a@.skip(i as int), b@.skip(i as int)),
        decreases a.len() - i,
    {
        if a[i] != b[i] {
            return a[i] < b[i];
        }
        assert(a@.skip(i as int).skip(1) =~= a@.skip(i + 1));
        assert(b@.skip(i as int).skip(1) =~= b@.skip(i + 1));
        i = i + 1;
    }
    i == a.len()
}

/// Puts `entry`, whose file name is `name`, into `sorted` at its place
/// in the order of the names, behind the entries of the same name.
fn place_entry(
    sorted: &mut Vec<DirEntry>,
    names: &mut Vec<Vec<char>>,
    entry: DirEntry,
    name: Vec<char>,
)
    requires
        old(names).len() == old(sorted).len(),
        forall|k: int|
            0 <= k < old(sorted).len() ==> (#[trigger] old(names)@[k])@ == file_name_of(
                old(sorted)@[k].path@,
            ),
        sorted_by_name(entry_views(old(sorted)@)),
        name@ == file_name_of(entry.path@),
    ensures
        final(names).len() == final(sorted).len(),
        forall|k: int|
            0 <= k < final(sorted).len() ==> (#[trigger] final(names)@[k])@ == file_name_of(
                final(sorted)@[k].path@,
            ),
        sorted_by_name(entry_views(final(sorted)@)),
        entry_views(final(sorted)@).to_multiset() == entry_views(old(sorted)@).to_multiset().insert(
            entry@,
        ),
        same_within_names(entry_views(final(sorted)@), entry_views(old(sorted)@).push(entry@)),
{
    let mut at: usize = sorted.len();
    while at > 0 && !name_le(&names[at - 1], &name)
        invariant
            at <= sorted.len(),
            names.len() == sorted.len(),
            *names == *old(names),
            *sorted == *old(sorted),
            forall|k: int|
                0 <= k < sorted.len() ==> (#[trigger] names@[k])@ == file_name_of(
                    sorted@[k].path@,
                ),
            forall|k: int| at <= k < sorted.len() ==> !text_le((#[trigger] names@[k])@, name@),
        decreases at,
    {
        at = at - 1;
    }
    let ghost before = entry_views(sorted@);
    proof {
        assert forall|k: int| 0 <= k < at implies text_le(
            file_name_of(#[trigger] before[k].path),
            name@,
        ) by {
            assert(names@[at - 1]@ == file_name_of(before[at - 1].path));
            if k < at - 1 {
                lemma_text_le_transitive(
                    file_name_of(before[k].path),
                    file_name_of(before[at - 1].path),
                    name@,
                );
            }
        }
        assert forall|k: int| at <= k < before.len() implies text_le(
            name@,
            file_name_of(#[trigger] before[k].path),
        ) by {
            assert(names@[k]@ == file_name_of(before[k].path));
            lemma_text_le_total(name@, file_name_of(before[k].path));
        }
    }
    let ghost added = entry@;
    sorted.insert(at, entry);
    names.insert(at, name);
    proof {
        let after = entry_views(sorted@);
        assert(after =~= before.insert(at as int, added));
        to_multiset_insert(before, at as int, added);
        assert forall|i: int, j: int| 0 <= i < j < after.len() implies text_le(
            file_name_of(#[trigger] after[i].path),
            file_name_of(#[trigger] after[j].path),
        ) by {
            if j < at {
                assert(after[i] == before[i] && after[j] == before[j]);
            } else if j == at {
                assert(after[i] == before[i]);
            } else if i < at {
                assert(after[i] == before[i] && after[j] == before[j - 1]);
            } else if i == at {
                assert(after[j] == before[j - 1]);
            } else {
                assert(after[i] == before[i - 1] && after[j] == before[j - 1]);
            }
        }
        assert forall|k: int| at <= k < before.len() implies file_name_of(
            #[trigger] before[k].path,
        ) != file_name_of(added.path) by {
            assert(names@[k + 1]@ == file_name_of(before[k].path));
            assert(!text_le(file_name_of(before[k].path), name@));
            lemma_text_le_reflexive(name@);
        }
        lemma_insert_keeps_order(before, at as int, added);
    }
}

/// Parts the entries of a directory into its files and its
/// subdirectories, each in the order of the file names. The preview
/// directory is left out of the subdirectories.
pub fn scan(entries: &Vec<DirEntry>) -> (r: (Vec<DirEntry>, Vec<DirEntry>))
    ensures
        sorted_by_name(entry_views(r.0@)),
        sorted_by_name(entry_views(r.1@)),
        entry_views(r.0@).to_multiset() == entry_views(entries@).filter(
            |e: DirEntryView| listed_file(e),
        ).to_multiset(),
        entry_views(r.1@).to_multiset() == entry_views(entries@).filter(
            |e: DirEntryView| listed_dir(e),
        ).to_multiset(),
        same_within_names(
            entry_views(r.0@),
            entry_views(entries@).filter(|e: DirEntryView| listed_file(e)),
        ),
        same_within_names(
            entry_views(r.1@),
            entry_views(entries@).filter(|e: DirEntryView| listed_dir(e)),
        ),
{
    let mut files: Vec<DirEntry> = Vec::new();
    let mut dirs: Vec<DirEntry> = Vec::new();
    let mut file_names: Vec<Vec<char>> = Vec::new();
    let mut dir_names: Vec<Vec<char>> = Vec::new();
    let reserved = chars_of("preview");
    let ghost all = entry_views(entries@);
    let ghost is_file = |e: DirEntryView| listed_file(e);
    let ghost is_dir = |e: DirEntryView| listed_dir(e);
    let mut i: usize = 0;
    proof {
        assert(all.take(0) =~= Seq::<DirEntryView>::empty());
        assert(entry_views(files@) =~= all.take(0).filter(is_file));
        assert(entry_views(dirs@) =~= all.take(0).filter(is_dir));
    }
    while i < entries.len()
        invariant
            i <= entries.len(),
            all == entry_views(entries@),
            is_file == (|e: DirEntryView| listed_file(e)),
            is_dir == (|e: DirEntryView| listed_dir(e)),
            reserved@ == preview_name(),
            file_names.len() == files.len(),
            dir_names.len() == dirs.len(),
            forall|k: int|
                0 <= k < files.len() ==> (#[trigger] file_names@[k])@ == file_name_of(
                    files@[k].path@,
                ),
            forall|k: int|
                0 <= k < dirs.len() ==> (#[trigger] dir_names@[k])@ == file_name_of(
                    dirs@[k].path@,
                ),
            sorted_by_name(entry_views(files@)),
            sorted_by_name(entry_views(dirs@)),
            entry_views(files@).to_multiset() == all.take(i as int).filter(is_file).to_multiset(),
            entry_views(dirs@).to_multiset() == all.take(i as int).filter(is_dir).to_multiset(),
            same_within_names(entry_views(files@), all.take(i as int).filter(is_file)),
            same_within_names(entry_views(dirs@), all.take(i as int).filter(is_dir)),
        decreases entries.len() - i,
    {
        let e = &entries[i];
        let path = chars_of(e.path.as_str());
        let name = file_name(&path);
        let entry = DirEntry { path: e.path.clone(), is_dir: e.is_dir };
        proof {
            assert(all.take(i + 1) =~= all.take(i as int).push(all[i as int]));
            assert(all[i as int] == entry@);
            all.take(i as int).lemma_filter_push(entry@, is_file);
            all.take(i as int).lemma_filter_push(entry@, is_dir);
            to_multiset_build(all.take(i as int).filter(is_file), entry@);
            to_multiset_build(all.take(i as int).filter(is_dir), entry@);
        }
        let ghost files_before = entry_views(files@);
        let ghost dirs_before = entry_views(dirs@);
        if e.is_dir {
            if !same_chars(&name, &reserved) {
                place_entry(&mut dirs, &mut dir_names, entry, name);
            }
        } else {
            place_entry(&mut files, &mut file_names, entry, name);
        }
        proof {
            let added = all[i as int];
            assert forall|n: Seq<char>| #[trigger]
                with_name(entry_views(files@), n) == with_name(
                    all.take(i + 1).filter(is_file),
                    n,
                ) by {
                assert(with_name(files_before, n) == with_name(
                    all.take(i as int).filter(is_file),
                    n,
                ));
                if listed_file(added) {
                    assert(with_name(entry_views(files@), n) == with_name(
                        files_before.push(added),
                        n,
                    ));
                    assert(files_before.push(added).drop_last() =~= files_before);
                    assert(all.take(i as int).filter(is_file).push(added).drop_last()
                        =~= all.take(i as int).filter(is_file));
                }
            }
            assert forall|n: Seq<char>| #[trigger]
                with_name(entry_views(dirs@), n) == with_name(
                    all.take(i + 1).filter(is_dir),
                    n,
                ) by {
                assert(with_name(dirs_before, n) == with_name(
                    all.take(i as int).filter(is_dir),
                    n,
                ));
                if listed_dir(added) {
                    assert(with_name(entry_views(dirs@), n) == with_name(
                        dirs_before.push(added),
                        n,
                    ));
                    assert(dirs_before.push(added).drop_last() =~= dirs_before);
                    assert(all.take(i as int).filter(is_dir).push(added).drop_last()
                        =~= all.take(i as int).filter(is_dir));
                }
            }
        }
        i = i + 1;
    }
    assert(all.take(entries@.len() as int) =~= all);
    (files, dirs)
}

} // verus!
