//! The rename map of one directory: from the stem a file has now to the
//! canonical name it is to get, with the identity behind that name.

use vstd::prelude::*;
use vstd::string::*;
use crate::base::identity::{Identity, IdentityView};

verus! {

/// What a stem is to become.
#[derive(Debug, PartialEq, Eq)]
pub struct RenameEntry {
    pub name: String,
    pub meta: Identity,
}

/// The mathematical value of a [`RenameEntry`].
pub struct Target {
    pub name: Seq<char>,
    pub identity: IdentityView,
}

impl View for RenameEntry {
    type V = Target;

    open spec fn view(&self) -> Target {
        Target { name: self.name@, identity: self.meta@ }
    }
}

/// A map from stems to rename entries.
///
/// It is kept as the journal of its insertions: of two entries for one
/// stem the later counts, so each stem maps to one entry.
pub struct NameMap {
    journal: Vec<(String, RenameEntry)>,
}

/// The map that a journal of insertions stands for.
pub open spec fn map_of(journal: Seq<(String, RenameEntry)>) -> Map<Seq<char>, Target>
    decreases journal.len(),
{
    if journal.len() == 0 {
        Map::empty()
    } else {
        map_of(journal.drop_last()).insert(journal.last().0@, journal.last().1@)
    }
}

/// A stem maps to the entry that was inserted for it last.
proof fn lemma_map_of_latest(journal: Seq<(String, RenameEntry)>, key: Seq<char>, i: int)
    requires
        0 <= i < journal.len(),
        journal[i].0@ == key,
        forall|j: int| i < j < journal.len() ==> (#[trigger] journal[j]).0@ != key,
    ensures
        map_of(journal).contains_key(key),
        map_of(journal)[key] == journal[i].1@,
    decreases journal.len(),
{
    if i < journal.len() - 1 {
        assert(journal[journal.len() - 1].0@ != key);
        assert forall|j: int| i < j < journal.drop_last().len() implies (
        #[trigger] journal.drop_last()[j]).0@ != key by {
            assert(journal[j].0@ != key);
        }
        lemma_map_of_latest(journal.drop_last(), key, i);
    }
}

/// A stem that was never inserted is no key.
proof fn lemma_map_of_absent(journal: Seq<(String, RenameEntry)>, key: Seq<char>)
    requires
        forall|j: int| 0 <= j < journal.len() ==> (#[trigger] journal[j]).0@ != key,
    ensures
        !map_of(journal).contains_key(key),
    decreases journal.len(),
{
    if journal.len() > 0 {
        assert(journal[journal.len() - 1].0@ != key);
        assert forall|j: int| 0 <= j < journal.drop_last().len() implies (
        #[trigger] journal.drop_last()[j]).0@ != key by {
            assert(journal[j].0@ != key);
        }
        lemma_map_of_absent(journal.drop_last(), key);
    }
}

impl View for NameMap {
    type V = Map<Seq<char>, Target>;

    closed spec fn view(&self) -> Map<Seq<char>, Target> {
        map_of(self.journal@)
    }
}

impl NameMap {
    /// The map without entries.
    pub fn new() -> (r: NameMap)
        ensures
            r@ == Map::<Seq<char>, Target>::empty(),
    {
        NameMap { journal: Vec::new() }
    }

    /// The entry of `stem`, if the map holds one.
    pub fn get(&self, stem: &str) -> (r: Option<&RenameEntry>)
        ensures
            match r {
                Some(e) => self@.contains_key(stem@) && e@ == self@[stem@],
                None => !self@.contains_key(stem@),
            },
    {
        let key = String::from_str(stem);
        let mut i: usize = self.journal.len();
        while i > 0
            invariant
                i <= self.journal.len(),
                key@ == stem@,
                forall|j: int|
                    i <= j < self.journal.len() ==> (#[trigger] self.journal@[j]).0@ != stem@,
            decreases i,
        {
            i = i - 1;
            if self.journal[i].0 == key {
                proof {
                    lemma_map_of_latest(self.journal@, stem@, i as int);
                }
                return Some(&self.journal[i].1);
            }
        }
        proof {
            lemma_map_of_absent(self.journal@, stem@);
        }
        None
    }

    /// Whether the map holds an entry for `stem`.
    pub fn contains(&self, stem: &str) -> (r: bool)
        ensures
            r == self@.contains_key(stem@),
    {
        self.get(stem).is_some()
    }

    /// Whether the map holds no entry.
    pub fn is_empty(&self) -> (r: bool)
        ensures
            r == (self@ == Map::<Seq<char>, Target>::empty()),
    {
        proof {
            if self.journal.len() > 0 {
                assert(self@.contains_key(self.journal@.last().0@));
            }
        }
        self.journal.len() == 0
    }

    /// Sets the entry of `stem`; an entry that the map held for it is
    /// replaced.
    pub fn insert(&mut self, stem: String, entry: RenameEntry)
        ensures
            final(self)@ == old(self)@.insert(stem@, entry@),
    {
        self.journal.push((stem, entry));
        proof {
            assert(self.journal@.drop_last() =~= old(self).journal@);
        }
    }
}

} // verus!
