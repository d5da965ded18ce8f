//! Tables keyed by path, which keep their entries in the order of insertion.
use vstd::prelude::*;

use crate::path::{path_key, same_path};

verus! {

/// Where the entry for a path stands. Spellings of one path share an entry.
pub open spec fn position<V>(entries: Seq<(Seq<char>, V)>, path: Seq<char>) -> Option<nat>
    decreases entries.len(),
{
    if entries.len() == 0 {
        None
    } else if path_key(entries[0].0) == path_key(path) {
        Some(0)
    } else {
        match position(entries.skip(1), path) {
            Some(i) => Some(i + 1),
            None => None,
        }
    }
}

/// The value stored for a path.
pub open spec fn lookup<V>(entries: Seq<(Seq<char>, V)>, path: Seq<char>) -> Option<V> {
    match position(entries, path) {
        Some(i) => Some(entries[i as int].1),
        None => None,
    }
}

/// The entries after a value was stored for a path: an entry that was there
/// keeps its place and its spelling of the path, a new one comes last.
pub open spec fn stored<V>(
    entries: Seq<(Seq<char>, V)>,
    path: Seq<char>,
    value: V,
) -> Seq<(Seq<char>, V)> {
    match position(entries, path) {
        Some(i) => entries.update(i as int, (entries[i as int].0, value)),
        None => entries.push((path, value)),
    }
}

/// No path occurs twice.
pub open spec fn distinct<V>(entries: Seq<(Seq<char>, V)>) -> bool {
    forall|i: int, j: int|
        0 <= i < j < entries.len() ==> path_key((#[trigger] entries[i]).0) != path_key(
            (#[trigger] entries[j]).0,
        )
}

/// What a position says of the entries before it and at it.
pub proof fn lemma_position<V>(entries: Seq<(Seq<char>, V)>, path: Seq<char>, i: int)
    requires
        0 <= i <= entries.len(),
        forall|j: int|
            0 <= j < i ==> path_key((#[trigger] entries[j]).0) != path_key(path),
        i < entries.len() ==> path_key(entries[i].0) == path_key(path),
    ensures
        i < entries.len() ==> position(entries, path) == Some(i as nat),
        i == entries.len() ==> position(entries, path) is None,
    decreases entries.len(),
{
    if i > 0 {
        let rest = entries.skip(1);
        assert forall|j: int| 0 <= j < i - 1 implies path_key((#[trigger] rest[j]).0) != path_key(
            path,
        ) by {
            assert(rest[j] == entries[j + 1]);
        }
        lemma_position(rest, path, i - 1);
    }
}

/// Storing a value leaves every path with at most one entry.
pub proof fn lemma_stored_distinct<V>(entries: Seq<(Seq<char>, V)>, path: Seq<char>, value: V)
    requires
        distinct(entries),
    ensures
        distinct(stored(entries, path, value)),
{
    lemma_position_found(entries, path);
}

/// The entry at a path's position is the path's; without a position no entry is.
pub proof fn lemma_position_found<V>(entries: Seq<(Seq<char>, V)>, path: Seq<char>)
    ensures
        match position(entries, path) {
            Some(i) => i < entries.len() && path_key(entries[i as int].0) == path_key(path) && (
            forall|j: int| 0 <= j < i ==> path_key((#[trigger] entries[j]).0) != path_key(path)),
            None => forall|j: int|
                0 <= j < entries.len() ==> path_key((#[trigger] entries[j]).0) != path_key(path),
        },
    decreases entries.len(),
{
    if entries.len() > 0 && path_key(entries[0].0) != path_key(path) {
        let rest = entries.skip(1);
        lemma_position_found(rest, path);
        let bound = match position(entries, path) {
            Some(i) => i as int,
            None => entries.len() as int,
        };
        assert forall|j: int| 0 <= j < bound implies path_key((#[trigger] entries[j]).0)
            != path_key(path) by {
            if j > 0 {
                assert(rest[j - 1] == entries[j]);
            }
        }
    }
}

/// What was stored for a path is what a lookup of any spelling of it finds,
/// and a lookup of another path finds what it found before.
pub proof fn lemma_stored_lookup<V>(
    entries: Seq<(Seq<char>, V)>,
    path: Seq<char>,
    value: V,
    other: Seq<char>,
)
    ensures
        path_key(other) == path_key(path) ==> lookup(stored(entries, path, value), other) == Some(
            value,
        ),
        path_key(other) != path_key(path) ==> lookup(stored(entries, path, value), other)
            == lookup(entries, other),
{
    let after = stored(entries, path, value);
    lemma_position_found(entries, path);
    lemma_position_found(entries, other);
    if path_key(other) == path_key(path) {
        let i = match position(entries, path) {
            Some(i) => i as int,
            None => entries.len() as int,
        };
        assert forall|j: int| 0 <= j < i implies path_key((#[trigger] after[j]).0) != path_key(
            other,
        ) by {
            assert(after[j] == entries[j]);
        }
        lemma_position(after, other, i);
    } else {
        let i = match position(entries, other) {
            Some(i) => i as int,
            None => after.len() as int,
        };
        assert forall|j: int| 0 <= j < i implies path_key((#[trigger] after[j]).0) != path_key(
            other,
        ) by {
            if j < entries.len() {
                assert(path_key(entries[j].0) != path_key(other));
            }
        }
        lemma_position(after, other, i);
    }
}

/// Spellings of one path find the same.
pub proof fn lemma_same_path_lookup<V>(
    entries: Seq<(Seq<char>, V)>,
    path: Seq<char>,
    other: Seq<char>,
)
    requires
        path_key(path) == path_key(other),
    ensures
        lookup(entries, path) == lookup(entries, other),
{
    lemma_position_found(entries, path);
    let i = match position(entries, path) {
        Some(i) => i as int,
        None => entries.len() as int,
    };
    lemma_position(entries, other, i);
}

/// A table keyed by path, in which no path occurs twice.
pub struct PathTable<V: View> {
    entries: Vec<(String, V)>,
}

/// The entries with their paths and values taken as mathematical values.
spec fn entry_views<V: View>(entries: Seq<(String, V)>) -> Seq<(Seq<char>, V::V)> {
    Seq::new(entries.len(), |i: int| (entries[i].0@, entries[i].1@))
}

impl<V: View> View for PathTable<V> {
    type V = Seq<(Seq<char>, V::V)>;

    closed spec fn view(&self) -> Seq<(Seq<char>, V::V)> {
        entry_views(self.entries@)
    }
}

impl<V: View> PathTable<V> {
    #[verifier::type_invariant]
    spec fn no_path_twice(self) -> bool {
        distinct(entry_views(self.entries@))
    }

    /// The empty table.
    pub fn new() -> (r: Self)
        ensures
            r@ == Seq::<(Seq<char>, V::V)>::empty(),
    {
        let r = PathTable { entries: Vec::new() };
        assert(r@ =~= Seq::<(Seq<char>, V::V)>::empty());
        r
    }

    /// The number of entries. No two of them are for one path.
    pub fn len(&self) -> (r: usize)
        ensures
            r == self@.len(),
            distinct(self@),
    {
        proof {
            use_type_invariant(self);
        }
        self.entries.len()
    }

    /// The path of an entry.
    pub fn path(&self, i: usize) -> (r: &String)
        requires
            i < self@.len(),
        ensures
            r@ == self@[i as int].0,
    {
        &self.entries[i].0
    }

    /// The value of an entry.
    pub fn value(&self, i: usize) -> (r: &V)
        requires
            i < self@.len(),
        ensures
            r@ == self@[i as int].1,
    {
        &self.entries[i].1
    }

    fn find(&self, path: &str) -> (r: Option<usize>)
        ensures
            match r {
                Some(i) => position(self@, path@) == Some(i as nat) && i < self@.len(),
                None => position(self@, path@) is None,
            },
    {
        let mut i: usize = 0;
        while i < self.entries.len()
            invariant
                i <= self.entries.len(),
                forall|j: int|
                    0 <= j < i ==> path_key((#[trigger] self@[j]).0) != path_key(path@),
            decreases self.entries.len() - i,
        {
            if same_path(self.entries[i].0.as_str(), path) {
                proof {
                    lemma_position(self@, path@, i as int);
                }
                return Some(i);
            }
            i = i + 1;
        }
        proof {
            lemma_position(self@, path@, i as int);
        }
        None
    }

    /// The value stored for a path.
    pub fn get(&self, path: &str) -> (r: Option<&V>)
        ensures
            match r {
                Some(v) => lookup(self@, path@) == Some(v@),
                None => lookup(self@, path@) is None,
            },
    {
        match self.find(path) {
            Some(i) => Some(&self.entries[i].1),
            None => None,
        }
    }

    /// Stores a value for a path.
    pub fn insert(&mut self, path: String, value: V)
        ensures
            final(self)@ == stored(old(self)@, path@, value@),
    {
        proof {
            use_type_invariant(&*self);
            lemma_stored_distinct(self@, path@, value@);
        }
        let ghost before = self@;
        let found = self.find(path.as_str());
        let mut entries: Vec<(String, V)> = Vec::new();
        proof {
            assert(distinct(entry_views(entries@)));
        }
        std::mem::swap(&mut entries, &mut self.entries);
        let ghost moved = entries@;
        let ghost text = path@;
        match found {
            Some(i) => {
                let (kept, _old) = entries.remove(i);
                entries.insert(i, (kept, value));
                assert(entry_views(entries@) =~= stored(before, text, value@));
            },
            None => {
                entries.push((path, value));
                assert(entry_views(entries@) =~= stored(before, text, value@));
            },
        }
        self.entries = entries;
    }
}

} // verus!
