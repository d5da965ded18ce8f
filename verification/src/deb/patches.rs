//! Looking for the patch that makes a package a Debian package.
use vstd::prelude::*;
use vstd::slice::slice_to_vec;

use crate::package::{InfoView, PackageInfo};
use crate::text::texts;

verus! {

/// The directories that patches are kept in.
pub open spec fn patch_directories() -> Seq<Seq<char>> {
    seq!["/var/lib/alien"@, "/usr/share/alien/patches"@]
}

/// The directories that patches are kept in.
pub fn patch_dirs() -> (r: Vec<String>)
    ensures
        texts(r@) == patch_directories(),
{
    let mut r: Vec<String> = Vec::new();
    r.push("/var/lib/alien".to_owned());
    r.push("/usr/share/alien/patches".to_owned());
    assert(texts(r@) =~= patch_directories());
    r
}

/// How closely a patch has to match a package.
#[derive(Clone, Copy, Debug, PartialEq, Eq, Structural)]
pub enum Match {
    /// Name, version and release.
    Release,
    /// Name and version.
    Version,
    /// The name alone.
    Name,
}

/// The pattern for the patches in a directory that match a package.
pub open spec fn pattern(dir: Seq<char>, info: InfoView, how: Match) -> Seq<char> {
    match how {
        Match::Release => dir + "/"@ + info.name + "_"@ + info.version + "-"@ + info.release
            + "*.diff.gz"@,
        Match::Version => dir + "/"@ + info.name + "_"@ + info.version + "*.diff.gz"@,
        Match::Name => dir + "/"@ + info.name + "_*.diff.gz"@,
    }
}

/// The patterns for the patches that match a package.
pub open spec fn patterns(dirs: Seq<Seq<char>>, info: InfoView, how: Match) -> Seq<Seq<char>> {
    dirs.map_values(|dir: Seq<char>| pattern(dir, info, how))
}

/// How closely patches have to match, round after round: the name alone will
/// do only if any patch is accepted.
pub open spec fn match_order(any_patch: bool) -> Seq<Match> {
    if any_patch {
        seq![Match::Release, Match::Version, Match::Name]
    } else {
        seq![Match::Release, Match::Version]
    }
}

/// How closely the patches of the next round have to match, given the rounds
/// made so far and how many paths they turned up: what matches the release
/// leaves nothing more to look for, and otherwise every way to match gets its
/// round.
pub open spec fn next_match(rounds: nat, found: nat, any_patch: bool) -> Option<Match> {
    if rounds < match_order(any_patch).len() && (rounds == 1 ==> found == 0) {
        Some(match_order(any_patch)[rounds as int])
    } else {
        None
    }
}

/// The first path that could be read.
pub open spec fn first_readable(found: Seq<Option<Seq<u8>>>) -> Option<Seq<u8>>
    decreases found.len(),
{
    if found.len() == 0 {
        None
    } else if found[0] is Some {
        found[0]
    } else {
        first_readable(found.skip(1))
    }
}

/// Paths as rows of bytes, and nothing for one that could not be read.
pub open spec fn path_views(found: Seq<Option<Vec<u8>>>) -> Seq<Option<Seq<u8>>> {
    Seq::new(
        found.len(),
        |i: int|
            match found[i] {
                Some(p) => Some(p@),
                None => None,
            },
    )
}

/// A search for a patch under way.
pub struct PatchSearch {
    found: Vec<Option<Vec<u8>>>,
    rounds: usize,
}

/// The state of a search: the rounds that were made, and what they turned up.
#[verifier::ext_equal]
pub struct SearchView {
    pub rounds: nat,
    pub found: Seq<Option<Seq<u8>>>,
}

impl View for PatchSearch {
    type V = SearchView;

    closed spec fn view(&self) -> SearchView {
        SearchView { rounds: self.rounds as nat, found: path_views(self.found@) }
    }
}

impl PatchSearch {
    /// A search in which nothing was tried.
    pub fn new() -> (r: Self)
        ensures
            r@ == (SearchView { rounds: 0, found: seq![] }),
    {
        let r = PatchSearch { found: Vec::new(), rounds: 0 };
        assert(r@ =~= (SearchView { rounds: 0, found: seq![] }));
        r
    }

    /// How closely the patches of the next round have to match, if there is to
    /// be one.
    pub fn next_match(&self, any_patch: bool) -> (r: Option<Match>)
        ensures
            r == next_match(self@.rounds, self@.found.len(), any_patch),
    {
        if self.rounds == 0 {
            Some(Match::Release)
        } else if self.rounds == 1 && self.found.len() == 0 {
            Some(Match::Version)
        } else if self.rounds == 2 && any_patch {
            Some(Match::Name)
        } else {
            None
        }
    }

    /// Takes what a round turned up. After three rounds they are not counted
    /// any more.
    pub fn add_round(&mut self, paths: Vec<Option<Vec<u8>>>)
        ensures
            final(self)@ == (SearchView {
                rounds: if old(self)@.rounds < 3 {
                    old(self)@.rounds + 1
                } else {
                    old(self)@.rounds
                },
                found: old(self)@.found + path_views(paths@),
            }),
    {
        let ghost before = self@.found;
        let ghost more = path_views(paths@);
        let mut paths = paths;
        self.found.append(&mut paths);
        assert(path_views(self.found@) =~= before + more);
        if self.rounds < 3 {
            self.rounds = self.rounds + 1;
        }
    }

    /// The patch to use: the first that could be read.
    pub fn pick(&self) -> (r: Option<Vec<u8>>)
        ensures
            match r {
                Some(p) => first_readable(self@.found) == Some(p@),
                None => first_readable(self@.found) is None,
            },
    {
        let ghost all = self@.found;
        assert(all.skip(0) =~= all);
        for i in 0..self.found.len()
            invariant
                all == self@.found,
                first_readable(all) == first_readable(all.skip(i as int)),
        {
            assert(all.skip(i as int)[0] == all[i as int]);
            if let Some(p) = &self.found[i] {
                return Some(slice_to_vec(p.as_slice()));
            }
            assert(all.skip(i as int).skip(1) =~= all.skip(i + 1));
        }
        None
    }
}

/// The patterns for the patches that match a package.
pub fn patterns_for(dirs: &Vec<String>, info: &PackageInfo, how: Match) -> (r: Vec<String>)
    ensures
        texts(r@) == patterns(texts(dirs@), info@, how),
{
    let mut r: Vec<String> = Vec::new();
    for i in 0..dirs.len()
        invariant
            r.len() == i,
            forall|j: int| 0 <= j < i ==> (#[trigger] r[j])@ == pattern(dirs[j]@, info@, how),
    {
        let mut p = dirs[i].clone();
        p.append("/");
        p.append(info.name.as_str());
        match how {
            Match::Release => {
                p.append("_");
                p.append(info.version.as_str());
                p.append("-");
                p.append(info.release.as_str());
                p.append("*.diff.gz");
            },
            Match::Version => {
                p.append("_");
                p.append(info.version.as_str());
                p.append("*.diff.gz");
            },
            Match::Name => {
                p.append("_*.diff.gz");
            },
        }
        r.push(p);
    }
    assert(texts(r@) =~= patterns(texts(dirs@), info@, how));
    r
}

} // verus!
