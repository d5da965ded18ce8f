//! Unpacking an RPM package: which directories get default permissions, where
//! a relocatable package goes, and which owners and modes have to wait until
//! the package is installed.
use vstd::prelude::*;

use crate::path::{
    below, join, joined, names, names_of, path_below, path_key, place, same_place, walked,
};
use crate::rpm::Rpm;
use crate::table::{lemma_same_path_lookup, lemma_stored_lookup, lookup, stored, PathTable};
use crate::text::{
    lines, lines_of, opt_text, parse_u32, split, split_at, texts, to_chars, u32_value,
};

verus! {

/// The command that turns what `rpm2cpio` prints into a plain archive.
pub open spec fn decompression(is_lzma: bool) -> Seq<Seq<char>> {
    if is_lzma {
        seq!["lzma"@, "-dq"@]
    } else {
        seq!["cat"@]
    }
}

/// The command that turns what `rpm2cpio` prints into a plain archive.
pub fn decompressor(is_lzma: bool) -> (r: Vec<String>)
    ensures
        texts(r@) == decompression(is_lzma),
{
    let mut r: Vec<String> = Vec::new();
    if is_lzma {
        r.push("lzma".to_owned());
        r.push("-dq".to_owned());
    } else {
        r.push("cat".to_owned());
    }
    assert(texts(r@) =~= decompression(is_lzma));
    r
}

/// The files in the listing of an archive, one on each line.
pub fn archived_files(listing: &str) -> (r: Vec<String>)
    ensures
        texts(r@) == lines(listing@),
{
    let chars = to_chars(listing);
    lines_of(chars.as_slice())
}

/// Whether a path is among others, in whatever spelling, with or without a
/// leading dot.
pub open spec fn has_place(paths: Seq<Seq<char>>, path: Seq<char>) -> bool {
    exists|i: int| 0 <= i < paths.len() && place(#[trigger] paths[i]) == place(path)
}

/// Whether something that was unpacked gets the default permissions.
pub open spec fn gets_default_mode(
    listed: Seq<Seq<char>>,
    path: Option<Seq<char>>,
    is_directory: bool,
    is_symlink: bool,
) -> bool {
    is_directory && !is_symlink && !(path matches Some(p) && has_place(listed, p))
}

/// Whether something that was unpacked gets the default permissions. `cpio`
/// makes directories that the archive does not list with permissions of its
/// own choice, so a directory that is no link and is not listed gets them. A
/// path that is not text is never listed.
pub fn wants_default_mode(
    listed: &Vec<String>,
    path: Option<&str>,
    is_directory: bool,
    is_symlink: bool,
) -> (r: bool)
    ensures
        r == gets_default_mode(
            texts(listed@),
            match path {
                Some(p) => Some(p@),
                None => None,
            },
            is_directory,
            is_symlink,
        ),
{
    if let Some(p) = path {
        for i in 0..listed.len()
            invariant
                path == Some(p),
                forall|j: int| 0 <= j < i ==> place(#[trigger] texts(listed@)[j]) != place(p@),
        {
            assert(texts(listed@)[i as int] == listed[i as int]@);
            if same_place(listed[i].as_str(), p) {
                return false;
            }
        }
    }
    is_directory && !is_symlink
}

/// The directories on the way from the directory that a package is unpacked in
/// to a path in the package, from the outermost to the path.
pub open spec fn destinations(work_dir: Seq<char>, path: Seq<char>) -> Seq<Seq<char>> {
    Seq::new(names(path).len(), |i: int| walked(work_dir, names(path).take(i + 1)))
}

/// The directories on the way from the directory that a package is unpacked in
/// to a path in the package.
pub fn directories_to(work_dir: &str, path: &str) -> (r: Vec<String>)
    ensures
        texts(r@) == destinations(work_dir@, path@),
{
    let chars = to_chars(path);
    let steps = names_of(chars.as_slice());
    let ghost all = names(path@);
    let mut r: Vec<String> = Vec::new();
    let mut dest = work_dir.to_owned();
    for i in 0..steps.len()
        invariant
            all == names(path@),
            texts(steps@) == all,
            r.len() == i,
            dest@ == walked(work_dir@, all.take(i as int)),
            forall|j: int| 0 <= j < i ==> (#[trigger] r[j])@ == walked(work_dir@, all.take(j + 1)),
    {
        assert(all[i as int] == steps[i as int]@);
        assert(all.take(i + 1).drop_last() =~= all.take(i as int));
        dest = join(dest.as_str(), steps[i].as_str());
        r.push(dest.clone());
    }
    assert(texts(r@) =~= destinations(work_dir@, path@));
    r
}

/// The last directory on the way to a path is the path, as seen from the
/// directory that the package is unpacked in.
pub proof fn lemma_way_leads_to_path(work_dir: Seq<char>, path: Seq<char>)
    requires
        names(path).len() > 0,
    ensures
        destinations(work_dir, path).last() == below(work_dir, path),
{
    assert(names(path).take(names(path).len() as int) =~= names(path));
}

/// What to do next to relocate a package.
pub enum RelocationStep {
    /// Look whether this is a directory; if it is not, make it one.
    Probe(String),
    /// Move the unpacked files to the directory.
    Move,
    /// Do nothing: the package has a parent of the directory in it, which
    /// cannot be moved into its own child.
    Abandon,
}

/// A relocation under way.
pub struct Relocation {
    directories: Vec<String>,
    made: usize,
    abandoned: bool,
}

/// The state of a relocation: the directories on the way, how many of them
/// were made, and whether it was given up.
pub struct RelocationView {
    pub directories: Seq<Seq<char>>,
    pub made: nat,
    pub abandoned: bool,
}

impl RelocationView {
    /// Whether there is a directory to look at.
    pub open spec fn is_probing(self) -> bool {
        !self.abandoned && self.made < self.directories.len()
    }

    /// The state after the answer whether the directory looked at is there: one
    /// that is not is made, one that is ends the relocation.
    pub open spec fn answered(self, is_directory: bool) -> RelocationView {
        RelocationView {
            made: if self.is_probing() && !is_directory {
                self.made + 1
            } else {
                self.made
            },
            abandoned: self.abandoned || (self.is_probing() && is_directory),
            ..self
        }
    }

    /// The state after several answers.
    pub open spec fn after(self, answers: Seq<bool>) -> RelocationView
        decreases answers.len(),
    {
        if answers.len() == 0 {
            self
        } else {
            self.after(answers.drop_last()).answered(answers.last())
        }
    }
}

/// A relocation none of whose directories is in the package makes them all and
/// then moves the package.
pub proof fn lemma_relocation_succeeds(directories: Seq<Seq<char>>, answers: Seq<bool>)
    requires
        answers.len() <= directories.len(),
        forall|i: int| 0 <= i < answers.len() ==> !#[trigger] answers[i],
    ensures
        (RelocationView { directories, made: 0, abandoned: false }).after(answers) == (
        RelocationView { directories, made: answers.len(), abandoned: false }),
    decreases answers.len(),
{
    if answers.len() > 0 {
        lemma_relocation_succeeds(directories, answers.drop_last());
    }
}

/// A relocation one of whose directories is in the package is given up there,
/// and no more directories are made whatever comes.
pub proof fn lemma_relocation_given_up(
    directories: Seq<Seq<char>>,
    answers: Seq<bool>,
    i: int,
)
    requires
        0 <= i < answers.len(),
        i < directories.len(),
        answers[i],
        forall|j: int| 0 <= j < i ==> !#[trigger] answers[j],
    ensures
        (RelocationView { directories, made: 0, abandoned: false }).after(answers) == (
        RelocationView { directories, made: i as nat, abandoned: true }),
    decreases answers.len(),
{
    if i == answers.len() - 1 {
        lemma_relocation_succeeds(directories, answers.drop_last());
    } else {
        lemma_relocation_given_up(directories, answers.drop_last(), i);
    }
}

impl View for Relocation {
    type V = RelocationView;

    closed spec fn view(&self) -> RelocationView {
        RelocationView {
            directories: texts(self.directories@),
            made: self.made as nat,
            abandoned: self.abandoned,
        }
    }
}

impl Relocation {
    #[verifier::type_invariant]
    spec fn within_bounds(self) -> bool {
        self.made <= self.directories@.len()
    }

    /// What to do next. No more directories are made than there are.
    pub fn next_step(&self) -> (r: RelocationStep)
        ensures
            self@.made <= self@.directories.len(),
            match r {
                RelocationStep::Abandon => self@.abandoned,
                RelocationStep::Move => !self@.abandoned && self@.made == self@.directories.len(),
                RelocationStep::Probe(d) => !self@.abandoned && self@.made
                    < self@.directories.len() && d@ == self@.directories[self@.made as int],
            },
    {
        proof {
            use_type_invariant(self);
        }
        if self.abandoned {
            RelocationStep::Abandon
        } else if self.made < self.directories.len() {
            RelocationStep::Probe(self.directories[self.made].clone())
        } else {
            RelocationStep::Move
        }
    }

    /// Takes the answer to a probe, and says whether the directory is to be
    /// made. Where it is there already, the relocation is given up. Without a
    /// probe under way nothing changes.
    pub fn answer(&mut self, is_directory: bool) -> (r: bool)
        ensures
            r == (old(self)@.is_probing() && !is_directory),
            final(self)@ == old(self)@.answered(is_directory),
    {
        proof {
            use_type_invariant(&*self);
        }
        if self.abandoned || self.made >= self.directories.len() {
            return false;
        }
        if is_directory {
            self.abandoned = true;
            false
        } else {
            self.made = self.made + 1;
            true
        }
    }
}

/// The arguments that have `rpm` list permissions, owner, group and name of
/// every file in a package, before the package file.
pub open spec fn owner_query() -> Seq<Seq<char>> {
    seq![
        "--queryformat"@,
        "[%{FILEMODES} %{FILEUSERNAME} %{FILEGROUPNAME} %{FILENAMES}\\n]"@,
        "-qp"@,
    ]
}

/// The arguments that have `rpm` list permissions, owner, group and name of
/// every file in a package.
pub fn owner_arguments() -> (r: Vec<String>)
    ensures
        texts(r@) == owner_query(),
{
    let mut r: Vec<String> = Vec::new();
    r.push("--queryformat".to_owned());
    r.push("[%{FILEMODES} %{FILEUSERNAME} %{FILEGROUPNAME} %{FILENAMES}\\n]".to_owned());
    r.push("-qp".to_owned());
    assert(texts(r@) =~= owner_query());
    r
}

/// A file in the list that `rpm` prints of owners and modes.
pub struct FileEntry {
    /// The permissions, without the type of the file.
    pub mode: u32,
    pub owner: String,
    pub group: String,
    pub file: String,
}

/// A file in the list, as mathematical values.
#[verifier::ext_equal]
pub struct EntryView {
    pub mode: u32,
    pub owner: Seq<char>,
    pub group: Seq<char>,
    pub file: Seq<char>,
}

impl View for FileEntry {
    type V = EntryView;

    open spec fn view(&self) -> EntryView {
        EntryView {
            mode: self.mode,
            owner: self.owner@,
            group: self.group@,
            file: self.file@,
        }
    }
}

/// What a line of the list says: permissions, owner, group and file, with
/// spaces between them. A line with fewer fields says nothing, and one whose
/// permissions are no number is refused for what should have been one.
pub open spec fn entry_in(line: Seq<char>) -> Result<Option<EntryView>, Seq<char>> {
    let fields = split(line, ' ');
    if fields.len() < 4 {
        Ok(None)
    } else {
        match u32_value(fields[0]) {
            None => Err(fields[0]),
            Some(bits) => Ok(
                Some(
                    EntryView {
                        mode: bits % 0o10000,
                        owner: fields[1],
                        group: fields[2],
                        file: fields[3],
                    },
                ),
            ),
        }
    }
}

/// Reads a line of the list that `rpm` prints of owners and modes. The error
/// is the text that should have been a number.
pub fn parse_entry(line: &str) -> (r: Result<Option<FileEntry>, String>)
    ensures
        match r {
            Ok(Some(e)) => entry_in(line@) == Ok::<Option<EntryView>, Seq<char>>(Some(e@)),
            Ok(None) => entry_in(line@) == Ok::<Option<EntryView>, Seq<char>>(None),
            Err(text) => entry_in(line@) == Err::<Option<EntryView>, Seq<char>>(text@),
        },
{
    let chars = to_chars(line);
    let fields = split_at(chars.as_slice(), ' ');
    let ghost all = split(line@, ' ');
    assert(fields.len() == all.len());
    if fields.len() < 4 {
        return Ok(None);
    }
    assert(all[0] == fields[0]@ && all[1] == fields[1]@ && all[2] == fields[2]@ && all[3]
        == fields[3]@);
    let mode = to_chars(fields[0].as_str());
    match parse_u32(mode.as_slice()) {
        None => Err(fields[0].clone()),
        Some(bits) => {
            assert(bits & 0o7777u32 == bits % 0o10000u32) by (bit_vector);
            Ok(
                Some(
                    FileEntry {
                        mode: bits & 0o7777,
                        owner: fields[1].clone(),
                        group: fields[2].clone(),
                        file: fields[3].clone(),
                    },
                ),
            )
        },
    }
}

/// The files in the lines of a list, in order, up to the first line that is
/// refused, and what that line is refused for, if there is one.
pub open spec fn entries_in(all: Seq<Seq<char>>) -> (Seq<EntryView>, Option<Seq<char>>)
    decreases all.len(),
{
    if all.len() == 0 {
        (seq![], None)
    } else {
        let (before, refused) = entries_in(all.drop_last());
        match (refused, entry_in(all.last())) {
            (Some(number), _) => (before, Some(number)),
            (None, Err(number)) => (before, Some(number)),
            (None, Ok(None)) => (before, None),
            (None, Ok(Some(e))) => (before.push(e), None),
        }
    }
}

pub open spec fn entry_views(entries: Seq<FileEntry>) -> Seq<EntryView> {
    Seq::new(entries.len(), |i: int| entries[i]@)
}

/// A list with a line that is refused.
pub struct RefusedList {
    /// The files before that line.
    pub entries: Vec<FileEntry>,
    /// The text that should have been a number.
    pub number: String,
}

/// A line that is refused ends the list.
proof fn lemma_refused_line_ends_list(all: Seq<Seq<char>>, n: int)
    requires
        0 <= n <= all.len(),
        entries_in(all.take(n)).1 is Some,
    ensures
        entries_in(all) == entries_in(all.take(n)),
    decreases all.len() - n,
{
    if n < all.len() {
        assert(all.drop_last().take(n) =~= all.take(n));
        lemma_refused_line_ends_list(all.drop_last(), n);
    } else {
        assert(all.take(n) =~= all);
    }
}

/// The files in a list, up to the first line that is refused, and what that line
/// is refused for, if there is one.
pub open spec fn listed_entries(list: Seq<char>) -> (Seq<EntryView>, Option<Seq<char>>) {
    entries_in(lines(list))
}

/// Reads the list that `rpm` prints of owners and modes.
pub fn read_entries(list: &str) -> (r: Result<Vec<FileEntry>, RefusedList>)
    ensures
        match r {
            Ok(entries) => listed_entries(list@) == (entry_views(entries@), None::<Seq<char>>),
            Err(refused) => listed_entries(list@) == (
                entry_views(refused.entries@),
                Some(refused.number@),
            ),
        },
{
    let chars = to_chars(list);
    let all = lines_of(chars.as_slice());
    let ghost whole = lines(list@);
    let mut entries: Vec<FileEntry> = Vec::new();
    assert(whole.take(0) =~= Seq::<Seq<char>>::empty());
    assert(entry_views(entries@) =~= Seq::<EntryView>::empty());
    for i in 0..all.len()
        invariant
            whole == lines(list@),
            texts(all@) == whole,
            entries_in(whole.take(i as int)) == (entry_views(entries@), None::<Seq<char>>),
    {
        assert(whole.take(i + 1).drop_last() =~= whole.take(i as int));
        assert(whole.take(i + 1).last() == all[i as int]@);
        match parse_entry(all[i].as_str()) {
            Ok(Some(entry)) => {
                let ghost before = entries@;
                entries.push(entry);
                assert(entry_views(entries@) =~= entry_views(before).push(entry@));
            },
            Ok(None) => {},
            Err(number) => {
                proof {
                    lemma_refused_line_ends_list(whole, i + 1);
                }
                return Err(RefusedList { entries, number });
            },
        }
    }
    assert(whole.take(whole.len() as int) =~= whole);
    Ok(entries)
}

/// The owners to set after installation, once a file was looked at: an owner
/// or a group other than root has to wait until then.
pub open spec fn owners_after(
    owners: Seq<(Seq<char>, Seq<char>)>,
    file: Seq<char>,
    owner: Option<Seq<char>>,
    group: Option<Seq<char>>,
) -> Seq<(Seq<char>, Seq<char>)> {
    let owned = match owner {
        Some(o) => stored(owners, file, o),
        None => owners,
    };
    match group {
        Some(g) => stored(owned, file, lookup(owned, file).unwrap_or(seq![]) + seq![':'] + g),
        None => owned,
    }
}

/// Whether permissions have a special bit among them: set-user-ID, set-group-ID
/// or sticky.
pub open spec fn is_special(mode: u32) -> bool {
    mode / 0o1000 % 8 != 0
}

/// The modes to set after installation, once a file was looked at: where the
/// owner has to wait, setting it would clear special permissions, so these
/// have to wait too.
pub open spec fn modes_after(
    modes: Seq<(Seq<char>, u32)>,
    owners: Seq<(Seq<char>, Seq<char>)>,
    file: Seq<char>,
    mode: u32,
) -> Seq<(Seq<char>, u32)> {
    if lookup(owners, file) is Some && is_special(mode) {
        stored(modes, file, mode)
    } else {
        modes
    }
}

/// Owners and modes to set after installation.
pub struct Ownership {
    pub owninfo: PathTable<String>,
    pub modeinfo: PathTable<u32>,
}

impl Ownership {
    /// Nothing to set.
    pub fn new() -> (r: Self)
        ensures
            r.owninfo@ == Seq::<(Seq<char>, Seq<char>)>::empty(),
            r.modeinfo@ == Seq::<(Seq<char>, u32)>::empty(),
    {
        Ownership { owninfo: PathTable::new(), modeinfo: PathTable::new() }
    }

    /// Takes down what has to wait until installation for a file, given
    /// whether its owner and its group are root's here.
    pub fn record(&mut self, entry: &FileEntry, owner_is_root: bool, group_is_root: bool)
        ensures
            final(self).owninfo@ == owners_after(
                old(self).owninfo@,
                entry.file@,
                if owner_is_root {
                    None
                } else {
                    Some(entry.owner@)
                },
                if group_is_root {
                    None
                } else {
                    Some(entry.group@)
                },
            ),
            final(self).modeinfo@ == modes_after(
                old(self).modeinfo@,
                final(self).owninfo@,
                entry.file@,
                entry.mode,
            ),
    {
        if !owner_is_root {
            self.owninfo.insert(entry.file.clone(), entry.owner.clone());
        }
        if !group_is_root {
            let mut text = match self.owninfo.get(entry.file.as_str()) {
                Some(t) => t.clone(),
                None => String::new(),
            };
            let ghost start = text@;
            text.push(':');
            text.append(entry.group.as_str());
            assert(text@ =~= start + seq![':'] + entry.group@);
            assert(start =~= lookup(self.owninfo@, entry.file@).unwrap_or(seq![]));
            self.owninfo.insert(entry.file.clone(), text);
        }
        let mode = entry.mode;
        assert((mode & 0o7000u32) > 0 <==> (mode / 0o1000u32) % 8u32 != 0) by (bit_vector);
        if self.owninfo.get(entry.file.as_str()).is_some() && (mode & 0o7000) > 0 {
            self.modeinfo.insert(entry.file.clone(), mode);
        }
    }
}

/// Modes wait only for files whose owner waits, and only with special
/// permissions among them.
pub open spec fn modes_follow_owners(
    owners: Seq<(Seq<char>, Seq<char>)>,
    modes: Seq<(Seq<char>, u32)>,
) -> bool {
    forall|path: Seq<char>|
        (#[trigger] lookup(modes, path)) is Some ==> lookup(owners, path) is Some && is_special(
            lookup(modes, path).unwrap(),
        )
}

/// Storing an owner for one file takes none from another.
proof fn lemma_owners_kept(
    owners: Seq<(Seq<char>, Seq<char>)>,
    file: Seq<char>,
    owner: Option<Seq<char>>,
    group: Option<Seq<char>>,
    path: Seq<char>,
)
    requires
        lookup(owners, path) is Some,
    ensures
        lookup(owners_after(owners, file, owner, group), path) is Some,
{
    if let Some(o) = owner {
        lemma_stored_lookup(owners, file, o, path);
    }
    let owned = match owner {
        Some(o) => stored(owners, file, o),
        None => owners,
    };
    if let Some(g) = group {
        lemma_stored_lookup(
            owned,
            file,
            lookup(owned, file).unwrap_or(seq![]) + seq![':'] + g,
            path,
        );
    }
}

/// However many files are looked at, modes wait only for files whose owner
/// waits, and only with special permissions among them: it holds when nothing
/// was looked at, and every file keeps it so.
pub proof fn lemma_modes_follow_owners(
    owners: Seq<(Seq<char>, Seq<char>)>,
    modes: Seq<(Seq<char>, u32)>,
    file: Seq<char>,
    owner: Option<Seq<char>>,
    group: Option<Seq<char>>,
    mode: u32,
)
    ensures
        modes_follow_owners(seq![], seq![]),
        modes_follow_owners(owners, modes) ==> modes_follow_owners(
            owners_after(owners, file, owner, group),
            modes_after(modes, owners_after(owners, file, owner, group), file, mode),
        ),
{
    let owned = owners_after(owners, file, owner, group);
    let after = modes_after(modes, owned, file, mode);
    if modes_follow_owners(owners, modes) {
        assert forall|path: Seq<char>| (#[trigger] lookup(after, path)) is Some implies lookup(
            owned,
            path,
        ) is Some && is_special(lookup(after, path).unwrap()) by {
            if lookup(owned, file) is Some && is_special(mode) {
                lemma_stored_lookup(modes, file, mode, path);
                if path_key(path) == path_key(file) {
                    lemma_same_path_lookup(owned, path, file);
                } else {
                    assert(lookup(modes, path) is Some);
                    lemma_owners_kept(owners, file, owner, group, path);
                }
            } else {
                assert(lookup(modes, path) is Some);
                lemma_owners_kept(owners, file, owner, group, path);
            }
        }
    }
}

/// What is handed to `chown` for an owner and a group: the owner, a colon and
/// the group, as far as they are given.
pub open spec fn owner_text(owner: Option<Seq<char>>, group: Option<Seq<char>>) -> Option<
    Seq<char>,
> {
    match (owner, group) {
        (None, None) => None,
        (Some(o), None) => Some(o),
        (None, Some(g)) => Some(seq![':'] + g),
        (Some(o), Some(g)) => Some(o + seq![':'] + g),
    }
}

/// What waits for a file that was not looked at before: nothing if owner and
/// group are root's, and otherwise the owner that is not, a colon and the
/// group that is not.
pub proof fn lemma_owner_of_new_file(
    owners: Seq<(Seq<char>, Seq<char>)>,
    file: Seq<char>,
    owner: Option<Seq<char>>,
    group: Option<Seq<char>>,
)
    requires
        lookup(owners, file) is None,
    ensures
        lookup(owners_after(owners, file, owner, group), file) == owner_text(owner, group),
{
    if let Some(o) = owner {
        lemma_stored_lookup(owners, file, o, file);
    }
    let owned = match owner {
        Some(o) => stored(owners, file, o),
        None => owners,
    };
    if let Some(g) = group {
        let text = lookup(owned, file).unwrap_or(seq![]) + seq![':'] + g;
        lemma_stored_lookup(owned, file, text, file);
        if owner is None {
            assert(text =~= seq![':'] + g);
        }
    }
}

/// Looking at one file changes nothing for another.
pub proof fn lemma_other_files_unchanged(
    owners: Seq<(Seq<char>, Seq<char>)>,
    modes: Seq<(Seq<char>, u32)>,
    file: Seq<char>,
    owner: Option<Seq<char>>,
    group: Option<Seq<char>>,
    mode: u32,
    other: Seq<char>,
)
    requires
        path_key(other) != path_key(file),
    ensures
        lookup(owners_after(owners, file, owner, group), other) == lookup(owners, other),
        lookup(
            modes_after(modes, owners_after(owners, file, owner, group), file, mode),
            other,
        ) == lookup(modes, other),
{
    if let Some(o) = owner {
        lemma_stored_lookup(owners, file, o, other);
    }
    let owned = match owner {
        Some(o) => stored(owners, file, o),
        None => owners,
    };
    if let Some(g) = group {
        lemma_stored_lookup(
            owned,
            file,
            lookup(owned, file).unwrap_or(seq![]) + seq![':'] + g,
            other,
        );
    }
    lemma_stored_lookup(modes, file, mode, other);
}

/// The configuration files of a package that was relocated, if it can be.
pub open spec fn relocated(prefixes: Option<Seq<char>>, conffiles: Seq<Seq<char>>) -> Seq<
    Seq<char>,
> {
    match prefixes {
        Some(p) => conffiles.map_values(|f: Seq<char>| joined(p, f, '/')),
        None => conffiles,
    }
}

/// A file that was looked at: its owner and its group unless they are root's
/// here, and its mode.
pub struct Seen {
    pub file: Seq<char>,
    pub owner: Option<Seq<char>>,
    pub group: Option<Seq<char>>,
    pub mode: u32,
}

/// The owners and modes to set after installation, once all files of a list
/// were looked at, one after the other.
pub open spec fn waiting(list: Seq<Seen>) -> (Seq<(Seq<char>, Seq<char>)>, Seq<(Seq<char>, u32)>)
    decreases list.len(),
{
    if list.len() == 0 {
        (seq![], seq![])
    } else {
        let (owners, modes) = waiting(list.drop_last());
        let seen = list.last();
        let owned = owners_after(owners, seen.file, seen.owner, seen.group);
        (owned, modes_after(modes, owned, seen.file, seen.mode))
    }
}

/// A file of the list that was looked at, and whether its owner and its group
/// are root's here.
pub struct SeenFile {
    pub entry: FileEntry,
    pub owner_is_root: bool,
    pub group_is_root: bool,
}

impl View for SeenFile {
    type V = Seen;

    open spec fn view(&self) -> Seen {
        Seen {
            file: self.entry.file@,
            owner: if self.owner_is_root {
                None
            } else {
                Some(self.entry.owner@)
            },
            group: if self.group_is_root {
                None
            } else {
                Some(self.entry.group@)
            },
            mode: self.entry.mode,
        }
    }
}

pub open spec fn seen_views(files: Seq<SeenFile>) -> Seq<Seen> {
    Seq::new(files.len(), |i: int| files[i]@)
}

impl Ownership {
    /// What has to wait until installation, once all files of a list were
    /// looked at. For a file that is in the list once that is the owner and the
    /// group that are not root's, and the mode with them if it has special bits.
    pub fn of(files: &Vec<SeenFile>) -> (r: Self)
        ensures
            (r.owninfo@, r.modeinfo@) == waiting(seen_views(files@)),
            forall|i: int|
                #![trigger files@[i]]
                0 <= i < files@.len() && is_once(files@, i) ==> {
                    let f = files@[i];
                    &&& lookup(r.owninfo@, f.entry.file@) == (if f.owner_is_root
                        && f.group_is_root {
                        None
                    } else if f.group_is_root {
                        Some(f.entry.owner@)
                    } else if f.owner_is_root {
                        Some(seq![':'] + f.entry.group@)
                    } else {
                        Some(f.entry.owner@ + seq![':'] + f.entry.group@)
                    })
                    &&& lookup(r.modeinfo@, f.entry.file@) == (if (!f.owner_is_root
                        || !f.group_is_root) && f.entry.mode / 0o1000 % 8 != 0 {
                        Some(f.entry.mode)
                    } else {
                        None
                    })
                },
    {
        let ghost all = seen_views(files@);
        let mut r = Ownership::new();
        assert(all.take(0) =~= Seq::<Seen>::empty());
        for i in 0..files.len()
            invariant
                all == seen_views(files@),
                (r.owninfo@, r.modeinfo@) == waiting(all.take(i as int)),
        {
            assert(all.take(i + 1).drop_last() =~= all.take(i as int));
            assert(all.take(i + 1).last() == files[i as int]@);
            r.record(&files[i].entry, files[i].owner_is_root, files[i].group_is_root);
        }
        assert(all.take(all.len() as int) =~= all);
        proof {
            assert forall|i: int|
                #![trigger files@[i]]
                0 <= i < files@.len() && is_once(files@, i) implies ({
                let f = files@[i];
                &&& lookup(r.owninfo@, f.entry.file@) == owner_text(all[i].owner, all[i].group)
                &&& lookup(r.modeinfo@, f.entry.file@) == (if (!f.owner_is_root
                    || !f.group_is_root) && f.entry.mode / 0o1000 % 8 != 0 {
                    Some(f.entry.mode)
                } else {
                    None
                })
            }) by {
                assert(all[i] == files@[i]@);
                assert forall|j: int| 0 <= j < all.len() && j != i implies path_key(
                    (#[trigger] all[j]).file,
                ) != path_key(all[i].file) by {
                    assert(all[j].file == files@[j].entry.file@);
                }
                lemma_seen_file(all, i);
            }
        }
        r
    }
}

/// Whether a file is in a list once.
pub open spec fn is_once(files: Seq<SeenFile>, i: int) -> bool {
    forall|j: int|
        0 <= j < files.len() && j != i ==> path_key((#[trigger] files[j]).entry.file@) != path_key(
            files[i].entry.file@,
        )
}

/// Over a whole list of files, modes wait only for files whose owner waits, and
/// only with special permissions among them.
pub proof fn lemma_all_modes_follow_owners(list: Seq<Seen>)
    ensures
        modes_follow_owners(waiting(list).0, waiting(list).1),
    decreases list.len(),
{
    if list.len() > 0 {
        let (owners, modes) = waiting(list.drop_last());
        let seen = list.last();
        lemma_all_modes_follow_owners(list.drop_last());
        lemma_modes_follow_owners(owners, modes, seen.file, seen.owner, seen.group, seen.mode);
    } else {
        lemma_modes_follow_owners(seq![], seq![], seq![], None, None, 0);
    }
}

/// Over a whole list of files, nothing waits for a file that is not in it.
pub proof fn lemma_unseen_file(list: Seq<Seen>, file: Seq<char>)
    requires
        forall|i: int| 0 <= i < list.len() ==> path_key((#[trigger] list[i]).file) != path_key(file),
    ensures
        lookup(waiting(list).0, file) is None,
        lookup(waiting(list).1, file) is None,
    decreases list.len(),
{
    if list.len() > 0 {
        let (owners, modes) = waiting(list.drop_last());
        let seen = list.last();
        lemma_unseen_file(list.drop_last(), file);
        lemma_other_files_unchanged(
            owners,
            modes,
            seen.file,
            seen.owner,
            seen.group,
            seen.mode,
            file,
        );
    }
}

/// Over a whole list of files, what waits for a file that is in it once is the
/// owner and the group that are not root's, and with them the mode if it has
/// special permissions.
pub proof fn lemma_seen_file(list: Seq<Seen>, i: int)
    requires
        0 <= i < list.len(),
        forall|j: int|
            0 <= j < list.len() && j != i ==> path_key((#[trigger] list[j]).file) != path_key(
                list[i].file,
            ),
    ensures
        lookup(waiting(list).0, list[i].file) == owner_text(list[i].owner, list[i].group),
        lookup(waiting(list).1, list[i].file) == (if (list[i].owner is Some || list[i].group is Some)
            && is_special(list[i].mode) {
            Some(list[i].mode)
        } else {
            None
        }),
    decreases list.len(),
{
    let (owners, modes) = waiting(list.drop_last());
    let seen = list.last();
    if i == list.len() - 1 {
        lemma_unseen_file(list.drop_last(), seen.file);
        lemma_owner_of_new_file(owners, seen.file, seen.owner, seen.group);
        lemma_stored_lookup(modes, seen.file, seen.mode, seen.file);
    } else {
        lemma_seen_file(list.drop_last(), i);
        lemma_other_files_unchanged(
            owners,
            modes,
            seen.file,
            seen.owner,
            seen.group,
            seen.mode,
            list[i].file,
        );
    }
}

impl Rpm {
    /// What the package would be relocated to, in the directory that it is
    /// unpacked in, if it can be relocated.
    pub fn relocation_target(&self, work_dir: &str) -> (r: Option<String>)
        ensures
            opt_text(r) == (match opt_text(self.prefixes) {
                Some(p) => Some(below(work_dir@, p)),
                None => None,
            }),
    {
        match &self.prefixes {
            Some(p) => Some(path_below(work_dir, p.as_str())),
            None => None,
        }
    }

    /// Starts the relocation of the package in the directory that it is
    /// unpacked in, unless it cannot be relocated or what it would be relocated
    /// to is in it already.
    pub fn relocation(&self, work_dir: &str, target_exists: bool) -> (r: Option<Relocation>)
        ensures
            match opt_text(self.prefixes) {
                Some(p) if !target_exists => r matches Some(relocation) && relocation@ == (
                RelocationView {
                    directories: destinations(work_dir@, p),
                    made: 0,
                    abandoned: false,
                }),
                _ => r is None,
            },
    {
        match &self.prefixes {
            Some(p) => {
                if target_exists {
                    None
                } else {
                    Some(
                        Relocation {
                            directories: directories_to(work_dir, p.as_str()),
                            made: 0,
                            abandoned: false,
                        },
                    )
                }
            },
            None => None,
        }
    }

    /// Makes the configuration files those of the relocated package.
    pub fn relocate_conffiles(&mut self)
        ensures
            final(self).info@ == (crate::package::InfoView {
                conffiles: relocated(opt_text(old(self).prefixes), old(self).info@.conffiles),
                ..old(self).info@
            }),
            final(self).rpm_file == old(self).rpm_file,
            final(self).prefixes == old(self).prefixes,
    {
        if let Some(p) = &self.prefixes {
            let mut moved: Vec<String> = Vec::new();
            let ghost files = texts(self.info.conffiles@);
            for i in 0..self.info.conffiles.len()
                invariant
                    files == texts(self.info.conffiles@),
                    texts(moved@) == files.take(i as int).map_values(
                        |f: Seq<char>| joined(p@, f, '/'),
                    ),
            {
                let ghost before = moved@;
                moved.push(join(p.as_str(), self.info.conffiles[i].as_str()));
                assert(texts(moved@) =~= texts(before).push(joined(p@, files[i as int], '/')));
                assert(files.take(i + 1) =~= files.take(i as int).push(files[i as int]));
                assert(texts(moved@) =~= files.take(i + 1).map_values(
                    |f: Seq<char>| joined(p@, f, '/'),
                ));
            }
            assert(files.take(files.len() as int) =~= files);
            self.info.conffiles = moved;
        }
        assert(self.info@ =~= (crate::package::InfoView {
            conffiles: relocated(opt_text(old(self).prefixes), old(self).info@.conffiles),
            ..old(self).info@
        }));
    }

    /// Takes over the owners and modes to set after installation, in place of
    /// any that were known before.
    pub fn unpacked(&mut self, ownership: Ownership)
        ensures
            final(self).info@ == (crate::package::InfoView {
                owninfo: ownership.owninfo@,
                modeinfo: ownership.modeinfo@,
                ..old(self).info@
            }),
            final(self).rpm_file == old(self).rpm_file,
            final(self).prefixes == old(self).prefixes,
    {
        self.info.owninfo = ownership.owninfo;
        self.info.modeinfo = ownership.modeinfo;
    }
}

} // verus!
