//! The question, and the steps that answer it.
use crate::bytes;
use crate::disk::Disk;
use crate::file_state::classify;
use crate::file_state::FileState;
use crate::path;
use crate::path_part::absolute_form;
use crate::path_part::absolutes;
use crate::path_part::part_views;
use crate::path_part::parts_of;
use crate::path_part::PathPart;
use crate::path_with_state::found_at;
use crate::path_with_state::found_views;
use crate::path_with_state::FoundView;
use crate::path_with_state::PathWithState;
use crate::program::Program;
use crate::program::ProgramView;
use crate::suggest;
use crate::suggest::is_suggestion;
use vstd::prelude::*;

verus! {

/// Find problems with executable lookup
///
/// A field that is `None` is taken from what the process inherited, see
/// [`Ambient`].
#[derive(Clone, Debug, PartialEq, Eq)]
pub struct Which {
    /// The current working directory, affects search paths with relative parts
    pub cwd: Option<Vec<u8>>,
    /// The program name you're trying to execute i.e.
    /// for `bundle install` would be "bundle".
    pub program: Vec<u8>,
    /// The search path, its directories separated by `:`
    pub path_env: Option<Vec<u8>>,
    /// How many guesses to suggest if the command could not be found
    /// set to 0 to disable.
    pub guess_limit: usize,
}

/// What the process inherited from its surroundings, read once.
#[derive(Clone, Debug, PartialEq, Eq)]
pub struct Ambient {
    /// The working directory of the process, or `None` when it could not be
    /// determined.
    pub cwd: Option<Vec<u8>>,
    /// The search path of the process, or `None` when it has none.
    pub path: Option<Vec<u8>>,
}

/// Why a diagnosis could not be made.
#[derive(Clone, Copy, Debug, PartialEq, Eq, Structural)]
pub enum WhichError {
    /// No working directory was given and that of the process could not be
    /// determined.
    NoWorkingDirectory,
}

/// A question whose defaults have been filled in and whose search path has
/// been read against a snapshot.
#[derive(Clone, Debug, PartialEq, Eq)]
pub struct ResolvedWhich {
    pub program: Vec<u8>,
    pub path_parts: Vec<PathPart>,
    pub guess_limit: usize,
}

/// The files that `name` refers to in the directories `dirs`, in the order
/// of the directories. A directory in which nothing of that name was found
/// adds nothing; a directory that is listed twice adds its file twice.
pub open spec fn candidates(name: Seq<u8>, dirs: Seq<Seq<u8>>, disk: Disk) -> Seq<FoundView>
    decreases dirs.len(),
{
    if dirs.len() == 0 {
        Seq::empty()
    } else {
        let earlier = candidates(name, dirs.drop_last(), disk);
        let found = found_at(path::joined(dirs.last(), name), disk);
        if found.state == FileState::Missing {
            earlier
        } else {
            earlier.push(found)
        }
    }
}

/// For each of the [`candidates`], the place in `dirs` of the directory it
/// was found in.
pub open spec fn origins(name: Seq<u8>, dirs: Seq<Seq<u8>>, disk: Disk) -> Seq<int>
    decreases dirs.len(),
{
    if dirs.len() == 0 {
        Seq::empty()
    } else {
        let earlier = origins(name, dirs.drop_last(), disk);
        if found_at(path::joined(dirs.last(), name), disk).state == FileState::Missing {
            earlier
        } else {
            earlier.push(dirs.len() - 1)
        }
    }
}

/// The paths that a diagnosis looks at: for each piece of the search path
/// the directory it names and the file that the program would be in it.
pub open spec fn wanted(program: Seq<u8>, cwd: Seq<u8>, originals: Seq<Seq<u8>>) -> Seq<Seq<u8>>
    decreases originals.len(),
{
    if originals.len() == 0 {
        Seq::empty()
    } else {
        let dir = absolute_form(cwd, originals.last());
        wanted(program, cwd, originals.drop_last()).push(dir).push(path::joined(dir, program))
    }
}

/// `outcome` is the diagnosis of `program`, asked for in the working
/// directory `cwd` with the search path `search_path` and at most `limit`
/// suggestions, against `disk`.
pub open spec fn is_diagnosis(
    program: Seq<u8>,
    cwd: Seq<u8>,
    search_path: Seq<u8>,
    limit: nat,
    disk: Disk,
    outcome: ProgramView,
) -> bool {
    &&& outcome.name == program
    &&& outcome.path_parts == parts_of(cwd, path::segments(search_path), disk)
    &&& outcome.found_files == candidates(program, absolutes(outcome.path_parts), disk)
    &&& is_suggestion(program, absolutes(outcome.path_parts), limit, disk, outcome.suggested)
}

/// The files found for a name come in the order of the search path: each
/// was found in a directory of the path, in a later one than the file before
/// it, and every directory that has a file of that name is among them.
pub proof fn lemma_candidates_keep_search_order(name: Seq<u8>, dirs: Seq<Seq<u8>>, disk: Disk)
    ensures
        origins(name, dirs, disk).len() == candidates(name, dirs, disk).len(),
        forall|k: int|
            0 <= k < candidates(name, dirs, disk).len() ==> {
                let from = #[trigger] origins(name, dirs, disk)[k];
                &&& 0 <= from < dirs.len()
                &&& candidates(name, dirs, disk)[k] == found_at(path::joined(dirs[from], name), disk)
                &&& candidates(name, dirs, disk)[k].state != FileState::Missing
            },
        forall|j: int, k: int|
            0 <= j < k < origins(name, dirs, disk).len() ==> origins(name, dirs, disk)[j]
                < origins(name, dirs, disk)[k],
        forall|i: int|
            0 <= i < dirs.len() && found_at(path::joined(#[trigger] dirs[i], name), disk).state
                != FileState::Missing ==> origins(name, dirs, disk).contains(i),
    decreases dirs.len(),
{
    if dirs.len() > 0 {
        let shorter = dirs.drop_last();
        lemma_candidates_keep_search_order(name, shorter, disk);
        let earlier = origins(name, shorter, disk);
        let all = origins(name, dirs, disk);
        assert forall|i: int|
            0 <= i < dirs.len() && found_at(path::joined(#[trigger] dirs[i], name), disk).state
                != FileState::Missing implies all.contains(i) by {
            if i < dirs.len() - 1 {
                assert(shorter[i] == dirs[i]);
                assert(earlier.contains(i));
                let at = choose|at: int| 0 <= at < earlier.len() && earlier[at] == i;
                assert(all[at] == i);
            } else {
                assert(all[all.len() - 1] == i);
            }
        }
        assert forall|k: int| 0 <= k < candidates(name, dirs, disk).len() implies {
            let from = #[trigger] origins(name, dirs, disk)[k];
            &&& 0 <= from < dirs.len()
            &&& candidates(name, dirs, disk)[k] == found_at(path::joined(dirs[from], name), disk)
            &&& candidates(name, dirs, disk)[k].state != FileState::Missing
        } by {
            if k < earlier.len() {
                assert(shorter[earlier[k]] == dirs[earlier[k]]);
            }
        }
    }
}

/// With an empty search path there is nothing to search: no directories, no
/// files and no suggestions, whatever the program is called and whatever is
/// on disk.
pub proof fn lemma_empty_search_path_finds_nothing(
    program: Seq<u8>,
    cwd: Seq<u8>,
    limit: nat,
    disk: Disk,
    outcome: ProgramView,
)
    requires
        is_diagnosis(program, cwd, Seq::empty(), limit, disk, outcome),
    ensures
        outcome.path_parts.len() == 0,
        outcome.found_files.len() == 0,
        outcome.suggested is None,
{
    let dirs = absolutes(outcome.path_parts);
    assert(dirs =~= Seq::<Seq<u8>>::empty());
    if let Some(names) = outcome.suggested {
        assert(suggest::listing(dirs, disk).contains(names[0]));
    }
}

/// A question and a disk have one diagnosis: the program, the working
/// directory, the search path, the limit and the disk determine it.
pub proof fn lemma_diagnosis_is_unique(
    program: Seq<u8>,
    cwd: Seq<u8>,
    search_path: Seq<u8>,
    limit: nat,
    disk: Disk,
    first: ProgramView,
    second: ProgramView,
)
    requires
        is_diagnosis(program, cwd, search_path, limit, disk, first),
        is_diagnosis(program, cwd, search_path, limit, disk, second),
    ensures
        first == second,
{
    let names = suggest::listing(absolutes(first.path_parts), disk);
    match (first.suggested, second.suggested) {
        (Some(a), Some(b)) => {
            suggest::lemma_ranking_is_unique(program, names, limit, a, b);
        },
        (Some(a), None) => {
            assert(names.contains(a[0]) && a[0] != program);
        },
        (None, Some(b)) => {
            assert(names.contains(b[0]) && b[0] != program);
        },
        (None, None) => {},
    }
}

/// Every directory of the search path and the file of the program in it are
/// among the wanted paths.
proof fn lemma_wanted_holds(program: Seq<u8>, cwd: Seq<u8>, originals: Seq<Seq<u8>>, i: int)
    requires
        0 <= i < originals.len(),
    ensures
        wanted(program, cwd, originals).contains(absolute_form(cwd, originals[i])),
        wanted(program, cwd, originals).contains(
            path::joined(absolute_form(cwd, originals[i]), program),
        ),
    decreases originals.len(),
{
    let all = wanted(program, cwd, originals);
    let shorter = wanted(program, cwd, originals.drop_last());
    if i == originals.len() - 1 {
        assert(all[all.len() - 2] == absolute_form(cwd, originals[i]));
        assert(all[all.len() - 1] == path::joined(absolute_form(cwd, originals[i]), program));
    } else {
        lemma_wanted_holds(program, cwd, originals.drop_last(), i);
        let dir = absolute_form(cwd, originals[i]);
        let at = choose|at: int| 0 <= at < shorter.len() && shorter[at] == dir;
        assert(all[at] == dir);
        let file = path::joined(dir, program);
        let at = choose|at: int| 0 <= at < shorter.len() && shorter[at] == file;
        assert(all[at] == file);
    }
}

/// The files found depend on the disk only through the paths of the files.
proof fn lemma_candidates_read_files(name: Seq<u8>, dirs: Seq<Seq<u8>>, disk: Disk, other: Disk)
    requires
        forall|i: int|
            0 <= i < dirs.len() ==> disk.facts_at(path::joined(#[trigger] dirs[i], name))
                == other.facts_at(path::joined(dirs[i], name)),
    ensures
        candidates(name, dirs, disk) == candidates(name, dirs, other),
    decreases dirs.len(),
{
    if dirs.len() > 0 {
        assert forall|i: int| 0 <= i < dirs.drop_last().len() implies disk.facts_at(
            path::joined(#[trigger] dirs.drop_last()[i], name),
        ) == other.facts_at(path::joined(dirs.drop_last()[i], name)) by {
            assert(dirs.drop_last()[i] == dirs[i]);
        }
        lemma_candidates_read_files(name, dirs.drop_last(), disk, other);
        assert(dirs.last() == dirs[dirs.len() - 1]);
    }
}

/// The names listed depend on the disk only through the search directories.
proof fn lemma_listing_reads_directories(dirs: Seq<Seq<u8>>, disk: Disk, other: Disk)
    requires
        forall|i: int| 0 <= i < dirs.len() ==> disk.facts_at(#[trigger] dirs[i]) == other.facts_at(
            dirs[i],
        ),
    ensures
        suggest::listing(dirs, disk) == suggest::listing(dirs, other),
    decreases dirs.len(),
{
    if dirs.len() > 0 {
        assert forall|i: int| 0 <= i < dirs.drop_last().len() implies disk.facts_at(
            #[trigger] dirs.drop_last()[i],
        ) == other.facts_at(dirs.drop_last()[i]) by {
            assert(dirs.drop_last()[i] == dirs[i]);
        }
        lemma_listing_reads_directories(dirs.drop_last(), disk, other);
        assert(dirs.last() == dirs[dirs.len() - 1]);
    }
}

/// A diagnosis looks at the wanted paths and at nothing else: on two disks
/// that hold the same for each of those paths the diagnosis is the same.
pub proof fn lemma_diagnosis_reads_wanted_paths(
    program: Seq<u8>,
    cwd: Seq<u8>,
    search_path: Seq<u8>,
    limit: nat,
    disk: Disk,
    other: Disk,
    outcome: ProgramView,
)
    requires
        is_diagnosis(program, cwd, search_path, limit, disk, outcome),
        forall|path: Seq<u8>|
            wanted(program, cwd, path::segments(search_path)).contains(path) ==> disk.facts_at(
                path,
            ) == other.facts_at(path),
    ensures
        is_diagnosis(program, cwd, search_path, limit, other, outcome),
{
    let originals = path::segments(search_path);
    let dirs = absolutes(outcome.path_parts);
    assert forall|i: int| 0 <= i < originals.len() implies crate::path_part::part_of(
        cwd,
        #[trigger] originals[i],
        disk,
    ) == crate::path_part::part_of(cwd, originals[i], other) by {
        lemma_wanted_holds(program, cwd, originals, i);
    }
    assert(parts_of(cwd, originals, disk) =~= parts_of(cwd, originals, other));
    assert forall|i: int| 0 <= i < dirs.len() implies disk.facts_at(#[trigger] dirs[i])
        == other.facts_at(dirs[i]) && disk.facts_at(path::joined(dirs[i], program))
        == other.facts_at(path::joined(dirs[i], program)) by {
        lemma_wanted_holds(program, cwd, originals, i);
    }
    lemma_candidates_read_files(program, dirs, disk, other);
    lemma_listing_reads_directories(dirs, disk, other);
}

/// The files that the program name refers to in the search directories, in
/// search order. Files that are missing are left out.
pub fn files_on_path(name: &[u8], path_parts: &[PathPart], disk: &Disk) -> (found: Vec<
    PathWithState,
>)
    ensures
        found_views(found@) == candidates(name@, absolutes(part_views(path_parts@)), *disk),
{
    let mut found: Vec<PathWithState> = Vec::new();
    let ghost dirs = absolutes(part_views(path_parts@));
    let mut i: usize = 0;
    assert(dirs.take(0) =~= Seq::<Seq<u8>>::empty());
    while i < path_parts.len()
        invariant
            i <= path_parts.len(),
            dirs == absolutes(part_views(path_parts@)),
            found_views(found@) == candidates(name@, dirs.take(i as int), *disk),
        decreases path_parts.len() - i,
    {
        let ghost before = found_views(found@);
        assert(dirs.take(i + 1).drop_last() =~= dirs.take(i as int));
        assert(dirs.take(i + 1).last() == path_parts@[i as int].absolute@);
        let file = PathWithState::new(path::join(path_parts[i].absolute.as_slice(), name), disk);
        match file.state {
            FileState::Missing => {},
            _ => {
                found.push(file);
                assert(found_views(found@) =~= before.push(file@));
            },
        }
        i += 1;
    }
    assert(dirs.take(path_parts.len() as int) =~= dirs);
    found
}

impl Default for Which {
    /// Asks for a program without a name, with the working directory and the
    /// search path of the process and three suggestions.
    fn default() -> (which: Which)
        ensures
            which.cwd is None,
            which.program@.len() == 0,
            which.path_env is None,
            which.guess_limit == 3,
    {
        Which { program: Vec::new(), path_env: None, guess_limit: 3, cwd: None }
    }
}

impl Which {
    /// Asks for `program` with the working directory and the search path of
    /// the process and three suggestions.
    pub fn new(program: &[u8]) -> (which: Which)
        ensures
            which.cwd is None,
            which.program@ == program@,
            which.path_env is None,
            which.guess_limit == 3,
    {
        Which { program: bytes::copy(program), path_env: None, guess_limit: 3, cwd: None }
    }

    /// The working directory that holds: the one that was given, else that
    /// of the process.
    pub open spec fn working_directory(&self, ambient: Ambient) -> Option<Seq<u8>> {
        match (self.cwd, ambient.cwd) {
            (Some(given), _) => Some(given@),
            (None, Some(inherited)) => Some(inherited@),
            (None, None) => None,
        }
    }

    /// The search path that holds: the one that was given, else that of the
    /// process, else the empty one.
    pub open spec fn search_path(&self, ambient: Ambient) -> Seq<u8> {
        match (self.path_env, ambient.path) {
            (Some(given), _) => given@,
            (None, Some(inherited)) => inherited@,
            (None, None) => Seq::empty(),
        }
    }

    /// Whether the names in the search directories are wanted: they are not
    /// when no suggestions were asked for.
    pub fn scans_directories(&self) -> (scans: bool)
        ensures
            scans == (self.guess_limit > 0),
    {
        self.guess_limit > 0
    }

    /// The working directory that holds, if there is one.
    fn pick_cwd<'a>(&'a self, ambient: &'a Ambient) -> (cwd: Option<&'a Vec<u8>>)
        ensures
            cwd is Some <==> self.working_directory(*ambient) is Some,
            cwd matches Some(dir) ==> self.working_directory(*ambient) == Some(dir@),
    {
        match &self.cwd {
            Some(given) => Some(given),
            None => match &ambient.cwd {
                Some(inherited) => Some(inherited),
                None => None,
            },
        }
    }

    /// The pieces of the search path that holds.
    fn pick_segments(&self, ambient: &Ambient) -> (pieces: Vec<Vec<u8>>)
        ensures
            bytes::views(pieces@) == path::segments(self.search_path(*ambient)),
    {
        match &self.path_env {
            Some(given) => path::split_paths(given.as_slice()),
            None => match &ambient.path {
                Some(inherited) => path::split_paths(inherited.as_slice()),
                None => {
                    let pieces: Vec<Vec<u8>> = Vec::new();
                    assert(bytes::views(pieces@) =~= path::segments(Seq::<u8>::empty()));
                    pieces
                },
            },
        }
    }

    /// The paths to observe before a diagnosis is made: [`Which::diagnose`]
    /// looks at these and at no others. There are none when no working
    /// directory holds.
    pub fn wanted_paths(&self, ambient: &Ambient) -> (paths: Vec<Vec<u8>>)
        ensures
            bytes::views(paths@) == match self.working_directory(*ambient) {
                Some(cwd) => wanted(self.program@, cwd, path::segments(self.search_path(*ambient))),
                None => Seq::empty(),
            },
    {
        let mut paths: Vec<Vec<u8>> = Vec::new();
        let cwd = match self.pick_cwd(ambient) {
            Some(cwd) => cwd,
            None => {
                assert(bytes::views(paths@) =~= Seq::<Seq<u8>>::empty());
                return paths;
            },
        };
        let pieces = self.pick_segments(ambient);
        let ghost originals = bytes::views(pieces@);
        let mut i: usize = 0;
        assert(originals.take(0) =~= Seq::<Seq<u8>>::empty());
        assert(bytes::views(paths@) =~= Seq::<Seq<u8>>::empty());
        while i < pieces.len()
            invariant
                i <= pieces.len(),
                originals == bytes::views(pieces@),
                bytes::views(paths@) == wanted(self.program@, cwd@, originals.take(i as int)),
            decreases pieces.len() - i,
        {
            let ghost before = bytes::views(paths@);
            assert(originals.take(i + 1).drop_last() =~= originals.take(i as int));
            assert(originals.take(i + 1).last() == pieces@[i as int]@);
            let dir = if path::is_relative(pieces[i].as_slice()) {
                path::join(cwd.as_slice(), pieces[i].as_slice())
            } else {
                bytes::copy(pieces[i].as_slice())
            };
            let file = path::join(dir.as_slice(), self.program.as_slice());
            paths.push(dir);
            paths.push(file);
            assert(bytes::views(paths@) =~= before.push(dir@).push(file@));
            i += 1;
        }
        assert(originals.take(pieces.len() as int) =~= originals);
        paths
    }

    /// Fills in the defaults and reads the search path against `disk`.
    ///
    /// Fails when no working directory holds, and only then.
    pub fn resolve(&self, ambient: &Ambient, disk: &Disk) -> (outcome: Result<
        ResolvedWhich,
        WhichError,
    >)
        ensures
            outcome is Err <==> self.working_directory(*ambient) is None,
            outcome matches Ok(resolved) ==> {
                &&& resolved.program@ == self.program@
                &&& resolved.guess_limit == self.guess_limit
                &&& part_views(resolved.path_parts@) == parts_of(
                    self.working_directory(*ambient)->0,
                    path::segments(self.search_path(*ambient)),
                    *disk,
                )
            },
    {
        let cwd = match self.pick_cwd(ambient) {
            Some(cwd) => cwd,
            None => {
                return Err(WhichError::NoWorkingDirectory);
            },
        };
        let pieces = self.pick_segments(ambient);
        let mut path_parts: Vec<PathPart> = Vec::new();
        let mut i: usize = 0;
        while i < pieces.len()
            invariant
                i <= pieces.len(),
                path_parts.len() == i,
                forall|k: int|
                    0 <= k < i ==> (#[trigger] path_parts@[k])@ == crate::path_part::part_of(
                        cwd@,
                        pieces@[k]@,
                        *disk,
                    ),
            decreases pieces.len() - i,
        {
            path_parts.push(PathPart::new(cwd.as_slice(), pieces[i].as_slice(), disk));
            i += 1;
        }
        assert(part_views(path_parts@) =~= parts_of(cwd@, bytes::views(pieces@), *disk));
        Ok(
            ResolvedWhich {
                program: bytes::copy(self.program.as_slice()),
                path_parts,
                guess_limit: self.guess_limit,
            },
        )
    }

    /// Diagnoses why the program can or cannot be executed, from what the
    /// process inherited and what was observed on disk.
    ///
    /// # Errors
    ///
    /// - If no working directory was given and that of the process could not
    ///   be determined
    pub fn diagnose(&self, ambient: &Ambient, disk: &Disk) -> (outcome: Result<Program, WhichError>)
        ensures
            outcome is Err <==> self.working_directory(*ambient) is None,
            outcome matches Ok(program) ==> is_diagnosis(
                self.program@,
                self.working_directory(*ambient)->0,
                self.search_path(*ambient),
                self.guess_limit as nat,
                *disk,
                program@,
            ),
    {
        match self.resolve(ambient, disk) {
            Ok(which) => Ok(which.check(disk)),
            Err(error) => Err(error),
        }
    }
}

impl ResolvedWhich {
    /// Looks for the program in the search directories and for the names
    /// closest to it.
    pub fn check(&self, disk: &Disk) -> (program: Program)
        ensures
            program@.name == self.program@,
            program@.path_parts == part_views(self.path_parts@),
            program@.found_files == candidates(
                self.program@,
                absolutes(part_views(self.path_parts@)),
                *disk,
            ),
            is_suggestion(
                self.program@,
                absolutes(part_views(self.path_parts@)),
                self.guess_limit as nat,
                *disk,
                program@.suggested,
            ),
    {
        let suggested = suggest::spelling(
            self.program.as_slice(),
            self.path_parts.as_slice(),
            self.guess_limit,
            disk,
        );
        let mut path_parts: Vec<PathPart> = Vec::new();
        let mut i: usize = 0;
        while i < self.path_parts.len()
            invariant
                i <= self.path_parts.len(),
                path_parts.len() == i,
                forall|k: int| 0 <= k < i ==> (#[trigger] path_parts@[k])@ == self.path_parts@[k]@,
            decreases self.path_parts.len() - i,
        {
            path_parts.push(self.path_parts[i].duplicate());
            i += 1;
        }
        assert(part_views(path_parts@) =~= part_views(self.path_parts@));
        Program {
            name: bytes::copy(self.program.as_slice()),
            suggested,
            path_parts,
            found_files: files_on_path(
                self.program.as_slice(),
                self.path_parts.as_slice(),
                disk,
            ),
        }
    }
}

} // verus!
