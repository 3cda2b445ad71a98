//! The state of a file that the program name may refer to.
use crate::disk::PathFacts;
use vstd::prelude::*;

verus! {

/// All the states a file inside a search directory can be in.
#[derive(Debug, Clone, Copy, PartialEq, Eq, Hash, Structural)]
pub enum FileState {
    Valid,
    IsDir,
    Missing,
    BadSymlink,
    NotExecutable,
}

/// What a symbolic link leads to.
#[derive(Debug, Clone, Copy, PartialEq, Eq, Structural)]
pub enum SymlinkState {
    IsDir,
    Valid,
    Missing,
    NotExecutable,
}

/// The state of the file that `facts` describe.
///
/// A symbolic link is judged by what it resolves to: a link to a valid
/// executable is valid, a link to a file without execute permission is not
/// executable, and every other link is a bad link. Anything else is missing
/// when it does not exist, a directory when it is one, and otherwise valid or
/// not according to its execute permission.
pub open spec fn classify(facts: PathFacts) -> FileState
    decreases facts,
{
    if facts.is_symlink {
        match classify_link(facts) {
            SymlinkState::Valid => FileState::Valid,
            SymlinkState::NotExecutable => FileState::NotExecutable,
            SymlinkState::IsDir | SymlinkState::Missing => FileState::BadSymlink,
        }
    } else if !facts.exists {
        FileState::Missing
    } else if facts.is_dir {
        FileState::IsDir
    } else if facts.is_executable {
        FileState::Valid
    } else {
        FileState::NotExecutable
    }
}

/// What the symbolic link that `facts` describe leads to: the state of the
/// resolved target, where a target that is missing or is itself a bad link
/// counts as missing, and so does a link that could not be resolved.
pub open spec fn classify_link(facts: PathFacts) -> SymlinkState
    decreases facts, 0nat,
{
    match facts.resolved {
        Some(target) => match classify(*target) {
            FileState::IsDir => SymlinkState::IsDir,
            FileState::Valid => SymlinkState::Valid,
            FileState::Missing | FileState::BadSymlink => SymlinkState::Missing,
            FileState::NotExecutable => SymlinkState::NotExecutable,
        },
        None => SymlinkState::Missing,
    }
}

/// The short name of a state, as reports show it.
pub open spec fn label_text(state: FileState) -> Seq<char> {
    match state {
        FileState::Valid => "OK"@,
        FileState::IsDir => "IS DIR"@,
        FileState::Missing => "MISSING"@,
        FileState::BadSymlink => "BAD SYM"@,
        FileState::NotExecutable => "NOT EXE"@,
    }
}

/// What a state means, in a sentence.
pub open spec fn details_text(state: FileState) -> Seq<char> {
    match state {
        FileState::Valid => "File found matching program name with executable permissions. Valid executable."@,
        FileState::IsDir => "Entry found matching program name, but is a directory. Executables must be a file"@,
        FileState::Missing => "File not found at this path"@,
        FileState::BadSymlink => "File found matching program name, but is a broken symlink"@,
        FileState::NotExecutable => "File found matching program name, but it does not have executable permissions"@,
    }
}

impl FileState {
    /// The short name of the state, as reports show it.
    pub fn label(&self) -> (text: &'static str)
        ensures
            text@ == label_text(*self),
    {
        match self {
            FileState::Valid => "OK",
            FileState::IsDir => "IS DIR",
            FileState::Missing => "MISSING",
            FileState::BadSymlink => "BAD SYM",
            FileState::NotExecutable => "NOT EXE",
        }
    }

    /// What the state means, in a sentence.
    pub fn details(&self) -> (text: String)
        ensures
            text@ == details_text(*self),
    {
        String::from_str(
            match self {
                FileState::Valid => "File found matching program name with executable permissions. Valid executable.",
                FileState::IsDir => "Entry found matching program name, but is a directory. Executables must be a file",
                FileState::Missing => "File not found at this path",
                FileState::BadSymlink => "File found matching program name, but is a broken symlink",
                FileState::NotExecutable => "File found matching program name, but it does not have executable permissions",
            },
        )
    }
}

/// A symbolic link is never a directory and never missing: it is valid when
/// its target is a valid executable, not executable when its target lacks
/// the permission, and a bad link in every other case, among them a target
/// that does not exist, a target that is a directory and a link that cannot
/// be resolved.
pub proof fn lemma_links_are_judged_by_their_target(facts: PathFacts)
    requires
        facts.is_symlink,
    ensures
        facts.resolved is None ==> classify(facts) == FileState::BadSymlink,
        facts.resolved matches Some(target) ==> classify(facts) == match classify(*target) {
            FileState::Valid => FileState::Valid,
            FileState::NotExecutable => FileState::NotExecutable,
            FileState::IsDir | FileState::Missing | FileState::BadSymlink => FileState::BadSymlink,
        },
        classify(facts) != FileState::IsDir,
        classify(facts) != FileState::Missing,
{
}

/// Return the state of a file inside of a search directory.
pub fn file_state(facts: &PathFacts) -> (state: FileState)
    ensures
        state == classify(*facts),
    decreases *facts,
{
    if facts.is_symlink {
        match symlink_state(facts) {
            SymlinkState::Valid => FileState::Valid,
            SymlinkState::NotExecutable => FileState::NotExecutable,
            SymlinkState::IsDir | SymlinkState::Missing => FileState::BadSymlink,
        }
    } else if facts.exists {
        if facts.is_dir {
            FileState::IsDir
        } else if facts.is_executable {
            FileState::Valid
        } else {
            FileState::NotExecutable
        }
    } else {
        FileState::Missing
    }
}

/// Return what a symbolic link leads to, judging the resolved target as a
/// file of its own.
pub fn symlink_state(facts: &PathFacts) -> (state: SymlinkState)
    ensures
        state == classify_link(*facts),
    decreases *facts, 0nat,
{
    match &facts.resolved {
        Some(target) => match file_state(target) {
            FileState::IsDir => SymlinkState::IsDir,
            FileState::Valid => SymlinkState::Valid,
            FileState::Missing | FileState::BadSymlink => SymlinkState::Missing,
            FileState::NotExecutable => SymlinkState::NotExecutable,
        },
        None => SymlinkState::Missing,
    }
}

} // verus!
