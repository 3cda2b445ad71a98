//! One directory of the search path.
use crate::bytes;
use crate::disk::Disk;
use crate::disk::PathFacts;
use crate::path;
use crate::text;
use vstd::prelude::*;

verus! {

/// The state of a search directory.
#[derive(Clone, Copy, Debug, PartialEq, Eq, Hash, Structural)]
pub enum PartState {
    /// No problems detected
    Valid,
    /// Path exists, but it's not a directory
    NotDir,
    /// Dir does not exist
    Missing,
    /// Dir exists, but there are no files in it
    EmptyDir,
}

/// Represents pieces of a search path
///
/// A search path is broken up by a separator. Those parts can be either
/// absolute or relative.
///
/// This struct retains the original representation of the part. It provides
/// a normalized interface through the `absolute` field, which accounts for
/// relative pieces. The state is the one the directory had in the snapshot
/// the part was made from; it is never looked at again.
#[derive(Clone, Debug, PartialEq, Eq)]
pub struct PathPart {
    /// Expanded absolute path
    pub absolute: Vec<u8>,
    /// Working directory in effect when the search path was read
    pub cwd: Vec<u8>,
    /// The status of the part, i.e. if it's an empty dir or not etc.
    pub state: PartState,
    /// Original part of the search path
    pub original: Vec<u8>,
    /// The original part was written as a relative path
    pub relative: bool,
}

/// What a [`PathPart`] holds, as plain values.
pub struct PartView {
    pub absolute: Seq<u8>,
    pub cwd: Seq<u8>,
    pub state: PartState,
    pub original: Seq<u8>,
    pub relative: bool,
}

impl View for PathPart {
    type V = PartView;

    open spec fn view(&self) -> PartView {
        PartView {
            absolute: self.absolute@,
            cwd: self.cwd@,
            state: self.state,
            original: self.original@,
            relative: self.relative,
        }
    }
}

/// The views of a list of parts.
pub open spec fn part_views(parts: Seq<PathPart>) -> Seq<PartView> {
    parts.map_values(|part: PathPart| part@)
}

/// The absolute paths of a list of parts.
pub open spec fn absolutes(parts: Seq<PartView>) -> Seq<Seq<u8>> {
    parts.map_values(|part: PartView| part.absolute)
}

/// The absolute form of a search directory: `original` as it is when it is
/// absolute, and otherwise `original` taken from `cwd`.
pub open spec fn absolute_form(cwd: Seq<u8>, original: Seq<u8>) -> Seq<u8> {
    if path::is_absolute(original) {
        original
    } else {
        path::joined(cwd, original)
    }
}

/// Whether listing the directory gave anything: a directory that could not
/// be listed counts as having nothing in it.
pub open spec fn has_entries(facts: PathFacts) -> bool {
    facts.entries matches Some(names) && names.len() > 0
}

/// The state of the search directory that `facts` describe: missing when
/// nothing exists there, not a directory when something else does, and
/// otherwise empty or valid according to whether it has entries.
pub open spec fn classify_part(facts: PathFacts) -> PartState {
    if !facts.exists {
        PartState::Missing
    } else if !facts.is_dir {
        PartState::NotDir
    } else if has_entries(facts) {
        PartState::Valid
    } else {
        PartState::EmptyDir
    }
}

/// The part that the piece `original` of a search path makes when it is
/// read in the working directory `cwd` and looked up on `disk`.
pub open spec fn part_of(cwd: Seq<u8>, original: Seq<u8>, disk: Disk) -> PartView {
    PartView {
        absolute: absolute_form(cwd, original),
        cwd,
        state: classify_part(disk.facts_at(absolute_form(cwd, original))),
        original,
        relative: !path::is_absolute(original),
    }
}

/// The parts that the pieces `originals` make, in order.
pub open spec fn parts_of(cwd: Seq<u8>, originals: Seq<Seq<u8>>, disk: Disk) -> Seq<PartView> {
    originals.map_values(|original: Seq<u8>| part_of(cwd, original, disk))
}

/// The short name of a state, as reports show it.
pub open spec fn label_text(state: PartState) -> Seq<char> {
    match state {
        PartState::EmptyDir => "EMPTY"@,
        PartState::Missing => "MISSING"@,
        PartState::NotDir => "NOT DIR"@,
        PartState::Valid => "OK"@,
    }
}

/// What a state means, in a sentence.
pub open spec fn details_text(state: PartState) -> Seq<char> {
    match state {
        PartState::Valid => "Path part is a valid, non-empty, directory"@,
        PartState::NotDir => "Path part exists, but is a file. Must be a directory"@,
        PartState::Missing => "Path part does not exist exist on disk, no such directory"@,
        PartState::EmptyDir => "Path part directory exists, but it is empty"@,
    }
}

impl PartState {
    /// The short name of the state, as reports show it.
    pub fn label(&self) -> (text: &'static str)
        ensures
            text@ == label_text(*self),
    {
        match self {
            PartState::EmptyDir => "EMPTY",
            PartState::Missing => "MISSING",
            PartState::NotDir => "NOT DIR",
            PartState::Valid => "OK",
        }
    }

    /// What the state means, in a sentence.
    #[must_use]
    pub fn details(&self) -> (text: String)
        ensures
            text@ == details_text(*self),
    {
        String::from_str(
            match self {
                PartState::Valid => "Path part is a valid, non-empty, directory",
                PartState::NotDir => "Path part exists, but is a file. Must be a directory",
                PartState::Missing => "Path part does not exist exist on disk, no such directory",
                PartState::EmptyDir => "Path part directory exists, but it is empty",
            },
        )
    }
}

/// Whether listing the directory gave at least one entry.
pub fn any_files_in_dir(facts: &PathFacts) -> (any: bool)
    ensures
        any == has_entries(*facts),
{
    if let Some(names) = &facts.entries {
        names.len() > 0
    } else {
        false
    }
}

/// Return the state of a search directory.
pub fn part_state(facts: &PathFacts) -> (state: PartState)
    ensures
        state == classify_part(*facts),
{
    if facts.exists {
        if facts.is_dir {
            if any_files_in_dir(facts) {
                PartState::Valid
            } else {
                PartState::EmptyDir
            }
        } else {
            PartState::NotDir
        }
    } else {
        PartState::Missing
    }
}

/// A part as a line of a report: the short name of its state in square
/// brackets, filled up to `width`; for a relative part the working
/// directory it was read in; and the part as it was written, quoted.
pub open spec fn rendered(part: PartView, width: nat) -> Seq<char> {
    let state = "["@ + text::padded(label_text(part.state), width) + "] "@;
    let origin = if part.relative {
        "(relative from "@ + text::shown(part.cwd) + ") "@
    } else {
        Seq::empty()
    };
    state + origin + text::shown(part.original)
}

impl PathPart {
    /// A part is well formed when its derived fields agree with the ones it
    /// was made from.
    pub open spec fn wf(&self) -> bool {
        &&& self.relative == !path::is_absolute(self.original@)
        &&& self.absolute@ == absolute_form(self.cwd@, self.original@)
    }

    /// A part is a snapshot of `disk` when it is well formed and its state
    /// is the one that `disk` gives its absolute path.
    pub open spec fn snapshot_of(&self, disk: Disk) -> bool {
        self@ == part_of(self.cwd@, self.original@, disk)
    }

    /// Whether the part was written as a relative path.
    pub fn is_relative(&self) -> (relative: bool)
        ensures
            relative == self.relative,
    {
        self.relative
    }

    /// Resolves one piece of the search path against `cwd` and classifies the
    /// directory it names by what `disk` holds for its absolute form.
    #[must_use]
    pub fn new(cwd: &[u8], original: &[u8], disk: &Disk) -> (part: PathPart)
        ensures
            part@ == part_of(cwd@, original@, *disk),
            part.wf(),
    {
        let relative = path::is_relative(original);
        let absolute = if relative {
            path::join(cwd, original)
        } else {
            bytes::copy(original)
        };
        let unknown = PathFacts::unknown();
        let state = match disk.lookup(absolute.as_slice()) {
            Some(facts) => part_state(facts),
            None => part_state(&unknown),
        };
        PathPart { absolute, cwd: bytes::copy(cwd), state, original: bytes::copy(original), relative }
    }

    /// The part as a line of a report, the state filled up to `width`
    /// characters.
    pub fn render(&self, width: usize) -> (line: String)
        ensures
            line@ == rendered(self@, width as nat),
    {
        let mut line = String::from_str("[");
        let label = text::pad(self.state.label(), width);
        line.append(label.as_str());
        line.append("] ");
        if self.relative {
            line.append("(relative from ");
            let cwd = text::show(self.cwd.as_slice());
            line.append(cwd.as_str());
            line.append(") ");
        }
        let original = text::show(self.original.as_slice());
        line.append(original.as_str());
        line
    }

    /// A copy of the part.
    pub fn duplicate(&self) -> (same: PathPart)
        ensures
            same@ == self@,
    {
        PathPart {
            absolute: bytes::copy(self.absolute.as_slice()),
            cwd: bytes::copy(self.cwd.as_slice()),
            state: self.state,
            original: bytes::copy(self.original.as_slice()),
            relative: self.relative,
        }
    }
}

} // verus!
