//! A file that the program name may refer to, with its state.
use crate::disk::Disk;
use crate::disk::PathFacts;
use crate::file_state::classify;
use crate::file_state::file_state;
use crate::file_state::label_text;
use crate::file_state::FileState;
use crate::text;
use vstd::prelude::*;

verus! {

/// Represents a file on disk inside of a search directory
#[derive(Clone, Debug, PartialEq, Eq)]
pub struct PathWithState {
    pub path: Vec<u8>,
    pub state: FileState,
}

/// What a [`PathWithState`] holds, as plain values.
pub struct FoundView {
    pub path: Seq<u8>,
    pub state: FileState,
}

impl View for PathWithState {
    type V = FoundView;

    open spec fn view(&self) -> FoundView {
        FoundView { path: self.path@, state: self.state }
    }
}

/// The views of a list of files.
pub open spec fn found_views(found: Seq<PathWithState>) -> Seq<FoundView> {
    found.map_values(|file: PathWithState| file@)
}

/// The file at `path` with the state that `disk` gives it.
pub open spec fn found_at(path: Seq<u8>, disk: Disk) -> FoundView {
    FoundView { path, state: classify(disk.facts_at(path)) }
}

/// A file as a line of a report: the short name of its state in square
/// brackets, filled up to `width`, and the path, quoted.
pub open spec fn rendered(file: FoundView, width: nat) -> Seq<char> {
    "["@ + text::padded(label_text(file.state), width) + "] "@ + text::shown(file.path)
}

impl PathWithState {
    /// Pairs `path` with the state that `disk` gives it.
    pub fn new(path: Vec<u8>, disk: &Disk) -> (found: PathWithState)
        ensures
            found.path == path,
            found@ == found_at(path@, *disk),
    {
        let unknown = PathFacts::unknown();
        let state = match disk.lookup(path.as_slice()) {
            Some(facts) => file_state(facts),
            None => file_state(&unknown),
        };
        PathWithState { path, state }
    }

    /// The file as a line of a report, the state filled up to `width`
    /// characters.
    pub fn render(&self, width: usize) -> (line: String)
        ensures
            line@ == rendered(self@, width as nat),
    {
        let mut line = String::from_str("[");
        let label = text::pad(self.state.label(), width);
        line.append(label.as_str());
        line.append("] ");
        let path = text::show(self.path.as_slice());
        line.append(path.as_str());
        line
    }
}

} // verus!
