//! The result of a diagnosis.
use crate::bytes;
use crate::file_state;
use crate::file_state::FileState;
use crate::path;
use crate::path_part;
use crate::path_part::part_views;
use crate::path_part::PartState;
use crate::path_part::PartView;
use crate::path_part::PathPart;
use crate::path_with_state::found_views;
use crate::path_with_state::FoundView;
use crate::path_with_state;
use crate::path_with_state::PathWithState;
use crate::text;
use vstd::prelude::*;

verus! {

/// Holds the results of a `Which::diagnose` call
///
/// The main interface is intended to output diagnostic
/// information to an end user, see [`Program::render`].
#[derive(Clone, Debug, Default, PartialEq, Eq)]
pub struct Program {
    /// The program that was asked for
    pub name: Vec<u8>,
    /// The names closest to the program, closest first, if there are any
    pub suggested: Option<Vec<Vec<u8>>>,
    /// The directories of the search path, in search order
    pub path_parts: Vec<PathPart>,
    /// The files the program name refers to, in search order
    pub found_files: Vec<PathWithState>,
}

/// What a [`Program`] holds, as plain values.
pub struct ProgramView {
    pub name: Seq<u8>,
    pub suggested: Option<Seq<Seq<u8>>>,
    pub path_parts: Seq<PartView>,
    pub found_files: Seq<FoundView>,
}

impl View for Program {
    type V = ProgramView;

    open spec fn view(&self) -> ProgramView {
        ProgramView {
            name: self.name@,
            suggested: match self.suggested {
                Some(names) => Some(bytes::views(names@)),
                None => None,
            },
            path_parts: part_views(self.path_parts@),
            found_files: found_views(self.found_files@),
        }
    }
}

/// The bytes that count as white space: space, tab, line feed, form feed and
/// carriage return.
pub open spec fn is_whitespace(byte: u8) -> bool {
    byte == 0x20 || byte == 0x09 || byte == 0x0a || byte == 0x0c || byte == 0x0d
}

/// Whether a program name holds white space anywhere.
pub fn contains_whitespace(name: &[u8]) -> (found: bool)
    ensures
        found == exists|i: int| 0 <= i < name@.len() && is_whitespace(#[trigger] name@[i]),
{
    let mut i: usize = 0;
    while i < name.len()
        invariant
            i <= name.len(),
            forall|k: int| 0 <= k < i ==> !is_whitespace(#[trigger] name@[k]),
        decreases name.len() - i,
    {
        let byte = name[i];
        if byte == 0x20 || byte == 0x09 || byte == 0x0a || byte == 0x0c || byte == 0x0d {
            return true;
        }
        i += 1;
    }
    false
}

/// Whether a name holds white space anywhere.
pub open spec fn has_whitespace(name: Seq<u8>) -> bool {
    exists|i: int| 0 <= i < name.len() && is_whitespace(#[trigger] name[i])
}

/// The first of `files` that is in the state `state`.
pub open spec fn first_with(files: Seq<FoundView>, state: FileState) -> Option<FoundView>
    decreases files.len(),
{
    if files.len() == 0 {
        None
    } else {
        match first_with(files.drop_last(), state) {
            Some(file) => Some(file),
            None => if files.last().state == state {
                Some(files.last())
            } else {
                None
            },
        }
    }
}

/// The items of a list without repetitions, each where it first occurs.
pub open spec fn distinct<A>(items: Seq<A>) -> Seq<A>
    decreases items.len(),
{
    if items.len() == 0 {
        Seq::empty()
    } else {
        let earlier = distinct(items.drop_last());
        if earlier.contains(items.last()) {
            earlier
        } else {
            earlier.push(items.last())
        }
    }
}

/// The states of a list of files.
pub open spec fn file_states(files: Seq<FoundView>) -> Seq<FileState> {
    files.map_values(|file: FoundView| file.state)
}

/// The states of a list of parts.
pub open spec fn part_states(parts: Seq<PartView>) -> Seq<PartState> {
    parts.map_values(|part: PartView| part.state)
}

/// The length of the longest short name among the states of `states`.
pub open spec fn file_width(states: Seq<FileState>) -> nat
    decreases states.len(),
{
    if states.len() == 0 {
        0
    } else {
        let earlier = file_width(states.drop_last());
        let last = file_state::label_text(states.last()).len();
        if last > earlier {
            last
        } else {
            earlier
        }
    }
}

/// The length of the longest short name among the states of `states`.
pub open spec fn part_width(states: Seq<PartState>) -> nat
    decreases states.len(),
{
    if states.len() == 0 {
        0
    } else {
        let earlier = part_width(states.drop_last());
        let last = path_part::label_text(states.last()).len();
        if last > earlier {
            last
        } else {
            earlier
        }
    }
}

/// The first lines of a report: whether the program was found, and where.
/// A file that can be executed is named before one that cannot; when there
/// is neither, a blank name and white space in the name are pointed out.
pub open spec fn headline(program: ProgramView) -> Seq<char> {
    let name = text::shown(program.name);
    match first_with(program.found_files, FileState::Valid) {
        Some(found) => "Program "@ + name + " found at "@ + text::shown(found.path) + "\n"@,
        None => match first_with(program.found_files, FileState::NotExecutable) {
            Some(found) => "Program "@ + name + " found at "@ + text::shown(found.path)
                + " but is not executable\n"@,
            None => "Program "@ + name + " not found\n"@ + (if program.name.len() == 0 {
                "Warning: Program is blank\n"@
            } else {
                Seq::empty()
            }) + (if has_whitespace(program.name) {
                "Warning: Program contains whitespace\n"@
            } else {
                Seq::empty()
            }),
        },
    }
}

/// The mark in front of a line: an arrow where `marked`, a dash elsewhere.
pub open spec fn marker(marked: bool) -> Seq<char> {
    if marked {
        "> "@
    } else {
        "- "@
    }
}

/// The line of one file; the file at the path `executable` is marked.
pub open spec fn file_line(file: FoundView, executable: Option<Seq<u8>>, width: nat) -> Seq<char> {
    "  "@ + marker(executable == Some(file.path)) + path_with_state::rendered(file, width) + "\n"@
}

/// The lines of the files, in order.
pub open spec fn file_lines(files: Seq<FoundView>, executable: Option<Seq<u8>>, width: nat) -> Seq<
    char,
>
    decreases files.len(),
{
    if files.len() == 0 {
        Seq::empty()
    } else {
        file_lines(files.drop_last(), executable, width) + file_line(
            files.last(),
            executable,
            width,
        )
    }
}

/// The line that explains one state of a file.
pub open spec fn file_state_line(state: FileState, width: nat) -> Seq<char> {
    "    ["@ + text::padded(file_state::label_text(state), width) + "] - "@
        + file_state::details_text(state) + "\n"@
}

/// The lines that explain the states of `states`, in order.
pub open spec fn file_state_lines(states: Seq<FileState>, width: nat) -> Seq<char>
    decreases states.len(),
{
    if states.len() == 0 {
        Seq::empty()
    } else {
        file_state_lines(states.drop_last(), width) + file_state_line(states.last(), width)
    }
}

/// The part of a report on the files found: when there are several, all of
/// them with the one that runs marked, and what their states mean.
pub open spec fn files_section(program: ProgramView) -> Seq<char> {
    let files = program.found_files;
    if files.len() > 1 {
        let width = file_width(file_states(files));
        let executable = match first_with(files, FileState::Valid) {
            Some(found) => Some(found.path),
            None => None,
        };
        "Warning: Executables with the same name found on the PATH:\n"@ + file_lines(
            files,
            executable,
            width,
        ) + "Help: Ensure the one you want comes first and is [OK]\n"@ + "Explanation:\n"@
            + file_state_lines(distinct(file_states(files)), width) + "\n"@
    } else {
        "Info: No other executables with the same name are found on the PATH\n"@ + "\n"@
    }
}

/// A suggested name in double quotes, read as text.
pub open spec fn suggestion(name: Seq<u8>) -> Seq<char> {
    "\""@ + text::lossy_text(name) + "\""@
}

/// The suggested names, a comma between each two.
pub open spec fn suggestion_list(names: Seq<Seq<u8>>) -> Seq<char>
    decreases names.len(),
{
    if names.len() == 0 {
        Seq::empty()
    } else if names.len() == 1 {
        suggestion(names[0])
    } else {
        suggestion_list(names.drop_last()) + ", "@ + suggestion(names.last())
    }
}

/// The part of a report on the names that are close to the program.
pub open spec fn suggestions_section(program: ProgramView) -> Seq<char> {
    let intro = "Info: These executables have the closest spelling to "@ + text::shown(
        program.name,
    ) + " but did not match:\n"@ + "      "@;
    match program.suggested {
        Some(names) => intro + suggestion_list(names) + "\n"@ + "\n"@,
        None => intro,
    }
}

/// The line of one search directory; it is marked when the file that runs
/// is the one that the program name refers to in it.
pub open spec fn part_line(
    part: PartView,
    name: Seq<u8>,
    executable: Option<Seq<u8>>,
    width: nat,
) -> Seq<char> {
    "  "@ + marker(executable == Some(path::joined(part.absolute, name))) + path_part::rendered(
        part,
        width,
    ) + "\n"@
}

/// The lines of the search directories, in order.
pub open spec fn part_lines(
    parts: Seq<PartView>,
    name: Seq<u8>,
    executable: Option<Seq<u8>>,
    width: nat,
) -> Seq<char>
    decreases parts.len(),
{
    if parts.len() == 0 {
        Seq::empty()
    } else {
        part_lines(parts.drop_last(), name, executable, width) + part_line(
            parts.last(),
            name,
            executable,
            width,
        )
    }
}

/// The line that explains one state of a search directory.
pub open spec fn part_state_line(state: PartState, width: nat) -> Seq<char> {
    "    ["@ + text::padded(path_part::label_text(state), width) + "] - "@
        + path_part::details_text(state) + "\n"@
}

/// The lines that explain the states of `states`, in order.
pub open spec fn part_state_lines(states: Seq<PartState>, width: nat) -> Seq<char>
    decreases states.len(),
{
    if states.len() == 0 {
        Seq::empty()
    } else {
        part_state_lines(states.drop_last(), width) + part_state_line(states.last(), width)
    }
}

/// The part of a report on the search path: its directories in search
/// order, the one the program runs from marked, and what their states mean.
pub open spec fn parts_section(program: ProgramView) -> Seq<char> {
    let parts = program.path_parts;
    if parts.len() == 0 {
        "Warning: The PATH is empty\n"@
    } else {
        let width = part_width(part_states(parts));
        let executable = match first_with(program.found_files, FileState::Valid) {
            Some(found) => Some(found.path),
            None => None,
        };
        "Info: The following directories on PATH were searched (top to bottom):\n"@ + part_lines(
            parts,
            program.name,
            executable,
            width,
        ) + "Explanation:\n"@ + part_state_lines(distinct(part_states(parts)), width)
    }
}

/// The whole report.
pub open spec fn rendered(program: ProgramView) -> Seq<char> {
    headline(program) + "\n"@ + files_section(program) + suggestions_section(program)
        + parts_section(program)
}

/// The place of the first of `files` that is in the state `state`.
pub fn find_first(files: &[PathWithState], state: FileState) -> (place: Option<usize>)
    ensures
        place is Some <==> first_with(found_views(files@), state) is Some,
        place matches Some(i) ==> i < files.len() && first_with(found_views(files@), state)
            == Some(files@[i as int]@),
{
    let ghost views = found_views(files@);
    let mut i: usize = 0;
    assert(views.take(0) =~= Seq::<FoundView>::empty());
    while i < files.len()
        invariant
            i <= files.len(),
            views == found_views(files@),
            first_with(views.take(i as int), state) is None,
        decreases files.len() - i,
    {
        assert(views.take(i + 1).drop_last() =~= views.take(i as int));
        if files[i].state == state {
            proof {
                lemma_first_with_stays(views, state, i + 1);
            }
            return Some(i);
        }
        i += 1;
    }
    assert(views.take(files.len() as int) =~= views);
    None
}

/// A file that is the first in its state among the first `upto` files is
/// the first in its state among all of them.
proof fn lemma_first_with_stays(files: Seq<FoundView>, state: FileState, upto: int)
    requires
        0 <= upto <= files.len(),
        first_with(files.take(upto), state) is Some,
    ensures
        first_with(files, state) == first_with(files.take(upto), state),
    decreases files.len() - upto,
{
    if upto < files.len() {
        assert(files.take(upto + 1).drop_last() =~= files.take(upto));
        lemma_first_with_stays(files, state, upto + 1);
    } else {
        assert(files.take(upto) =~= files);
    }
}

/// Whether `state` is among `states`.
fn holds_file_state(states: &Vec<FileState>, state: FileState) -> (found: bool)
    ensures
        found == states@.contains(state),
{
    let mut i: usize = 0;
    while i < states.len()
        invariant
            i <= states.len(),
            forall|k: int| 0 <= k < i ==> states@[k] != state,
        decreases states.len() - i,
    {
        if states[i] == state {
            return true;
        }
        i += 1;
    }
    false
}

/// Whether `state` is among `states`.
fn holds_part_state(states: &Vec<PartState>, state: PartState) -> (found: bool)
    ensures
        found == states@.contains(state),
{
    let mut i: usize = 0;
    while i < states.len()
        invariant
            i <= states.len(),
            forall|k: int| 0 <= k < i ==> states@[k] != state,
        decreases states.len() - i,
    {
        if states[i] == state {
            return true;
        }
        i += 1;
    }
    false
}

/// The states of the files without repetitions, each where it first occurs.
fn distinct_file_states(files: &[PathWithState]) -> (states: Vec<FileState>)
    ensures
        states@ == distinct(file_states(found_views(files@))),
{
    let ghost all = file_states(found_views(files@));
    let mut states: Vec<FileState> = Vec::new();
    let mut i: usize = 0;
    assert(all.take(0) =~= Seq::<FileState>::empty());
    while i < files.len()
        invariant
            i <= files.len(),
            all == file_states(found_views(files@)),
            states@ == distinct(all.take(i as int)),
        decreases files.len() - i,
    {
        assert(all.take(i + 1).drop_last() =~= all.take(i as int));
        let state = files[i].state;
        if !holds_file_state(&states, state) {
            states.push(state);
        }
        i += 1;
    }
    assert(all.take(files.len() as int) =~= all);
    states
}

/// The states of the parts without repetitions, each where it first occurs.
fn distinct_part_states(parts: &[PathPart]) -> (states: Vec<PartState>)
    ensures
        states@ == distinct(part_states(part_views(parts@))),
{
    let ghost all = part_states(part_views(parts@));
    let mut states: Vec<PartState> = Vec::new();
    let mut i: usize = 0;
    assert(all.take(0) =~= Seq::<PartState>::empty());
    while i < parts.len()
        invariant
            i <= parts.len(),
            all == part_states(part_views(parts@)),
            states@ == distinct(all.take(i as int)),
        decreases parts.len() - i,
    {
        assert(all.take(i + 1).drop_last() =~= all.take(i as int));
        let state = parts[i].state;
        if !holds_part_state(&states, state) {
            states.push(state);
        }
        i += 1;
    }
    assert(all.take(parts.len() as int) =~= all);
    states
}

/// The length of the longest short name among the states of the files.
fn widest_file_label(files: &[PathWithState]) -> (width: usize)
    ensures
        width as nat == file_width(file_states(found_views(files@))),
{
    let ghost all = file_states(found_views(files@));
    let mut width: usize = 0;
    let mut i: usize = 0;
    assert(all.take(0) =~= Seq::<FileState>::empty());
    while i < files.len()
        invariant
            i <= files.len(),
            all == file_states(found_views(files@)),
            width as nat == file_width(all.take(i as int)),
        decreases files.len() - i,
    {
        assert(all.take(i + 1).drop_last() =~= all.take(i as int));
        let length = files[i].state.label().unicode_len();
        if length > width {
            width = length;
        }
        i += 1;
    }
    assert(all.take(files.len() as int) =~= all);
    width
}

/// The length of the longest short name among the states of the parts.
fn widest_part_label(parts: &[PathPart]) -> (width: usize)
    ensures
        width as nat == part_width(part_states(part_views(parts@))),
{
    let ghost all = part_states(part_views(parts@));
    let mut width: usize = 0;
    let mut i: usize = 0;
    assert(all.take(0) =~= Seq::<PartState>::empty());
    while i < parts.len()
        invariant
            i <= parts.len(),
            all == part_states(part_views(parts@)),
            width as nat == part_width(all.take(i as int)),
        decreases parts.len() - i,
    {
        assert(all.take(i + 1).drop_last() =~= all.take(i as int));
        let length = parts[i].state.label().unicode_len();
        if length > width {
            width = length;
        }
        i += 1;
    }
    assert(all.take(parts.len() as int) =~= all);
    width
}

/// The mark in front of a line.
fn mark(marked: bool) -> (text: &'static str)
    ensures
        text@ == marker(marked),
{
    if marked {
        "> "
    } else {
        "- "
    }
}

/// The path of the file at `place`, as a value of contracts.
pub open spec fn path_at(files: Seq<PathWithState>, place: Option<usize>) -> Option<Seq<u8>> {
    match place {
        Some(i) => Some(files[i as int].path@),
        None => None,
    }
}

/// The lines of the files, in order.
fn render_file_lines(files: &[PathWithState], executable: Option<usize>, width: usize) -> (lines:
    String)
    requires
        executable matches Some(e) ==> e < files.len(),
    ensures
        lines@ == file_lines(found_views(files@), path_at(files@, executable), width as nat),
{
    let ghost views = found_views(files@);
    let ghost marked = path_at(files@, executable);
    let mut lines = String::new();
    let mut i: usize = 0;
    assert(views.take(0) =~= Seq::<FoundView>::empty());
    while i < files.len()
        invariant
            i <= files.len(),
            views == found_views(files@),
            marked == path_at(files@, executable),
            executable matches Some(e) ==> e < files.len(),
            lines@ == file_lines(views.take(i as int), marked, width as nat),
        decreases files.len() - i,
    {
        assert(views.take(i + 1).drop_last() =~= views.take(i as int));
        assert(views.take(i + 1).last() == files@[i as int]@);
        let is_executable = match executable {
            Some(e) => bytes::same(files[e].path.as_slice(), files[i].path.as_slice()),
            None => false,
        };
        let mut line = String::from_str("  ");
        line.append(mark(is_executable));
        let file = files[i].render(width);
        line.append(file.as_str());
        line.append("\n");
        lines.append(line.as_str());
        i += 1;
    }
    assert(views.take(files.len() as int) =~= views);
    lines
}

/// The lines that explain the states of `states`, in order.
fn render_file_state_lines(states: &Vec<FileState>, width: usize) -> (lines: String)
    ensures
        lines@ == file_state_lines(states@, width as nat),
{
    let mut lines = String::new();
    let mut i: usize = 0;
    assert(states@.take(0) =~= Seq::<FileState>::empty());
    while i < states.len()
        invariant
            i <= states.len(),
            lines@ == file_state_lines(states@.take(i as int), width as nat),
        decreases states.len() - i,
    {
        assert(states@.take(i + 1).drop_last() =~= states@.take(i as int));
        let mut line = String::from_str("    [");
        let label = text::pad(states[i].label(), width);
        line.append(label.as_str());
        line.append("] - ");
        let details = states[i].details();
        line.append(details.as_str());
        line.append("\n");
        lines.append(line.as_str());
        i += 1;
    }
    assert(states@.take(states.len() as int) =~= states@);
    lines
}

/// The lines of the search directories, in order.
fn render_part_lines(
    parts: &[PathPart],
    name: &[u8],
    files: &[PathWithState],
    executable: Option<usize>,
    width: usize,
) -> (lines: String)
    requires
        executable matches Some(e) ==> e < files.len(),
    ensures
        lines@ == part_lines(
            part_views(parts@),
            name@,
            path_at(files@, executable),
            width as nat,
        ),
{
    let ghost views = part_views(parts@);
    let ghost marked = path_at(files@, executable);
    let mut lines = String::new();
    let mut i: usize = 0;
    assert(views.take(0) =~= Seq::<PartView>::empty());
    while i < parts.len()
        invariant
            i <= parts.len(),
            views == part_views(parts@),
            marked == path_at(files@, executable),
            executable matches Some(e) ==> e < files.len(),
            lines@ == part_lines(views.take(i as int), name@, marked, width as nat),
        decreases parts.len() - i,
    {
        assert(views.take(i + 1).drop_last() =~= views.take(i as int));
        assert(views.take(i + 1).last() == parts@[i as int]@);
        let holds_executable = match executable {
            Some(e) => {
                let file = path::join(parts[i].absolute.as_slice(), name);
                bytes::same(files[e].path.as_slice(), file.as_slice())
            },
            None => false,
        };
        let mut line = String::from_str("  ");
        line.append(mark(holds_executable));
        let part = parts[i].render(width);
        line.append(part.as_str());
        line.append("\n");
        lines.append(line.as_str());
        i += 1;
    }
    assert(views.take(parts.len() as int) =~= views);
    lines
}

/// The lines that explain the states of `states`, in order.
fn render_part_state_lines(states: &Vec<PartState>, width: usize) -> (lines: String)
    ensures
        lines@ == part_state_lines(states@, width as nat),
{
    let mut lines = String::new();
    let mut i: usize = 0;
    assert(states@.take(0) =~= Seq::<PartState>::empty());
    while i < states.len()
        invariant
            i <= states.len(),
            lines@ == part_state_lines(states@.take(i as int), width as nat),
        decreases states.len() - i,
    {
        assert(states@.take(i + 1).drop_last() =~= states@.take(i as int));
        let mut line = String::from_str("    [");
        let label = text::pad(states[i].label(), width);
        line.append(label.as_str());
        line.append("] - ");
        let details = states[i].details();
        line.append(details.as_str());
        line.append("\n");
        lines.append(line.as_str());
        i += 1;
    }
    assert(states@.take(states.len() as int) =~= states@);
    lines
}

/// The suggested names, a comma between each two.
fn render_suggestion_list(names: &Vec<Vec<u8>>) -> (list: String)
    ensures
        list@ == suggestion_list(bytes::views(names@)),
{
    let ghost all = bytes::views(names@);
    let mut list = String::new();
    let mut i: usize = 0;
    assert(all.take(0) =~= Seq::<Seq<u8>>::empty());
    while i < names.len()
        invariant
            i <= names.len(),
            all == bytes::views(names@),
            list@ == suggestion_list(all.take(i as int)),
        decreases names.len() - i,
    {
        assert(all.take(i + 1).drop_last() =~= all.take(i as int));
        assert(all.take(i + 1).last() == names@[i as int]@);
        let mut item = String::from_str("\"");
        let name = text::lossy(names[i].as_slice());
        item.append(name.as_str());
        item.append("\"");
        if i > 0 {
            list.append(", ");
        } else {
            assert(list@ + item@ =~= item@);
            assert(all.take(1)[0] == names@[0]@);
        }
        list.append(item.as_str());
        i += 1;
    }
    assert(all.take(names.len() as int) =~= all);
    list
}

impl Program {
    /// The first lines of the report.
    fn render_headline(&self) -> (lines: String)
        ensures
            lines@ == headline(self@),
    {
        let mut lines = String::from_str("Program ");
        let name = text::show(self.name.as_slice());
        lines.append(name.as_str());
        let files = self.found_files.as_slice();
        if let Some(valid) = find_first(files, FileState::Valid) {
            lines.append(" found at ");
            let file = text::show(files[valid].path.as_slice());
            lines.append(file.as_str());
            lines.append("\n");
        } else if let Some(locked) = find_first(files, FileState::NotExecutable) {
            lines.append(" found at ");
            let file = text::show(files[locked].path.as_slice());
            lines.append(file.as_str());
            lines.append(" but is not executable\n");
        } else {
            lines.append(" not found\n");
            let ghost so_far = lines@;
            if self.name.len() == 0 {
                lines.append("Warning: Program is blank\n");
            } else {
                assert(lines@ =~= so_far + Seq::<char>::empty());
            }
            let ghost so_far = lines@;
            if contains_whitespace(self.name.as_slice()) {
                lines.append("Warning: Program contains whitespace\n");
            } else {
                assert(lines@ =~= so_far + Seq::<char>::empty());
            }
        }
        lines
    }

    /// The part of the report on the files found.
    fn render_files(&self) -> (lines: String)
        ensures
            lines@ == files_section(self@),
    {
        let files = self.found_files.as_slice();
        if files.len() > 1 {
            let width = widest_file_label(files);
            let executable = find_first(files, FileState::Valid);
            let mut lines = String::from_str(
                "Warning: Executables with the same name found on the PATH:\n",
            );
            let file_lines = render_file_lines(files, executable, width);
            lines.append(file_lines.as_str());
            lines.append("Help: Ensure the one you want comes first and is [OK]\n");
            lines.append("Explanation:\n");
            let states = distinct_file_states(files);
            let state_lines = render_file_state_lines(&states, width);
            lines.append(state_lines.as_str());
            lines.append("\n");
            lines
        } else {
            let mut lines = String::from_str(
                "Info: No other executables with the same name are found on the PATH\n",
            );
            lines.append("\n");
            lines
        }
    }

    /// The part of the report on the names that are close to the program.
    fn render_suggestions(&self) -> (lines: String)
        ensures
            lines@ == suggestions_section(self@),
    {
        let mut lines = String::from_str("Info: These executables have the closest spelling to ");
        let name = text::show(self.name.as_slice());
        lines.append(name.as_str());
        lines.append(" but did not match:\n");
        lines.append("      ");
        if let Some(names) = &self.suggested {
            let list = render_suggestion_list(names);
            lines.append(list.as_str());
            lines.append("\n");
            lines.append("\n");
        }
        lines
    }

    /// The part of the report on the search path.
    fn render_parts(&self) -> (lines: String)
        ensures
            lines@ == parts_section(self@),
    {
        let parts = self.path_parts.as_slice();
        if parts.len() == 0 {
            String::from_str("Warning: The PATH is empty\n")
        } else {
            let files = self.found_files.as_slice();
            let width = widest_part_label(parts);
            let executable = find_first(files, FileState::Valid);
            let mut lines = String::from_str(
                "Info: The following directories on PATH were searched (top to bottom):\n",
            );
            let part_lines = render_part_lines(
                parts,
                self.name.as_slice(),
                files,
                executable,
                width,
            );
            lines.append(part_lines.as_str());
            lines.append("Explanation:\n");
            let states = distinct_part_states(parts);
            let state_lines = render_part_state_lines(&states, width);
            lines.append(state_lines.as_str());
            lines
        }
    }

    /// The report for people: whether and where the program was found, the
    /// other files of its name, the names close to it, and the search path.
    pub fn render(&self) -> (report: String)
        ensures
            report@ == rendered(self@),
    {
        let mut report = self.render_headline();
        report.append("\n");
        let files = self.render_files();
        report.append(files.as_str());
        let suggestions = self.render_suggestions();
        report.append(suggestions.as_str());
        let parts = self.render_parts();
        report.append(parts.as_str());
        report
    }
}

} // verus!
