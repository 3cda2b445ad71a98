//! The single problems that can keep a program from being executed.
use crate::bytes;
use crate::path_part::part_views;
use crate::path_part::PartView;
use crate::path_part::PathPart;
use crate::text;
use vstd::prelude::*;

verus! {

/// All known issues that could cause problems with invoking a program
///
/// Ordered by severity
#[derive(Clone, Debug, PartialEq, Eq)]
pub enum Problem {
    /// Program name is empty i.e. `""`
    IsEmpty,
    /// The search path is empty or does not exist
    PathIsTotallyEmpty,
    /// Program name contains whitespace i.e. `"r uby"`
    ContainsWhitespace(Vec<u8>),
    /// Files that matched the given program name exist on disk but are not `chmod +x`
    FoundFilesNotExecutable(Vec<Vec<u8>>),
    /// Files that matched the given program name exist, but point to a broken symlink
    FoundFilesBadSymlink(Vec<Vec<u8>>),
    /// No exact matches were found, here's our best guesses
    NotFoundSuggestedSpelling(Vec<Vec<u8>>),
    /// More than one file exists that matches the given program name. Only the first is used
    FoundMultipleExecutables(Vec<Vec<u8>>),
    /// A part of the search path points to a location that doesn't exist
    PathPiecesDoNotExist(Vec<PathPart>),
    /// A part of the search path points to a location that exists but is a file instead of a dir
    PathPiecesNotDir(Vec<PathPart>),
}

/// What a [`Problem`] holds, as plain values.
pub enum ProblemView {
    IsEmpty,
    PathIsTotallyEmpty,
    ContainsWhitespace(Seq<u8>),
    FoundFilesNotExecutable(Seq<Seq<u8>>),
    FoundFilesBadSymlink(Seq<Seq<u8>>),
    NotFoundSuggestedSpelling(Seq<Seq<u8>>),
    FoundMultipleExecutables(Seq<Seq<u8>>),
    PathPiecesDoNotExist(Seq<PartView>),
    PathPiecesNotDir(Seq<PartView>),
}

impl View for Problem {
    type V = ProblemView;

    open spec fn view(&self) -> ProblemView {
        match self {
            Problem::IsEmpty => ProblemView::IsEmpty,
            Problem::PathIsTotallyEmpty => ProblemView::PathIsTotallyEmpty,
            Problem::ContainsWhitespace(name) => ProblemView::ContainsWhitespace(name@),
            Problem::FoundFilesNotExecutable(paths) => ProblemView::FoundFilesNotExecutable(
                bytes::views(paths@),
            ),
            Problem::FoundFilesBadSymlink(paths) => ProblemView::FoundFilesBadSymlink(
                bytes::views(paths@),
            ),
            Problem::NotFoundSuggestedSpelling(names) => ProblemView::NotFoundSuggestedSpelling(
                bytes::views(names@),
            ),
            Problem::FoundMultipleExecutables(paths) => ProblemView::FoundMultipleExecutables(
                bytes::views(paths@),
            ),
            Problem::PathPiecesDoNotExist(parts) => ProblemView::PathPiecesDoNotExist(
                part_views(parts@),
            ),
            Problem::PathPiecesNotDir(parts) => ProblemView::PathPiecesNotDir(part_views(parts@)),
        }
    }
}

/// The sentence that names a problem.
pub open spec fn header_text(problem: ProblemView) -> Seq<char> {
    match problem {
        ProblemView::IsEmpty => "Program cannot be empty"@,
        ProblemView::PathIsTotallyEmpty => "Environment variable PATH is empty"@,
        ProblemView::ContainsWhitespace(name) => "Program contains whitespace: "@ + text::shown(
            name,
        ) + "."@,
        ProblemView::NotFoundSuggestedSpelling(_) => "Tip: These similarly named executables exist exist on PATH."@,
        ProblemView::FoundFilesNotExecutable(_) => "Found program match(es) in PATH that do not have execution permission."@,
        ProblemView::FoundFilesBadSymlink(_) => "Found program matches in PATH that have invalid symlink(s)."@,
        ProblemView::FoundMultipleExecutables(_) => "Found multiple valid programsin PATH, ensure the one you expected is first."@,
        ProblemView::PathPiecesDoNotExist(_) => "Part(s) of the PATH do not exist on disk"@,
        ProblemView::PathPiecesNotDir(_) => "Part(s) of the PATH are file(s), expected to be directories."@,
    }
}

/// One item of a list of names or paths.
pub open spec fn item_line(item: Seq<u8>) -> Seq<char> {
    "  - '"@ + text::lossy_text(item) + "'\n"@
}

/// The items of a list of names or paths, a line each.
pub open spec fn item_lines(items: Seq<Seq<u8>>) -> Seq<char>
    decreases items.len(),
{
    if items.len() == 0 {
        Seq::empty()
    } else {
        item_lines(items.drop_last()) + item_line(items.last())
    }
}

/// The line of a part of the search path; a relative part names the
/// directory it is relative to.
pub open spec fn part_line(part: PartView) -> Seq<char> {
    if part.relative {
        "- '"@ + text::lossy_text(part.original) + "' relative to '"@ + text::lossy_text(part.cwd)
            + "'\n"@
    } else {
        "- '"@ + text::lossy_text(part.original) + "'\n"@
    }
}

/// The lines of those of `parts` that are relative, or of those that are
/// not, in order.
pub open spec fn part_lines(parts: Seq<PartView>, relative: bool) -> Seq<char>
    decreases parts.len(),
{
    if parts.len() == 0 {
        Seq::empty()
    } else if parts.last().relative == relative {
        part_lines(parts.drop_last(), relative) + part_line(parts.last())
    } else {
        part_lines(parts.drop_last(), relative)
    }
}

/// A problem written out: its header and, where it holds a list, the list,
/// absolute parts before relative ones.
pub open spec fn problem_text(problem: ProblemView) -> Seq<char> {
    match problem {
        ProblemView::NotFoundSuggestedSpelling(items)
        | ProblemView::FoundFilesNotExecutable(items)
        | ProblemView::FoundFilesBadSymlink(items)
        | ProblemView::FoundMultipleExecutables(items) => header_text(problem) + "\n"@ + "\n"@
            + item_lines(items),
        ProblemView::PathPiecesDoNotExist(parts) | ProblemView::PathPiecesNotDir(
            parts,
        ) => header_text(problem) + "\n"@ + "\n"@ + part_lines(parts, false) + part_lines(
            parts,
            true,
        ),
        ProblemView::IsEmpty
        | ProblemView::PathIsTotallyEmpty
        | ProblemView::ContainsWhitespace(_) => header_text(problem) + "\n"@,
    }
}

/// The items of a list of names or paths, a line each.
fn render_items(items: &Vec<Vec<u8>>) -> (lines: String)
    ensures
        lines@ == item_lines(bytes::views(items@)),
{
    let ghost all = bytes::views(items@);
    let mut lines = String::new();
    let mut i: usize = 0;
    assert(all.take(0) =~= Seq::<Seq<u8>>::empty());
    while i < items.len()
        invariant
            i <= items.len(),
            all == bytes::views(items@),
            lines@ == item_lines(all.take(i as int)),
        decreases items.len() - i,
    {
        assert(all.take(i + 1).drop_last() =~= all.take(i as int));
        assert(all.take(i + 1).last() == items@[i as int]@);
        let mut line = String::from_str("  - '");
        let item = text::lossy(items[i].as_slice());
        line.append(item.as_str());
        line.append("'\n");
        lines.append(line.as_str());
        i += 1;
    }
    assert(all.take(items.len() as int) =~= all);
    lines
}

/// The lines of those of `parts` that are relative, or of those that are
/// not, in order.
fn render_parts(parts: &Vec<PathPart>, relative: bool) -> (lines: String)
    ensures
        lines@ == part_lines(part_views(parts@), relative),
{
    let ghost all = part_views(parts@);
    let mut lines = String::new();
    let mut i: usize = 0;
    assert(all.take(0) =~= Seq::<PartView>::empty());
    while i < parts.len()
        invariant
            i <= parts.len(),
            all == part_views(parts@),
            lines@ == part_lines(all.take(i as int), relative),
        decreases parts.len() - i,
    {
        assert(all.take(i + 1).drop_last() =~= all.take(i as int));
        assert(all.take(i + 1).last() == parts@[i as int]@);
        if parts[i].is_relative() == relative {
            let mut line = String::from_str("- '");
            let original = text::lossy(parts[i].original.as_slice());
            line.append(original.as_str());
            if relative {
                line.append("' relative to '");
                let cwd = text::lossy(parts[i].cwd.as_slice());
                line.append(cwd.as_str());
            }
            line.append("'\n");
            lines.append(line.as_str());
        }
        i += 1;
    }
    assert(all.take(parts.len() as int) =~= all);
    lines
}

impl Problem {
    /// The sentence that names the problem.
    #[must_use]
    pub fn header(&self) -> (text: String)
        ensures
            text@ == header_text(self@),
    {
        match self {
            Problem::IsEmpty => String::from_str("Program cannot be empty"),
            Problem::PathIsTotallyEmpty => String::from_str("Environment variable PATH is empty"),
            Problem::ContainsWhitespace(name) => {
                let mut text = String::from_str("Program contains whitespace: ");
                let name = text::show(name.as_slice());
                text.append(name.as_str());
                text.append(".");
                text
            },
            Problem::NotFoundSuggestedSpelling(_) => String::from_str(
                "Tip: These similarly named executables exist exist on PATH.",
            ),
            Problem::FoundFilesNotExecutable(_) => String::from_str(
                "Found program match(es) in PATH that do not have execution permission.",
            ),
            Problem::FoundFilesBadSymlink(_) => String::from_str(
                "Found program matches in PATH that have invalid symlink(s).",
            ),
            Problem::FoundMultipleExecutables(_) => String::from_str(
                "Found multiple valid programsin PATH, ensure the one you expected is first.",
            ),
            Problem::PathPiecesDoNotExist(_) => String::from_str(
                "Part(s) of the PATH do not exist on disk",
            ),
            Problem::PathPiecesNotDir(_) => String::from_str(
                "Part(s) of the PATH are file(s), expected to be directories.",
            ),
        }
    }

    /// The problem written out.
    pub fn render(&self) -> (text: String)
        ensures
            text@ == problem_text(self@),
    {
        let mut text = self.header();
        text.append("\n");
        match self {
            Problem::NotFoundSuggestedSpelling(items)
            | Problem::FoundFilesNotExecutable(items)
            | Problem::FoundFilesBadSymlink(items)
            | Problem::FoundMultipleExecutables(items) => {
                text.append("\n");
                let lines = render_items(items);
                text.append(lines.as_str());
            },
            Problem::PathPiecesDoNotExist(parts) | Problem::PathPiecesNotDir(parts) => {
                text.append("\n");
                let absolute = render_parts(parts, false);
                text.append(absolute.as_str());
                let relative = render_parts(parts, true);
                text.append(relative.as_str());
            },
            Problem::IsEmpty | Problem::PathIsTotallyEmpty | Problem::ContainsWhitespace(_) => {},
        }
        text
    }

    /// The problem written out, closed by a bracket.
    pub fn display(&self) -> (text: String)
        ensures
            text@ == problem_text(self@) + ")"@,
    {
        let mut text = self.render();
        text.append(")");
        text
    }
}

} // verus!
