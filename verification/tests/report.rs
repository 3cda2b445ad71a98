use which_problem::file_state::FileState;
use which_problem::path_part::PathPart;
use which_problem::path_with_state::PathWithState;
use which_problem::problem::Problem;
use which_problem::program::contains_whitespace;
use which_problem::program::find_first;
use which_problem::text::pad;
use which_problem::text::show;
use which_problem::Ambient;
use which_problem::Disk;
use which_problem::PathFacts;
use which_problem::Program;
use which_problem::Which;

fn directory(entries: &[&str]) -> PathFacts {
    PathFacts {
        is_symlink: false,
        resolved: None,
        exists: true,
        is_dir: true,
        is_executable: false,
        entries: Some(entries.iter().map(|name| name.as_bytes().to_vec()).collect()),
    }
}

fn file(executable: bool) -> PathFacts {
    PathFacts {
        is_symlink: false,
        resolved: None,
        exists: true,
        is_dir: false,
        is_executable: executable,
        entries: None,
    }
}

fn diagnose(program: &str, path_env: &str, disk: &Disk) -> Program {
    let which = Which {
        program: program.as_bytes().to_vec(),
        path_env: Some(path_env.as_bytes().to_vec()),
        ..Which::default()
    };
    which.diagnose(&Ambient { cwd: Some(b"/home".to_vec()), path: None }, disk).unwrap()
}

#[test]
fn program_empty_program_name() {
    assert!(Which::default().program.is_empty());
}

#[test]
fn program_check_whitespace_program() {
    assert!(contains_whitespace(b"lol "));
}

#[test]
fn whitespace_is_found_anywhere() {
    assert!(contains_whitespace(b" lol"));
    assert!(contains_whitespace(b"l\tol"));
    assert!(contains_whitespace(b"lol\n"));
    assert!(contains_whitespace(b"lol\r"));
    assert!(contains_whitespace(b"l\x0col"));
    assert!(!contains_whitespace(b"lol"));
    assert!(!contains_whitespace(b""));
    assert!(!contains_whitespace(b"l\x0bol"));
    assert!(!contains_whitespace(b"l\xa0ol"));
}

#[test]
fn padding() {
    assert_eq!(pad("OK", 7), "OK     ");
    assert_eq!(pad("MISSING", 7), "MISSING");
    assert_eq!(pad("MISSING", 3), "MISSING");
    assert_eq!(pad("", 2), "  ");
    assert_eq!(pad("é", 3), "é  ");
}

#[test]
fn quoting() {
    assert_eq!(show(b"/bin/ls"), "\"/bin/ls\"");
    assert_eq!(show(b"say \"hi\""), "\"say \\\"hi\\\"\"");
    assert_eq!(show(b"a\\b\n"), "\"a\\\\b\\n\"");
    assert_eq!(show(b"l\xffl"), "\"l\u{fffd}l\"");
    assert_eq!(show(b""), "\"\"");
}

#[test]
fn lines_of_files_and_parts() {
    let file = PathWithState { path: b"/bin/ls".to_vec(), state: FileState::NotExecutable };
    assert_eq!(file.render(0), "[NOT EXE] \"/bin/ls\"");
    assert_eq!(file.render(9), "[NOT EXE  ] \"/bin/ls\"");

    let disk = Disk::new();
    let absolute = PathPart::new(b"/home", b"/bin", &disk);
    assert_eq!(absolute.render(0), "[MISSING] \"/bin\"");
    assert_eq!(absolute.render(8), "[MISSING ] \"/bin\"");
    let relative = PathPart::new(b"/home", b"bin", &disk);
    assert_eq!(relative.render(7), "[MISSING] (relative from \"/home\") \"bin\"");
}

#[test]
fn the_first_file_in_a_state() {
    let files = vec![
        PathWithState { path: b"/a/x".to_vec(), state: FileState::IsDir },
        PathWithState { path: b"/b/x".to_vec(), state: FileState::Valid },
        PathWithState { path: b"/c/x".to_vec(), state: FileState::Valid },
    ];
    assert_eq!(find_first(&files, FileState::Valid), Some(1));
    assert_eq!(find_first(&files, FileState::IsDir), Some(0));
    assert_eq!(find_first(&files, FileState::NotExecutable), None);
    assert_eq!(find_first(&[], FileState::Valid), None);
}

#[test]
fn report_of_a_program_that_is_found_once() {
    let mut disk = Disk::new();
    disk.record(b"/bin".to_vec(), directory(&["ls", "lsd"]));
    disk.record(b"/bin/ls".to_vec(), file(true));

    let report = diagnose("ls", "/bin:/gone", &disk).render();

    assert_eq!(
        report,
        "Program \"ls\" found at \"/bin/ls\"\n\
         \n\
         Info: No other executables with the same name are found on the PATH\n\
         \n\
         Info: These executables have the closest spelling to \"ls\" but did not match:\n      \
         \"lsd\"\n\
         \n\
         Info: The following directories on PATH were searched (top to bottom):\n  \
         > [OK     ] \"/bin\"\n  \
         - [MISSING] \"/gone\"\n\
         Explanation:\n    \
         [OK     ] - Path part is a valid, non-empty, directory\n    \
         [MISSING] - Path part does not exist exist on disk, no such directory\n"
    );
}

#[test]
fn report_of_a_program_that_is_found_several_times() {
    let mut disk = Disk::new();
    disk.record(b"/a".to_vec(), directory(&["run"]));
    disk.record(b"/a/run".to_vec(), file(false));
    disk.record(b"/home/b".to_vec(), directory(&["run", "ruin", "rum"]));
    disk.record(b"/home/b/run".to_vec(), file(true));
    disk.record(b"/c".to_vec(), directory(&["run"]));
    disk.record(b"/c/run".to_vec(), file(true));

    let report = diagnose("run", "/a:b:/c", &disk).render();

    assert_eq!(
        report,
        "Program \"run\" found at \"/home/b/run\"\n\
         \n\
         Warning: Executables with the same name found on the PATH:\n  \
         - [NOT EXE] \"/a/run\"\n  \
         > [OK     ] \"/home/b/run\"\n  \
         - [OK     ] \"/c/run\"\n\
         Help: Ensure the one you want comes first and is [OK]\n\
         Explanation:\n    \
         [NOT EXE] - File found matching program name, but it does not have executable permissions\n    \
         [OK     ] - File found matching program name with executable permissions. Valid executable.\n\
         \n\
         Info: These executables have the closest spelling to \"run\" but did not match:\n      \
         \"ruin\", \"rum\"\n\
         \n\
         Info: The following directories on PATH were searched (top to bottom):\n  \
         - [OK] \"/a\"\n  \
         > [OK] (relative from \"/home\") \"b\"\n  \
         - [OK] \"/c\"\n\
         Explanation:\n    \
         [OK] - Path part is a valid, non-empty, directory\n"
    );
}

#[test]
fn report_of_a_program_that_is_not_found() {
    let disk = Disk::new();

    assert_eq!(
        diagnose("", "", &disk).render(),
        "Program \"\" not found\n\
         Warning: Program is blank\n\
         \n\
         Info: No other executables with the same name are found on the PATH\n\
         \n\
         Info: These executables have the closest spelling to \"\" but did not match:\n      \
         Warning: The PATH is empty\n"
    );

    let report = diagnose("l s", "", &disk).render();
    assert!(report.starts_with(
        "Program \"l s\" not found\nWarning: Program contains whitespace\n\n"
    ));
}

#[test]
fn problems_written_out() {
    assert_eq!(Problem::IsEmpty.header(), "Program cannot be empty");
    assert_eq!(Problem::IsEmpty.display(), "Program cannot be empty\n)");
    assert_eq!(
        Problem::PathIsTotallyEmpty.render(),
        "Environment variable PATH is empty\n"
    );
    assert_eq!(
        Problem::ContainsWhitespace(b"r uby".to_vec()).header(),
        "Program contains whitespace: \"r uby\"."
    );
    assert_eq!(
        Problem::NotFoundSuggestedSpelling(vec![b"ruby".to_vec(), b"rub".to_vec()]).render(),
        "Tip: These similarly named executables exist exist on PATH.\n\n  - 'ruby'\n  - 'rub'\n"
    );
    assert_eq!(
        Problem::FoundFilesNotExecutable(vec![b"/bin/ruby".to_vec()]).render(),
        "Found program match(es) in PATH that do not have execution permission.\n\n  - '/bin/ruby'\n"
    );
    assert_eq!(
        Problem::FoundFilesBadSymlink(vec![]).render(),
        "Found program matches in PATH that have invalid symlink(s).\n\n"
    );
    assert_eq!(
        Problem::FoundMultipleExecutables(vec![b"/a/x".to_vec()]).header(),
        "Found multiple valid programsin PATH, ensure the one you expected is first."
    );

    let disk = Disk::new();
    let parts = vec![
        PathPart::new(b"/home", b"bin", &disk),
        PathPart::new(b"/home", b"/opt/bin", &disk),
        PathPart::new(b"/home", b"sbin", &disk),
    ];
    assert_eq!(
        Problem::PathPiecesDoNotExist(parts.clone()).render(),
        "Part(s) of the PATH do not exist on disk\n\n\
         - '/opt/bin'\n\
         - 'bin' relative to '/home'\n\
         - 'sbin' relative to '/home'\n"
    );
    assert_eq!(
        Problem::PathPiecesNotDir(parts).header(),
        "Part(s) of the PATH are file(s), expected to be directories."
    );
}
