use which_problem::file_state::file_state;
use which_problem::file_state::FileState;
use which_problem::path_part::PartState;
use which_problem::path_with_state::PathWithState;
use which_problem::Ambient;
use which_problem::Disk;
use which_problem::PathFacts;
use which_problem::Which;
use which_problem::WhichError;

fn names(list: &[&str]) -> Vec<Vec<u8>> {
    list.iter().map(|name| name.as_bytes().to_vec()).collect()
}

fn directory(entries: &[&str]) -> PathFacts {
    PathFacts {
        is_symlink: false,
        resolved: None,
        exists: true,
        is_dir: true,
        is_executable: false,
        entries: Some(names(entries)),
    }
}

fn file(executable: bool) -> PathFacts {
    PathFacts {
        is_symlink: false,
        resolved: None,
        exists: true,
        is_dir: false,
        is_executable: executable,
        entries: None,
    }
}

fn symlink(target: Option<PathFacts>) -> PathFacts {
    let (exists, is_dir, is_executable) = match &target {
        Some(facts) => (facts.exists, facts.is_dir, facts.is_executable),
        None => (false, false, false),
    };
    PathFacts {
        is_symlink: true,
        resolved: target.map(Box::new),
        exists,
        is_dir,
        is_executable,
        entries: None,
    }
}

fn nowhere() -> Ambient {
    Ambient { cwd: Some(b"/home".to_vec()), path: None }
}

fn ask(program: &str, path_env: &str) -> Which {
    Which {
        program: program.as_bytes().to_vec(),
        path_env: Some(path_env.as_bytes().to_vec()),
        ..Which::default()
    }
}

#[test]
fn lib_multiple_valid() {
    let mut disk = Disk::new();
    disk.record(b"/tmp/one".to_vec(), directory(&["haha"]));
    disk.record(b"/tmp/one/haha".to_vec(), file(true));
    disk.record(b"/tmp/two".to_vec(), directory(&["haha"]));
    disk.record(b"/tmp/two/haha".to_vec(), file(true));

    let program = ask("haha", "/tmp/one:/tmp/two").diagnose(&nowhere(), &disk).unwrap();

    assert_eq!(
        vec![
            PathWithState { path: b"/tmp/one/haha".to_vec(), state: FileState::Valid },
            PathWithState { path: b"/tmp/two/haha".to_vec(), state: FileState::Valid }
        ],
        program.found_files
    );
}

#[test]
fn lib_check_executable_file() {
    let mut disk = Disk::new();
    disk.record(b"/tmp/dir".to_vec(), directory(&["lol"]));
    disk.record(b"/tmp/dir/lol".to_vec(), file(false));

    let program = ask("lol", "/tmp/dir").diagnose(&nowhere(), &disk).unwrap();

    assert_eq!(
        vec![PathWithState { path: b"/tmp/dir/lol".to_vec(), state: FileState::NotExecutable }],
        program.found_files
    );

    disk.record(b"/tmp/dir/lol".to_vec(), file(true));

    assert!(file_state(disk.lookup(b"/tmp/dir/lol").unwrap()) == FileState::Valid);

    let program = ask("lol", "/tmp/dir").diagnose(&nowhere(), &disk).unwrap();

    assert_eq!(
        vec![PathWithState { path: b"/tmp/dir/lol".to_vec(), state: FileState::Valid }],
        program.found_files
    );
}

#[test]
fn lib_check_symlink_file() {
    let mut disk = Disk::new();
    disk.record(b"/tmp/dir".to_vec(), directory(&["lol"]));
    disk.record(b"/tmp/dir/lol".to_vec(), symlink(None));

    assert_eq!(FileState::BadSymlink, file_state(disk.lookup(b"/tmp/dir/lol").unwrap()));

    let program = ask("lol", "/tmp/dir").diagnose(&nowhere(), &disk).unwrap();

    assert_eq!(
        vec![PathWithState { path: b"/tmp/dir/lol".to_vec(), state: FileState::BadSymlink }],
        program.found_files
    );
}

#[test]
fn check_symlink_matching_program_name_is_reported_if_pointing_to_non_executable_file() {
    let mut disk = Disk::new();
    disk.record(b"/tmp/dir".to_vec(), directory(&["yarn", "yarn-3.10.0.cjs"]));
    disk.record(b"/tmp/dir/yarn-3.10.0.cjs".to_vec(), file(false));
    disk.record(b"/tmp/dir/yarn".to_vec(), symlink(Some(file(false))));

    let program = ask("yarn", "/tmp/dir").diagnose(&nowhere(), &disk).unwrap();

    assert_eq!(program.found_files.len(), 1);
    assert_eq!(program.found_files[0].path, b"/tmp/dir/yarn".to_vec());
    assert_eq!(program.found_files[0].state, FileState::NotExecutable);
    assert!(program.render().contains(&format!(
        "Program \"yarn\" found at \"{}\" but is not executable",
        "/tmp/dir/yarn"
    )));
}

#[test]
fn lib_check_parts_are_dirs() {
    let mut disk = Disk::new();
    disk.record(b"/tmp/dir".to_vec(), directory(&["nope"]));
    disk.record(b"/tmp/dir/nope".to_vec(), file(false));

    let program = ask("lol", "/tmp/dir/nope:/tmp/dir").diagnose(&nowhere(), &disk).unwrap();

    assert!(!program.path_parts.iter().any(|p| p.state == PartState::Missing));
    assert!(program.path_parts.iter().any(|p| p.state == PartState::NotDir));
}

#[test]
fn lib_check_path_parts_exist() {
    let mut disk = Disk::new();
    disk.record(b"/tmp/dir".to_vec(), directory(&[]));

    let program = ask("lol", "/tmp/dir/nope:/tmp/dir").diagnose(&nowhere(), &disk).unwrap();

    assert!(program.path_parts.iter().any(|p| p.state == PartState::Missing));
    assert!(!program.path_parts.iter().any(|p| p.state == PartState::NotDir));
}

#[test]
fn lib_check_suggested_spelling() {
    let mut disk = Disk::new();
    disk.record(b"/tmp/dir".to_vec(), directory(&["rofl"]));
    disk.record(b"/tmp/dir/rofl".to_vec(), file(true));

    let program = ask("lol", "/tmp/dir").diagnose(&nowhere(), &disk).unwrap();

    assert_eq!(program.suggested.clone().unwrap(), vec![b"rofl".to_vec()]);

    assert_eq!(program.name, b"lol".to_vec());
}

#[test]
fn suggestion_with_a_limit_of_one() {
    let mut disk = Disk::new();
    disk.record(b"/tmp/dir".to_vec(), directory(&["rofl"]));
    disk.record(b"/tmp/dir/rofl".to_vec(), file(true));

    let which = Which { guess_limit: 1, ..ask("lol", "/tmp/dir") };
    let program = which.diagnose(&nowhere(), &disk).unwrap();

    assert_eq!(program.suggested, Some(vec![b"rofl".to_vec()]));
    assert!(program.found_files.is_empty());
}

#[test]
fn a_limit_of_zero_suggests_nothing() {
    let mut disk = Disk::new();
    disk.record(b"/tmp/dir".to_vec(), directory(&["rofl"]));

    let which = Which { guess_limit: 0, ..ask("lol", "/tmp/dir") };
    assert!(!which.scans_directories());
    let program = which.diagnose(&nowhere(), &disk).unwrap();

    assert_eq!(program.suggested, None);
}

#[test]
fn an_empty_search_path_has_no_parts_and_no_files() {
    let mut disk = Disk::new();
    disk.record(b"/home".to_vec(), directory(&["lol"]));
    disk.record(b"/home/lol".to_vec(), file(true));

    for program in ["lol", "", "with space"] {
        let found = ask(program, "").diagnose(&nowhere(), &disk).unwrap();
        assert!(found.path_parts.is_empty());
        assert!(found.found_files.is_empty());
        assert_eq!(found.suggested, None);
    }
}

#[test]
fn a_directory_listed_twice_is_searched_twice() {
    let mut disk = Disk::new();
    disk.record(b"/bin".to_vec(), directory(&["sh"]));
    disk.record(b"/bin/sh".to_vec(), file(true));

    let program = ask("sh", "/bin:/bin").diagnose(&nowhere(), &disk).unwrap();

    assert_eq!(program.path_parts.len(), 2);
    assert_eq!(
        vec![
            PathWithState { path: b"/bin/sh".to_vec(), state: FileState::Valid },
            PathWithState { path: b"/bin/sh".to_vec(), state: FileState::Valid }
        ],
        program.found_files
    );
    assert_eq!(program.suggested, None);
}

#[test]
fn files_come_in_search_order() {
    let mut disk = Disk::new();
    disk.record(b"/a".to_vec(), directory(&["x"]));
    disk.record(b"/a/x".to_vec(), file(false));
    disk.record(b"/b".to_vec(), directory(&["y"]));
    disk.record(b"/c".to_vec(), directory(&["x"]));
    disk.record(b"/c/x".to_vec(), directory(&[]));
    disk.record(b"/d".to_vec(), directory(&["x"]));
    disk.record(b"/d/x".to_vec(), file(true));

    let forward = ask("x", "/a:/b:/c:/d").diagnose(&nowhere(), &disk).unwrap();
    assert_eq!(
        vec![
            PathWithState { path: b"/a/x".to_vec(), state: FileState::NotExecutable },
            PathWithState { path: b"/c/x".to_vec(), state: FileState::IsDir },
            PathWithState { path: b"/d/x".to_vec(), state: FileState::Valid }
        ],
        forward.found_files
    );

    let backward = ask("x", "/d:/c:/b:/a").diagnose(&nowhere(), &disk).unwrap();
    assert_eq!(
        vec![
            PathWithState { path: b"/d/x".to_vec(), state: FileState::Valid },
            PathWithState { path: b"/c/x".to_vec(), state: FileState::IsDir },
            PathWithState { path: b"/a/x".to_vec(), state: FileState::NotExecutable }
        ],
        backward.found_files
    );
}

#[test]
fn a_segment_that_is_a_file_is_not_a_directory() {
    let mut disk = Disk::new();
    disk.record(b"/etc/passwd".to_vec(), file(false));

    let program = ask("lol", "/etc/passwd:/gone").diagnose(&nowhere(), &disk).unwrap();

    assert_eq!(program.path_parts[0].state, PartState::NotDir);
    assert_eq!(program.path_parts[1].state, PartState::Missing);
}

#[test]
fn an_empty_directory_and_one_that_cannot_be_listed_are_empty() {
    let mut disk = Disk::new();
    disk.record(b"/empty".to_vec(), directory(&[]));
    disk.record(b"/locked".to_vec(), PathFacts { entries: None, ..directory(&[]) });
    disk.record(b"/full".to_vec(), directory(&[".hidden"]));

    let program = ask("lol", "/empty:/locked:/full").diagnose(&nowhere(), &disk).unwrap();

    assert_eq!(program.path_parts[0].state, PartState::EmptyDir);
    assert_eq!(program.path_parts[1].state, PartState::EmptyDir);
    assert_eq!(program.path_parts[2].state, PartState::Valid);
    assert_eq!(program.suggested, Some(vec![b".hidden".to_vec()]));
}

#[test]
fn relative_parts_are_read_in_the_working_directory() {
    let mut disk = Disk::new();
    disk.record(b"/home/bin".to_vec(), directory(&["tool"]));
    disk.record(b"/home/bin/tool".to_vec(), file(true));
    disk.record(b"/work/bin".to_vec(), directory(&["tool"]));
    disk.record(b"/work/bin/tool".to_vec(), file(false));

    let inherited = ask("tool", "bin").diagnose(&nowhere(), &disk).unwrap();
    assert_eq!(inherited.path_parts[0].absolute, b"/home/bin".to_vec());
    assert_eq!(inherited.path_parts[0].cwd, b"/home".to_vec());
    assert_eq!(inherited.path_parts[0].original, b"bin".to_vec());
    assert!(inherited.path_parts[0].is_relative());
    assert_eq!(inherited.found_files[0].state, FileState::Valid);

    let given = Which { cwd: Some(b"/work/".to_vec()), ..ask("tool", "bin") };
    let given = given.diagnose(&nowhere(), &disk).unwrap();
    assert_eq!(given.path_parts[0].absolute, b"/work/bin".to_vec());
    assert_eq!(given.found_files[0].state, FileState::NotExecutable);
}

#[test]
fn the_search_path_of_the_process_is_the_default() {
    let mut disk = Disk::new();
    disk.record(b"/usr/bin".to_vec(), directory(&["env"]));
    disk.record(b"/usr/bin/env".to_vec(), file(true));
    let ambient = Ambient { cwd: Some(b"/".to_vec()), path: Some(b"/usr/bin".to_vec()) };

    let which = Which::new(b"env");
    assert_eq!(which.guess_limit, 3);
    assert_eq!(which.cwd, None);
    assert_eq!(which.path_env, None);
    let program = which.diagnose(&ambient, &disk).unwrap();
    assert_eq!(program.found_files.len(), 1);

    let program = ask("env", "/nowhere").diagnose(&ambient, &disk).unwrap();
    assert!(program.found_files.is_empty());
}

#[test]
fn without_a_working_directory_there_is_no_diagnosis() {
    let disk = Disk::new();
    let ambient = Ambient { cwd: None, path: Some(b"/usr/bin".to_vec()) };

    assert_eq!(Which::new(b"env").diagnose(&ambient, &disk), Err(WhichError::NoWorkingDirectory));
    assert!(Which::new(b"env").wanted_paths(&ambient).is_empty());

    let given = Which { cwd: Some(b"/".to_vec()), ..Which::new(b"env") };
    assert!(given.diagnose(&ambient, &disk).is_ok());
}

#[test]
fn wanted_paths_are_the_directories_and_the_files_in_them() {
    let which = ask("ls", "/bin:rel::/opt/");
    assert_eq!(
        which.wanted_paths(&nowhere()),
        vec![
            b"/bin".to_vec(),
            b"/bin/ls".to_vec(),
            b"/home/rel".to_vec(),
            b"/home/rel/ls".to_vec(),
            b"/home/".to_vec(),
            b"/home/ls".to_vec(),
            b"/opt/".to_vec(),
            b"/opt/ls".to_vec()
        ]
    );
}

#[test]
fn a_name_with_whitespace_is_looked_up_like_any_other() {
    let mut disk = Disk::new();
    disk.record(b"/bin".to_vec(), directory(&["lol ", "lol"]));
    disk.record(b"/bin/lol ".to_vec(), file(true));

    let program = ask("lol ", "/bin").diagnose(&nowhere(), &disk).unwrap();

    assert_eq!(program.path_parts[0].state, PartState::Valid);
    assert_eq!(
        vec![PathWithState { path: b"/bin/lol ".to_vec(), state: FileState::Valid }],
        program.found_files
    );
    assert_eq!(program.suggested, Some(vec![b"lol".to_vec()]));
    assert!(which_problem::program::contains_whitespace(&program.name));
}

#[test]
fn the_steps_of_a_diagnosis() {
    let mut disk = Disk::new();
    disk.record(b"/bin".to_vec(), directory(&["sh", "ssh"]));
    disk.record(b"/bin/sh".to_vec(), file(true));
    let which = ask("sh", "/bin:/sbin");

    let resolved = which.resolve(&nowhere(), &disk).unwrap();
    assert_eq!(resolved.program, b"sh".to_vec());
    assert_eq!(resolved.guess_limit, 3);
    assert_eq!(resolved.path_parts.len(), 2);
    assert_eq!(resolved.path_parts[0].state, PartState::Valid);
    assert_eq!(resolved.path_parts[1].state, PartState::Missing);

    let found = which_problem::which::files_on_path(b"sh", &resolved.path_parts, &disk);
    assert_eq!(found, vec![PathWithState { path: b"/bin/sh".to_vec(), state: FileState::Valid }]);

    let program = resolved.check(&disk);
    assert_eq!(program, which.diagnose(&nowhere(), &disk).unwrap());
    assert_eq!(program.path_parts, resolved.path_parts);
    assert_eq!(program.found_files, found);
    assert_eq!(program.suggested, Some(vec![b"ssh".to_vec()]));

    let nothing = Ambient { cwd: None, path: None };
    assert_eq!(which.resolve(&nothing, &disk).err(), Some(WhichError::NoWorkingDirectory));
}

#[test]
fn what_was_not_observed_is_missing() {
    let mut disk = Disk::new();
    disk.record(b"/bin".to_vec(), directory(&["sh"]));
    disk.record(b"/bin/sh".to_vec(), file(true));
    let mut more = Disk::new();
    more.record(b"/bin".to_vec(), directory(&["sh"]));
    more.record(b"/bin/sh".to_vec(), file(true));
    more.record(b"/usr/bin".to_vec(), directory(&["zsh"]));
    more.record(b"/bin/zsh".to_vec(), file(true));

    let which = ask("sh", "/bin");
    assert_eq!(
        which.diagnose(&nowhere(), &disk).unwrap(),
        which.diagnose(&nowhere(), &more).unwrap()
    );
}
