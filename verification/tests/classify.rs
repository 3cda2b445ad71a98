use which_problem::file_state::file_state;
use which_problem::file_state::symlink_state;
use which_problem::file_state::FileState;
use which_problem::file_state::SymlinkState;
use which_problem::path_part::any_files_in_dir;
use which_problem::path_part::part_state;
use which_problem::path_part::PartState;
use which_problem::path_part::PathPart;
use which_problem::path_with_state::PathWithState;
use which_problem::Disk;
use which_problem::PathFacts;

fn plain(exists: bool, is_dir: bool, is_executable: bool) -> PathFacts {
    PathFacts { is_symlink: false, resolved: None, exists, is_dir, is_executable, entries: None }
}

fn link(target: Option<PathFacts>) -> PathFacts {
    PathFacts {
        is_symlink: true,
        resolved: target.map(Box::new),
        exists: false,
        is_dir: false,
        is_executable: false,
        entries: None,
    }
}

#[test]
fn path_with_state_display() {
    let p = PathWithState {
        path: b"/lol".to_vec(),
        state: FileState::Valid,
    };

    assert_eq!(r#"[OK        ] "/lol""#, &p.render(10));
}

#[test]
fn files_that_are_not_links() {
    assert_eq!(file_state(&PathFacts::unknown()), FileState::Missing);
    assert_eq!(file_state(&plain(false, true, true)), FileState::Missing);
    assert_eq!(file_state(&plain(true, true, false)), FileState::IsDir);
    assert_eq!(file_state(&plain(true, true, true)), FileState::IsDir);
    assert_eq!(file_state(&plain(true, false, true)), FileState::Valid);
    assert_eq!(file_state(&plain(true, false, false)), FileState::NotExecutable);
}

#[test]
fn links_are_judged_by_their_target() {
    assert_eq!(file_state(&link(None)), FileState::BadSymlink);
    assert_eq!(file_state(&link(Some(plain(false, false, false)))), FileState::BadSymlink);
    assert_eq!(file_state(&link(Some(plain(true, true, false)))), FileState::BadSymlink);
    assert_eq!(file_state(&link(Some(plain(true, false, true)))), FileState::Valid);
    assert_eq!(file_state(&link(Some(plain(true, false, false)))), FileState::NotExecutable);
    assert_eq!(file_state(&link(Some(link(None)))), FileState::BadSymlink);
    assert_eq!(file_state(&link(Some(link(Some(plain(true, false, true)))))), FileState::Valid);
}

#[test]
fn what_a_link_leads_to() {
    assert_eq!(symlink_state(&link(None)), SymlinkState::Missing);
    assert_eq!(symlink_state(&link(Some(plain(false, false, false)))), SymlinkState::Missing);
    assert_eq!(symlink_state(&link(Some(link(None)))), SymlinkState::Missing);
    assert_eq!(symlink_state(&link(Some(plain(true, true, false)))), SymlinkState::IsDir);
    assert_eq!(symlink_state(&link(Some(plain(true, false, true)))), SymlinkState::Valid);
    assert_eq!(symlink_state(&link(Some(plain(true, false, false)))), SymlinkState::NotExecutable);
}

#[test]
fn states_of_search_directories() {
    let listed = |names: &[&str]| PathFacts {
        entries: Some(names.iter().map(|name| name.as_bytes().to_vec()).collect()),
        ..plain(true, true, false)
    };
    assert_eq!(part_state(&PathFacts::unknown()), PartState::Missing);
    assert_eq!(part_state(&plain(true, false, true)), PartState::NotDir);
    assert_eq!(part_state(&plain(true, true, false)), PartState::EmptyDir);
    assert_eq!(part_state(&listed(&[])), PartState::EmptyDir);
    assert_eq!(part_state(&listed(&[".profile"])), PartState::Valid);
    assert!(any_files_in_dir(&listed(&["a", "b"])));
    assert!(!any_files_in_dir(&listed(&[])));
    assert!(!any_files_in_dir(&plain(true, true, false)));
}

#[test]
fn a_part_keeps_what_it_was_made_from() {
    let mut disk = Disk::new();
    disk.record(b"/srv/tools".to_vec(), plain(true, false, false));

    let relative = PathPart::new(b"/srv", b"tools", &disk);
    assert_eq!(relative.absolute, b"/srv/tools".to_vec());
    assert_eq!(relative.cwd, b"/srv".to_vec());
    assert_eq!(relative.original, b"tools".to_vec());
    assert!(relative.is_relative());
    assert_eq!(relative.state, PartState::NotDir);
    assert_eq!(relative.duplicate(), relative);

    let absolute = PathPart::new(b"/srv", b"/opt/tools", &disk);
    assert_eq!(absolute.absolute, b"/opt/tools".to_vec());
    assert!(!absolute.is_relative());
    assert_eq!(absolute.state, PartState::Missing);

    let empty = PathPart::new(b"/srv", b"", &disk);
    assert_eq!(empty.absolute, b"/srv/".to_vec());
    assert!(empty.is_relative());
}

#[test]
fn a_later_record_replaces_an_earlier_one() {
    let mut disk = Disk::new();
    assert!(disk.lookup(b"/x").is_none());
    disk.record(b"/x".to_vec(), plain(true, false, false));
    disk.record(b"/y".to_vec(), plain(true, true, false));
    assert_eq!(disk.lookup(b"/x"), Some(&plain(true, false, false)));
    disk.record(b"/x".to_vec(), plain(true, false, true));
    assert_eq!(disk.lookup(b"/x"), Some(&plain(true, false, true)));
    assert_eq!(disk.lookup(b"/y"), Some(&plain(true, true, false)));
    assert_eq!(PathWithState::new(b"/x".to_vec(), &disk).state, FileState::Valid);
    assert_eq!(PathWithState::new(b"/z".to_vec(), &disk).state, FileState::Missing);
}

#[test]
fn labels_and_details() {
    assert_eq!(FileState::Valid.label(), "OK");
    assert_eq!(FileState::IsDir.label(), "IS DIR");
    assert_eq!(FileState::Missing.label(), "MISSING");
    assert_eq!(FileState::BadSymlink.label(), "BAD SYM");
    assert_eq!(FileState::NotExecutable.label(), "NOT EXE");
    assert_eq!(
        FileState::Valid.details(),
        "File found matching program name with executable permissions. Valid executable."
    );
    assert_eq!(
        FileState::NotExecutable.details(),
        "File found matching program name, but it does not have executable permissions"
    );
    assert_eq!(FileState::Missing.details(), "File not found at this path");
    assert_eq!(PartState::EmptyDir.label(), "EMPTY");
    assert_eq!(PartState::Missing.label(), "MISSING");
    assert_eq!(PartState::NotDir.label(), "NOT DIR");
    assert_eq!(PartState::Valid.label(), "OK");
    assert_eq!(PartState::Valid.details(), "Path part is a valid, non-empty, directory");
    assert_eq!(
        PartState::NotDir.details(),
        "Path part exists, but is a file. Must be a directory"
    );
    assert_eq!(PartState::EmptyDir.details(), "Path part directory exists, but it is empty");
}
