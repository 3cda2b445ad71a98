use which_problem::path_part::PathPart;
use which_problem::suggest::holds;
use which_problem::suggest::names_on_path;
use which_problem::suggest::rank;
use which_problem::suggest::ranks_before;
use which_problem::suggest::spelling;
use which_problem::suggest::Penalty;
use which_problem::suggest::Scored;
use which_problem::Disk;
use which_problem::PathFacts;

fn names(list: &[&str]) -> Vec<Vec<u8>> {
    list.iter().map(|name| name.as_bytes().to_vec()).collect()
}

fn directory(entries: &[&str]) -> PathFacts {
    PathFacts {
        is_symlink: false,
        resolved: None,
        exists: true,
        is_dir: true,
        is_executable: false,
        entries: Some(names(entries)),
    }
}

fn scored(name: &str, distance: usize, longest: usize) -> Scored {
    Scored { name: name.as_bytes().to_vec(), penalty: Penalty { distance, longest } }
}

fn search(disk: &Disk, dirs: &[&str]) -> Vec<PathPart> {
    dirs.iter().map(|dir| PathPart::new(b"/", dir.as_bytes(), disk)).collect()
}

#[test]
fn closest_names_come_first() {
    let mut disk = Disk::new();
    disk.record(b"/bin".to_vec(), directory(&["rofl", "lo", "lol", "lola", "unrelated"]));
    let parts = search(&disk, &["/bin"]);

    // lola: 1 of 4, lo: 1 of 3, rofl: 2 of 4, unrelated: 8 of 9
    assert_eq!(spelling(b"lol", &parts, 3, &disk), Some(names(&["lola", "lo", "rofl"])));
    assert_eq!(spelling(b"lol", &parts, 1, &disk), Some(names(&["lola"])));
    assert_eq!(
        spelling(b"lol", &parts, 10, &disk),
        Some(names(&["lola", "lo", "rofl", "unrelated"]))
    );
    assert_eq!(spelling(b"lol", &parts, 0, &disk), None);
}

#[test]
fn the_order_of_the_listing_does_not_matter() {
    let mut disk = Disk::new();
    disk.record(b"/one".to_vec(), directory(&["lo", "rofl", "lola"]));
    disk.record(b"/two".to_vec(), directory(&["lola", "rofl", "lo"]));

    let first = spelling(b"lol", &search(&disk, &["/one"]), 3, &disk);
    let second = spelling(b"lol", &search(&disk, &["/two"]), 3, &disk);
    assert_eq!(first, second);
    assert_eq!(first, Some(names(&["lola", "lo", "rofl"])));
}

#[test]
fn a_name_in_two_directories_is_suggested_once() {
    let mut disk = Disk::new();
    disk.record(b"/one".to_vec(), directory(&["git", "gti"]));
    disk.record(b"/two".to_vec(), directory(&["git", "gitk"]));
    let parts = search(&disk, &["/one", "/two", "/one"]);

    assert_eq!(
        names_on_path(&parts, &disk),
        names(&["git", "gti", "git", "gitk", "git", "gti"])
    );
    // gti and git: 1 of 3 each, gitk: 2 of 4
    assert_eq!(spelling(b"gi", &parts, 5, &disk), Some(names(&["gti", "git", "gitk"])));
}

#[test]
fn the_program_itself_is_never_suggested() {
    let mut disk = Disk::new();
    disk.record(b"/bin".to_vec(), directory(&["ls", "ls", "lsd"]));
    disk.record(b"/only".to_vec(), directory(&["ls"]));

    assert_eq!(spelling(b"ls", &search(&disk, &["/bin"]), 3, &disk), Some(names(&["lsd"])));
    assert_eq!(spelling(b"ls", &search(&disk, &["/only"]), 3, &disk), None);
    assert_eq!(spelling(b"ls", &search(&disk, &["/gone"]), 3, &disk), None);
    assert_eq!(spelling(b"ls", &search(&disk, &[]), 3, &disk), None);
}

#[test]
fn equally_close_names_come_in_descending_order() {
    let mut disk = Disk::new();
    disk.record(b"/bin".to_vec(), directory(&["lox", "loy", "low"]));
    let parts = search(&disk, &["/bin"]);

    assert_eq!(spelling(b"lol", &parts, 2, &disk), Some(names(&["loy", "lox"])));
}

#[test]
fn distances_are_counted_in_characters() {
    let mut disk = Disk::new();
    // "né" is two characters and three bytes: 1 of 2 from "ne", as "na" is.
    disk.record(b"/bin".to_vec(), directory(&["né", "nab"]));
    let parts = search(&disk, &["/bin"]);

    assert_eq!(spelling(b"ne", &parts, 2, &disk), Some(names(&["né", "nab"])));
}

#[test]
fn names_that_are_not_text_are_kept_as_they_are() {
    let mut disk = Disk::new();
    disk.record(
        b"/bin".to_vec(),
        PathFacts { entries: Some(vec![b"l\xffl".to_vec(), b"zzzz".to_vec()]), ..directory(&[]) },
    );
    let parts = search(&disk, &["/bin"]);

    assert_eq!(spelling(b"lol", &parts, 1, &disk), Some(vec![b"l\xffl".to_vec()]));
}

#[test]
fn ranking_by_given_penalties() {
    let entries = vec![
        scored("half", 2, 4),
        scored("third", 1, 3),
        scored("same", 0, 4),
        scored("quarter", 2, 8),
        scored("asked", 0, 5),
        scored("third", 1, 3),
        scored("sixth", 1, 6),
    ];

    assert_eq!(
        rank(b"asked", &entries, 4),
        Some(names(&["same", "sixth", "quarter", "third"]))
    );
    assert_eq!(
        rank(b"asked", &entries, 10),
        Some(names(&["same", "sixth", "quarter", "third", "half"]))
    );
    assert_eq!(rank(b"asked", &entries, 0), None);
    assert_eq!(rank(b"asked", &[scored("asked", 0, 5)], 3), None);
    assert_eq!(rank(b"asked", &[], 3), None);
}

#[test]
fn fractions_are_compared_exactly() {
    // 1 of 3 against 2 of 6: the same fraction, so the later name wins.
    assert!(ranks_before(&scored("b", 1, 3), &scored("a", 2, 6)));
    assert!(!ranks_before(&scored("a", 2, 6), &scored("b", 1, 3)));
    // 3 of 10 is less than 1 of 3.
    assert!(ranks_before(&scored("a", 3, 10), &scored("b", 1, 3)));
    assert!(!ranks_before(&scored("b", 1, 3), &scored("a", 3, 10)));
    // Nothing to compare counts as no distance at all.
    assert!(ranks_before(&scored("", 7, 0), &scored("b", 1, 3)));
    assert!(!ranks_before(&scored("a", 1, 3), &scored("a", 1, 3)));
    // The largest numbers do not overflow.
    assert!(ranks_before(
        &scored("a", usize::MAX - 1, usize::MAX),
        &scored("b", usize::MAX, usize::MAX)
    ));
}

#[test]
fn membership() {
    let list = names(&["a", "bc"]);
    assert!(holds(&list, b"bc"));
    assert!(!holds(&list, b"b"));
    assert!(!holds(&Vec::new(), b""));
}
