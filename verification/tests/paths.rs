use which_problem::bytes::comes_before;
use which_problem::bytes::copy;
use which_problem::bytes::same;
use which_problem::path::is_relative;
use which_problem::path::join;
use which_problem::path::split_paths;

#[test]
fn joining() {
    assert_eq!(join(b"/usr", b"bin"), b"/usr/bin".to_vec());
    assert_eq!(join(b"/usr/", b"bin"), b"/usr/bin".to_vec());
    assert_eq!(join(b"/usr", b"/bin"), b"/bin".to_vec());
    assert_eq!(join(b"", b"bin"), b"bin".to_vec());
    assert_eq!(join(b"/usr", b""), b"/usr/".to_vec());
    assert_eq!(join(b"/", b"bin"), b"/bin".to_vec());
    assert_eq!(join(b"rel", b"a/b"), b"rel/a/b".to_vec());
}

#[test]
fn relative_and_absolute() {
    assert!(is_relative(b""));
    assert!(is_relative(b"bin"));
    assert!(is_relative(b"./bin"));
    assert!(!is_relative(b"/"));
    assert!(!is_relative(b"/bin"));
}

#[test]
fn splitting() {
    let none: Vec<Vec<u8>> = Vec::new();
    assert_eq!(split_paths(b""), none);
    assert_eq!(split_paths(b"/bin"), vec![b"/bin".to_vec()]);
    assert_eq!(split_paths(b"/bin:/usr/bin"), vec![b"/bin".to_vec(), b"/usr/bin".to_vec()]);
    assert_eq!(split_paths(b":"), vec![b"".to_vec(), b"".to_vec()]);
    assert_eq!(split_paths(b"a::b"), vec![b"a".to_vec(), b"".to_vec(), b"b".to_vec()]);
    assert_eq!(split_paths(b"a:"), vec![b"a".to_vec(), b"".to_vec()]);
    assert_eq!(split_paths(b"with space:\xff"), vec![b"with space".to_vec(), b"\xff".to_vec()]);
}

#[test]
fn byte_strings() {
    assert!(same(b"abc", b"abc"));
    assert!(!same(b"abc", b"abd"));
    assert!(!same(b"abc", b"ab"));
    assert!(same(b"", b""));
    assert_eq!(copy(b"abc"), b"abc".to_vec());
    assert!(comes_before(b"", b"a"));
    assert!(!comes_before(b"", b""));
    assert!(!comes_before(b"a", b""));
    assert!(comes_before(b"ab", b"abc"));
    assert!(comes_before(b"abc", b"abd"));
    assert!(!comes_before(b"abd", b"abc"));
    assert!(comes_before(b"Z", b"a"));
    assert!(!comes_before(b"abc", b"abc"));
}
