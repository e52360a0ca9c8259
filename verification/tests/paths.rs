use virtiofs::path::{components, paths_equal, same_bytes};

#[test]
fn plain_names_compare_by_their_bytes() {
    assert!(paths_equal(b"a", b"a"));
    assert!(!paths_equal(b"a", b"b"));
    assert!(!paths_equal(b"a", b"ab"));
    assert!(!paths_equal(b"a", b"A"));
    assert!(paths_equal(b"\xff\xfe", b"\xff\xfe"));
    assert!(paths_equal(b"..", b".."));
    assert!(!paths_equal(b"..", b"."));
}

#[test]
fn separators_and_inner_dots_do_not_tell_paths_apart() {
    assert!(paths_equal(b"a/b", b"a//b"));
    assert!(paths_equal(b"a/b", b"a/b/"));
    assert!(paths_equal(b"a/b", b"a/./b"));
    assert!(!paths_equal(b"a/b", b"/a/b"));
    assert!(paths_equal(b"/a", b"/./a"));
    assert!(!paths_equal(b"a", b"./a"));
    assert!(paths_equal(b"", b""));
    assert!(!paths_equal(b"", b"."));
    assert!(!paths_equal(b"", b"/"));
}

#[test]
fn paths_compare_as_std_compares_them() {
    let samples: [&str; 14] = [
        "", ".", "..", "/", "//", "a", "./a", "a/", "a/.", "/a", "/./a", "a/../b", "a//b", "a/b/./",
    ];
    for a in samples {
        for b in samples {
            let expected = std::path::Path::new(a) == std::path::Path::new(b);
            assert_eq!(paths_equal(a.as_bytes(), b.as_bytes()), expected, "{:?} {:?}", a, b);
        }
    }
}

#[test]
fn components_are_split_at_separators() {
    assert_eq!(components(b"a//b/./c/"), vec![b"a".to_vec(), b"b".to_vec(), b"c".to_vec()]);
    assert_eq!(components(b"./a"), vec![b".".to_vec(), b"a".to_vec()]);
    assert_eq!(components(b"/"), Vec::<Vec<u8>>::new());
}

#[test]
fn bytes_are_compared_one_by_one() {
    assert!(same_bytes(b"", b""));
    assert!(same_bytes(b"xy", b"xy"));
    assert!(!same_bytes(b"xy", b"xz"));
    assert!(!same_bytes(b"xy", b"x"));
}
