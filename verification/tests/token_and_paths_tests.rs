use proton_drive_sync::error::Error;
use proton_drive_sync::paths::{get_relative_path, is_path_prefix, PathUtils};
use proton_drive_sync::token::{make_change_token, render_u64};

#[test]
fn test_token_format() {
    assert_eq!(make_change_token(1700000000, 3), "1700000000:3");
    assert_eq!(make_change_token(0, 0), "0:0");
    assert_eq!(make_change_token(42, 1048576), "42:1048576");
    assert_eq!(render_u64(0), "0");
    assert_eq!(render_u64(90210), "90210");
    assert_eq!(render_u64(u64::MAX), "18446744073709551615");
}

#[test]
fn test_token_distinguishes_changes() {
    let original = make_change_token(1700000000, 3);
    // An mtime change alone yields a different token.
    assert_ne!(make_change_token(1700000100, 3), original);
    // A size change alone yields a different token.
    assert_ne!(make_change_token(1700000000, 5), original);
    // Both changed: different again.
    assert_ne!(make_change_token(1700000100, 5), original);
    // A content-only change that preserves mtime and size is invisible:
    // the token is a function of (mtime, size) alone.
    assert_eq!(make_change_token(1700000000, 3), original);
    // Swapping the fields does not collide.
    assert_ne!(make_change_token(3, 1700000000), original);
    // Concatenation ambiguity does not collide: 1:23 vs 12:3.
    assert_ne!(make_change_token(1, 23), make_change_token(12, 3));
}

#[test]
fn test_path_join() {
    assert_eq!(PathUtils::join("/r", "x.txt"), "/r/x.txt");
    assert_eq!(PathUtils::join("/r/", "/x.txt"), "/r/x.txt");
    assert_eq!(PathUtils::join("", "x.txt"), "/x.txt");
    assert_eq!(PathUtils::join("///", "x"), "/x");
    assert_eq!(PathUtils::join("/a/b", "c/d"), "/a/b/c/d");
}

#[test]
fn test_path_parent() {
    assert_eq!(PathUtils::parent("/"), None);
    assert_eq!(PathUtils::parent(""), None);
    assert_eq!(PathUtils::parent("/r/x.txt"), Some("/r".to_string()));
    assert_eq!(PathUtils::parent("/x"), Some("/".to_string()));
    assert_eq!(PathUtils::parent("x.txt"), Some("".to_string()));
}

#[test]
fn test_path_filename() {
    assert_eq!(PathUtils::filename("/r/x.txt"), "x.txt");
    assert_eq!(PathUtils::filename("x.txt"), "x.txt");
    assert_eq!(PathUtils::filename("/r/sub/"), "/r/sub/");
}

#[test]
fn test_path_normalize() {
    assert_eq!(PathUtils::normalize("a//b"), "/a/b");
    assert_eq!(PathUtils::normalize("///"), "/");
    assert_eq!(PathUtils::normalize(""), "/");
    assert_eq!(PathUtils::normalize("/a/b"), "/a/b");
}

#[test]
fn test_relative_path() {
    assert_eq!(get_relative_path("/a", "/a/x.txt").unwrap(), "x.txt");
    assert_eq!(get_relative_path("/a/", "/a/x.txt").unwrap(), "x.txt");
    assert_eq!(get_relative_path("/a", "/a").unwrap(), "");
    match get_relative_path("/a", "/b/x.txt") {
        Err(Error::InvalidPath(m)) => assert_eq!(m, "Path not within base"),
        _ => panic!("a path outside the base must be rejected"),
    }
    // Component-wise: "/ab" does not lie under "/a".
    assert!(get_relative_path("/a", "/ab").is_err());
}

#[test]
fn test_path_prefix_is_component_wise() {
    assert!(is_path_prefix("/a", "/a/b"));
    assert!(is_path_prefix("/a", "/a"));
    assert!(is_path_prefix("/a/", "/a/b"));
    assert!(!is_path_prefix("/a", "/ab"));
    assert!(!is_path_prefix("/a/b", "/a"));
}
