// Glob filtering, ordering and size warnings of embedded directories, and
// the path checks of the embed intrinsics.

use compiler_codegen::embed_resolve::{
    check_path_backslash, embed_dir_paths, embed_dir_warnings, glob_match_posix, EMBED_DIR_LARGE_BYTES,
    EMBED_DIR_LARGE_COUNT,
};

fn names(v: &[&str]) -> Vec<String> {
    v.iter().map(|s| s.to_string()).collect()
}

#[test]
fn glob_star_stays_in_one_directory() {
    assert!(glob_match_posix("*.png", "a.png"));
    assert!(!glob_match_posix("*.png", "img/a.png"));
    assert!(glob_match_posix("**.png", "img/a.png"));
    assert!(glob_match_posix("img/?.png", "img/a.png"));
    assert!(!glob_match_posix("img/?.png", "img/ab.png"));
    assert!(glob_match_posix("**", ""));
    assert!(!glob_match_posix("a", "ab"));
}

#[test]
fn backslash_paths_are_reported() {
    assert_eq!(check_path_backslash("assets/logo.png", "embed"), None);
    let m = check_path_backslash("assets\\logo.png", "embed_dir").expect("reported");
    assert!(m.starts_with("[E_EMBED_PATH_BACKSLASH] the path argument of `embed_dir`"));
    assert!(m.contains("(`assets\\logo.png`)"));
}

#[test]
fn embed_dir_paths_sorted_by_bytes() {
    let listing = names(&["b.txt", "a/z.txt", "a.txt", "B.txt", "é.txt", "a/b.txt"]);
    let r = embed_dir_paths(&listing, None);
    assert_eq!(r, names(&["B.txt", "a.txt", "a/b.txt", "a/z.txt", "b.txt", "é.txt"]));
    let mut by_bytes = listing.clone();
    by_bytes.sort_by(|x, y| x.as_bytes().cmp(y.as_bytes()));
    assert_eq!(r, by_bytes);
}

#[test]
fn embed_dir_paths_filtered_by_glob() {
    let listing = names(&["img/b.png", "img/a.png", "notes.txt", "img/sub/c.png", "top.png"]);
    assert_eq!(embed_dir_paths(&listing, Some("*.png")), names(&["top.png"]));
    assert_eq!(embed_dir_paths(&listing, Some("img/*.png")), names(&["img/a.png", "img/b.png"]));
    assert_eq!(embed_dir_paths(&listing, Some("**.png")), names(&["img/a.png", "img/b.png", "img/sub/c.png", "top.png"]));
    assert!(embed_dir_paths(&listing, Some("*.gif")).is_empty());
}

#[test]
fn embed_dir_size_warnings() {
    assert_eq!(embed_dir_warnings(0, 0), (false, true));
    assert_eq!(embed_dir_warnings(3, 100), (false, false));
    assert_eq!(embed_dir_warnings(3, EMBED_DIR_LARGE_BYTES), (false, false));
    assert_eq!(embed_dir_warnings(3, EMBED_DIR_LARGE_BYTES + 1), (true, false));
    assert_eq!(embed_dir_warnings(EMBED_DIR_LARGE_COUNT + 1, 10), (true, false));
}
