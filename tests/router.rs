use sandstorm_preload::path_router::{is_absolute, make_absolute, path_components, route_open, OpenRoute};

fn names(v: &[&str]) -> Vec<Vec<u8>> {
    v.iter().map(|s| s.as_bytes().to_vec()).collect()
}

fn walk_of(path: &[u8], cwd: Option<&[u8]>) -> Option<Vec<Vec<u8>>> {
    match route_open(path, cwd) {
        OpenRoute::PassThrough => None,
        OpenRoute::Virtual(n) => Some(n),
    }
}

#[test]
fn path_outside_mount_passes_through() {
    assert_eq!(walk_of(b"/etc/passwd", None), None);
    assert_eq!(walk_of(b"/etc/passwd", Some(b"/sandstorm-magic")), None);
    assert_eq!(walk_of(b"/", None), None);
    assert_eq!(walk_of(b"", Some(b"/home")), None);
}

#[test]
fn path_under_mount_walks_each_name() {
    assert_eq!(walk_of(b"/sandstorm-magic/a/b", None), Some(names(&["a", "b"])));
    assert_eq!(walk_of(b"/sandstorm-magic/missing", None), Some(names(&["missing"])));
}

#[test]
fn mount_root_walks_nothing() {
    assert_eq!(walk_of(b"/sandstorm-magic", None), Some(names(&[])));
    assert_eq!(walk_of(b"/sandstorm-magic/", None), Some(names(&[])));
}

#[test]
fn mount_prefix_matches_whole_components_only() {
    assert_eq!(walk_of(b"/sandstorm-magicx/a", None), None);
    assert_eq!(walk_of(b"/sandstorm/magic/a", None), None);
    assert_eq!(walk_of(b"sandstorm-magic/a", None), None);
}

#[test]
fn separators_and_dots_are_normalised() {
    assert_eq!(walk_of(b"//sandstorm-magic/./a//b/", None), Some(names(&["a", "b"])));
    assert_eq!(walk_of(b"/./sandstorm-magic/a", None), Some(names(&["a"])));
}

#[test]
fn parent_components_are_not_followed() {
    assert_eq!(walk_of(b"/sandstorm-magic/../a/..", None), Some(names(&["a"])));
    assert_eq!(walk_of(b"/../sandstorm-magic/a", None), None);
}

#[test]
fn relative_path_joins_working_directory() {
    assert_eq!(walk_of(b"a/b", Some(b"/sandstorm-magic")), Some(names(&["a", "b"])));
    assert_eq!(walk_of(b"./x", Some(b"/sandstorm-magic/d/")), Some(names(&["d", "x"])));
    assert_eq!(walk_of(b"sandstorm-magic/q", Some(b"/")), Some(names(&["q"])));
    assert_eq!(walk_of(b"a/b", Some(b"/home/user")), None);
}

#[test]
fn relative_path_without_working_directory_passes_through() {
    assert_eq!(walk_of(b"a/b", None), None);
    assert_eq!(walk_of(b"sandstorm-magic/a", None), None);
}

#[test]
fn non_utf8_path_passes_through() {
    assert_eq!(walk_of(b"/sandstorm-magic/\xff", None), None);
}

#[test]
fn non_utf8_name_in_working_directory_is_skipped() {
    assert_eq!(
        walk_of(b"x", Some(b"/sandstorm-magic/\xff/d")),
        Some(names(&["d", "x"]))
    );
}

#[test]
fn absolute_paths_start_at_root() {
    assert!(is_absolute(b"/etc"));
    assert!(!is_absolute(b"etc"));
    assert!(!is_absolute(b""));
}

#[test]
fn components_drop_empty_and_dot() {
    assert_eq!(path_components(b"/a//b/./c/"), names(&["a", "b", "c"]));
    assert_eq!(path_components(b"../x"), names(&["..", "x"]));
    assert_eq!(path_components(b"///"), names(&[]));
    assert_eq!(path_components(b".hidden/.."), names(&[".hidden", ".."]));
}

#[test]
fn make_absolute_joins_relative_paths() {
    assert_eq!(make_absolute(b"/etc/passwd", None), Some(b"/etc/passwd".to_vec()));
    assert_eq!(make_absolute(b"/etc/passwd", Some(b"/home")), Some(b"/etc/passwd".to_vec()));
    assert_eq!(make_absolute(b"a/b", Some(b"/home")), Some(b"/home/a/b".to_vec()));
    assert_eq!(make_absolute(b"a/b", None), None);
}
