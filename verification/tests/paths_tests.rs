use cleanroom::paths::{
    generate_full_command_path, resolve_directory_impl, PathIterator,
};

#[test]
fn test_resolve_path_abs_path() {
    assert_eq!(
        resolve_directory_impl("/usr/bin", "/home/foo", None).unwrap(),
        String::from("/usr/bin")
    );
}

#[test]
fn test_resolve_path_is_home() {
    assert_eq!(
        resolve_directory_impl("~", "/home/foo", None).unwrap(),
        String::from("/home/foo")
    );
}

#[test]
fn test_resolve_path_in_home() {
    assert_eq!(
        resolve_directory_impl("~/.local/bin", "/home/foo", None).unwrap(),
        String::from("/home/foo/.local/bin")
    );
}

#[test]
fn test_resolve_path_is_other_home() {
    assert!(resolve_directory_impl("~foo", "/home/foo", None).is_err());
}

#[test]
fn test_resolve_path_in_other_home() {
    assert!(resolve_directory_impl("~foo/.local/bin", "/home/foo", None).is_err());
}

#[test]
fn test_resolve_path_invalid_dot_path() {
    assert!(resolve_directory_impl(".local/bin", "/home/foo", None).is_err());
}

#[test]
fn test_resolve_path_rel_path() {
    assert!(resolve_directory_impl("./local/bin", "/home/foo", None).is_err());
}

#[test]
fn test_resolve_path_rel_path_up() {
    assert!(resolve_directory_impl("../local/bin", "/home/foo", None).is_err());
}

#[test]
fn test_resolve_path_rel_path_with_current() {
    assert_eq!(
        resolve_directory_impl("./local/bin", "/home/foo", Some("/zzz")).unwrap(),
        String::from("/zzz/local/bin")
    );
}

#[test]
fn test_resolve_path_rel_path_up_with_current() {
    assert_eq!(
        resolve_directory_impl("../local/bin", "/home/foo", Some("/zzz")).unwrap(),
        String::from("/zzz/../local/bin")
    );
}

#[test]
fn test_path_iterator() {
    let path = String::from(":/foo::~/bar:");
    let mut iterator = PathIterator::new(&path);

    assert_eq!(iterator.next().unwrap(), String::from(""));
    assert_eq!(iterator.next().unwrap(), String::from("/foo"));
    assert_eq!(iterator.next().unwrap(), String::from(""));
    assert_eq!(iterator.next().unwrap(), String::from("~/bar"));
    assert_eq!(iterator.next().unwrap(), String::from(""));
    assert!(iterator.next().is_none());
    assert!(iterator.next().is_none());
}

#[test]
fn test_generate_full_command_path_exe() {
    assert_eq!(
        generate_full_command_path(
            &vec![
                "./foo".to_string(),
                "{EXE_DIR}/bar".to_string(),
                "{SYSTEMS_DIR}/baz".to_string()
            ],
            "/current_exe/cleanroom.exe",
            "/systems",
            "/home/someone"
        )
        .unwrap(),
        [
            String::from("/home/someone/foo"),
            String::from("/current_exe/bar"),
            String::from("/systems/baz")
        ]
    );
}

#[test]
fn test_generate_full_command_path_rejects_bare_name() {
    assert!(generate_full_command_path(
        &vec!["plain/dir".to_string()],
        "/current_exe/cleanroom.exe",
        "/systems",
        "/home/someone"
    )
    .is_err());
}
