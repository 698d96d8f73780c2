use cipher::session::{
    get_temp_file_specs, is_console, random_chars, split_path, temp_file_path, TempFileSearch,
    CONSOLE_MODE, MAX_ATTEMPTS, STDIO,
};

#[test]
fn split_path_keeps_the_slash_with_the_directory() {
    assert_eq!(split_path(""), ("", ""));
    assert_eq!(split_path("/"), ("/", ""));
    assert_eq!(split_path("a/"), ("a/", ""));
    assert_eq!(split_path("a//b"), ("a//", "b"));
    assert_eq!(split_path("./notes.txt"), ("./", "notes.txt"));
    assert_eq!(split_path("d\u{e9}p\u{f4}t/\u{65e5}\u{672c}.txt"), ("d\u{e9}p\u{f4}t/", "\u{65e5}\u{672c}.txt"));
    assert_eq!(split_path("\u{65e5}\u{672c}"), ("", "\u{65e5}\u{672c}"));
}

#[test]
fn console_is_the_dash() {
    assert_eq!(STDIO, "-");
    assert!(is_console("-"));
    assert!(!is_console(""));
    assert!(!is_console("--"));
    assert!(!is_console("./-"));
}

#[test]
fn console_gets_a_fixed_temporary_file() {
    assert_eq!(CONSOLE_MODE, 0o600);
    assert_eq!(get_temp_file_specs("-"), (Some(0o600), "", "temp.txt"));
}

#[test]
fn file_gets_a_temporary_file_beside_it() {
    assert_eq!(get_temp_file_specs("notes.txt"), (None, "", "notes.txt"));
    assert_eq!(get_temp_file_specs("/home/me/notes.txt"), (None, "/home/me/", "notes.txt"));
    assert_eq!(get_temp_file_specs("a/-"), (None, "a/", "-"));
}

#[test]
fn temporary_path_holds_the_random_part() {
    assert_eq!(temp_file_path("", "ABC1234", "notes.txt"), "_cipher_ABC1234_notes.txt");
    assert_eq!(temp_file_path("/a/b/", "Z9Z9Z9Z", "c"), "/a/b/_cipher_Z9Z9Z9Z_c");
}

#[test]
fn random_part_is_seven_letters_or_digits() {
    for _ in 0..200 {
        let suffix = random_chars();
        assert_eq!(suffix.len(), 7);
        assert!(suffix.chars().all(|c| c.is_ascii_uppercase() || c.is_ascii_digit()));
    }
}

#[test]
fn fifty_paths_are_tried_and_no_more() {
    assert_eq!(MAX_ATTEMPTS, 50);
    let mut search = TempFileSearch::new();
    for _ in 0..50 {
        let path = search.next_candidate("dir/", "name.txt").unwrap();
        assert!(path.starts_with("dir/_cipher_"));
        assert!(path.ends_with("_name.txt"));
        assert_eq!(path.len(), "dir/_cipher_".len() + 7 + "_name.txt".len());
        let suffix = &path["dir/_cipher_".len().."dir/_cipher_".len() + 7];
        assert!(suffix.chars().all(|c| c.is_ascii_uppercase() || c.is_ascii_digit()));
    }
    for _ in 0..3 {
        let e = search.next_candidate("dir/", "name.txt").unwrap_err();
        assert_eq!(e.context(), "output");
        assert_eq!(e.detail(), "Failed to create temp file");
    }
}

#[test]
fn candidates_for_the_console_stand_in_the_working_directory() {
    let (_, dir, name) = get_temp_file_specs("-");
    let path = TempFileSearch::new().next_candidate(dir, name).unwrap();
    assert!(path.starts_with("_cipher_"));
    assert!(path.ends_with("_temp.txt"));
}
