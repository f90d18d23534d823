use mediahubsync::paths::{get_last_two_components, path_file_name, path_is_archive};

#[test]
fn last_two_of_a_windows_folder() {
    assert_eq!(get_last_two_components("C:\\Users\\me\\Games"), "\\me\\Games");
}

#[test]
fn last_two_with_forward_slashes_and_trailing_separator() {
    assert_eq!(get_last_two_components("/home/user/movies/"), "\\user\\movies");
}

#[test]
fn last_two_of_a_folder_at_the_drive_root() {
    assert_eq!(get_last_two_components("C:\\Games"), "Games");
}

#[test]
fn last_two_of_a_single_name() {
    assert_eq!(get_last_two_components("movies"), "movies");
}

#[test]
fn last_two_of_an_empty_path() {
    assert_eq!(get_last_two_components(""), "");
}

#[test]
fn last_two_of_a_drive_alone() {
    assert_eq!(get_last_two_components("C:\\"), "C:\\");
}

#[test]
fn last_two_skips_single_dots() {
    assert_eq!(get_last_two_components("a/./b/."), "\\a\\b");
}

#[test]
fn last_two_when_the_parent_is_dot_dot() {
    assert_eq!(get_last_two_components("a/../b"), "b");
}

#[test]
fn last_two_when_the_path_ends_in_dot_dot() {
    assert_eq!(get_last_two_components("a/b/.."), "a/b/..");
}

#[test]
fn last_two_of_a_drive_relative_path() {
    assert_eq!(get_last_two_components("D:relative\\x"), "\\relative\\x");
}

#[test]
fn file_name_of_a_path() {
    assert_eq!(path_file_name("C:\\Users\\me\\Games"), Some("Games".to_string()));
    assert_eq!(path_file_name("C:/data/film.mkv/"), Some("film.mkv".to_string()));
}

#[test]
fn file_name_is_missing_for_a_root_or_dot_dot() {
    assert_eq!(path_file_name("C:\\"), None);
    assert_eq!(path_file_name("/"), None);
    assert_eq!(path_file_name("x/.."), None);
    assert_eq!(path_file_name(""), None);
}

#[test]
fn archives_are_rar_and_zip_files() {
    assert!(path_is_archive("d/movie.zip"));
    assert!(path_is_archive("d\\movie.rar"));
    assert!(path_is_archive("d/movie.tar.zip"));
}

#[test]
fn other_names_are_no_archives() {
    assert!(!path_is_archive("d/.zip"));
    assert!(!path_is_archive("d/movie.ZIP"));
    assert!(!path_is_archive("d/movie.zipx"));
    assert!(!path_is_archive("d/zip"));
    assert!(!path_is_archive("d/movie."));
    assert!(!path_is_archive("d/movie.zip/.."));
    assert!(!path_is_archive("C:\\"));
}

#[test]
fn last_two_of_a_folder_at_a_share_root() {
    assert_eq!(get_last_two_components("\\\\s\\t\\f"), "f");
    assert_eq!(get_last_two_components("//s/t/f"), "f");
}

#[test]
fn last_two_inside_a_share() {
    assert_eq!(get_last_two_components("\\\\server\\media\\Films\\Alien"), "\\Films\\Alien");
}

#[test]
fn a_share_root_has_no_file_name() {
    assert_eq!(path_file_name("\\\\s\\t"), None);
    assert_eq!(path_file_name("\\\\s\\t\\"), None);
    assert_eq!(get_last_two_components("\\\\s\\t"), "\\\\s\\t");
}

#[test]
fn a_server_without_share_is_no_prefix() {
    assert_eq!(get_last_two_components("\\\\server"), "server");
    assert_eq!(get_last_two_components("\\\\server\\"), "server");
}

#[test]
fn verbatim_drive_paths() {
    assert_eq!(get_last_two_components("\\\\?\\C:\\a\\b"), "\\a\\b");
    assert_eq!(get_last_two_components("\\\\?\\C:\\b"), "b");
}

#[test]
fn verbatim_share_paths() {
    assert_eq!(get_last_two_components("\\\\?\\UNC\\s\\t\\f"), "f");
    assert_eq!(get_last_two_components("\\\\?\\UNC\\s\\t\\a\\f"), "\\a\\f");
}

#[test]
fn verbatim_paths_take_only_backslashes_as_separators() {
    assert_eq!(path_file_name("\\\\?\\C:\\a/b"), Some("a/b".to_string()));
    assert_eq!(get_last_two_components("\\\\?\\C:\\x\\a/b"), "\\x\\a/b");
}

#[test]
fn in_verbatim_paths_a_single_dot_is_no_name() {
    assert_eq!(path_file_name("\\\\?\\C:\\a\\."), None);
    assert_eq!(get_last_two_components("\\\\?\\C:\\a\\."), "\\\\?\\C:\\a\\.");
    assert_eq!(get_last_two_components("\\\\?\\C:\\.\\b"), "b");
}

#[test]
fn other_verbatim_and_device_prefixes() {
    assert_eq!(get_last_two_components("\\\\?\\pictures\\a\\b"), "\\a\\b");
    assert_eq!(get_last_two_components("\\\\.\\COM1\\x"), "x");
    assert_eq!(path_file_name("\\\\.\\COM1"), None);
}

#[test]
fn archive_on_a_share() {
    assert!(path_is_archive("\\\\s\\t\\movie.zip"));
    assert!(!path_is_archive("\\\\s\\movie.zip"));
}
