use mediahubsync::config::{
    append_path, check_path, delete_path, read_config, set_jwt, ConfigOutcome, ConfigSource,
    MyConfig, Path,
};

fn entry(path: &str, srv: &str, kind: &str) -> Path {
    Path::from((path.to_string(), srv.to_string(), kind.to_string()))
}

fn sample() -> MyConfig {
    let mut c = MyConfig::new();
    c.api_url = "media.example.com".to_string();
    c.jwt = "token".to_string();
    c.paths.push(entry("C:\\Games", "games", "Game"));
    c.paths.push(entry("C:\\Films", "films", "Movie"));
    c.paths.push(entry("C:\\Games", "games", "Anime"));
    c
}

#[test]
fn path_from_keeps_the_order_of_its_parts() {
    let p = Path::from(("local".to_string(), "server".to_string(), "Game".to_string()));
    assert_eq!(p.path, "local");
    assert_eq!(p.srv_path, "server");
    assert_eq!(p.folder_type, "Game");
}

#[test]
fn new_config_is_empty() {
    let c = MyConfig::new();
    assert!(c.api_url.is_empty());
    assert!(c.jwt.is_empty());
    assert!(c.paths.is_empty());
}

#[test]
fn check_path_finds_an_entry_by_server_and_local_path() {
    let c = sample();
    assert!(check_path(&c, "films".to_string(), "C:\\Films".to_string()));
    assert!(!check_path(&c, "C:\\Films".to_string(), "films".to_string()));
    assert!(!check_path(&c, "films".to_string(), "C:\\Games".to_string()));
    assert!(!check_path(&MyConfig::new(), "films".to_string(), "C:\\Films".to_string()));
}

#[test]
fn delete_path_removes_every_matching_entry_and_keeps_the_rest() {
    let mut c = sample();
    delete_path(&mut c, "games".to_string(), "C:\\Games".to_string());
    assert_eq!(c.paths.len(), 1);
    assert_eq!(c.paths[0].path, "C:\\Films");
    assert!(!check_path(&c, "games".to_string(), "C:\\Games".to_string()));
    assert_eq!(c.jwt, "token");
    assert_eq!(c.api_url, "media.example.com");
}

#[test]
fn delete_path_of_an_absent_entry_changes_nothing() {
    let mut c = sample();
    delete_path(&mut c, "music".to_string(), "C:\\Music".to_string());
    assert_eq!(c.paths.len(), 3);
    assert_eq!(c.paths[2].folder_type, "Anime");
}

#[test]
fn append_then_check_finds_the_entry() {
    let mut c = sample();
    append_path(&mut c, entry("D:\\Anime", "anime", "Anime"));
    assert_eq!(c.paths.len(), 4);
    assert_eq!(c.paths[3].srv_path, "anime");
    assert!(check_path(&c, "anime".to_string(), "D:\\Anime".to_string()));
}

#[test]
fn delete_undoes_append_of_a_new_entry() {
    let mut c = sample();
    append_path(&mut c, entry("D:\\Anime", "anime", "Anime"));
    delete_path(&mut c, "anime".to_string(), "D:\\Anime".to_string());
    assert_eq!(c.paths.len(), 3);
    assert_eq!(c.paths[0].path, "C:\\Games");
    assert_eq!(c.paths[1].path, "C:\\Films");
    assert_eq!(c.paths[2].folder_type, "Anime");
}

#[test]
fn delete_twice_is_delete_once() {
    let mut c = sample();
    delete_path(&mut c, "films".to_string(), "C:\\Films".to_string());
    delete_path(&mut c, "films".to_string(), "C:\\Films".to_string());
    assert_eq!(c.paths.len(), 2);
}

#[test]
fn set_jwt_replaces_only_the_token() {
    let mut c = sample();
    set_jwt(&mut c, "fresh".to_string());
    assert_eq!(c.jwt, "fresh");
    assert_eq!(c.api_url, "media.example.com");
    assert_eq!(c.paths.len(), 3);
}

#[test]
fn missing_config_file_gives_an_empty_default() {
    match read_config(ConfigSource::Missing) {
        ConfigOutcome::CreatedDefault(c) => {
            assert!(c.api_url.is_empty() && c.jwt.is_empty() && c.paths.is_empty())
        }
        _ => panic!("expected a default configuration"),
    }
}

#[test]
fn malformed_config_file_is_refused_with_a_message() {
    match read_config(ConfigSource::Malformed("missing field `jwt`".to_string())) {
        ConfigOutcome::Invalid(m) => {
            assert_eq!(m, "Failed to Read Config File: missing field `jwt`")
        }
        _ => panic!("expected a refusal"),
    }
}

#[test]
fn parsed_config_file_is_loaded_as_it_is() {
    match read_config(ConfigSource::Parsed(sample())) {
        ConfigOutcome::Loaded(c) => {
            assert_eq!(c.api_url, "media.example.com");
            assert_eq!(c.paths.len(), 3);
        }
        _ => panic!("expected the parsed configuration"),
    }
}

#[test]
fn cloned_path_equals_the_original() {
    let p = entry("C:\\Games", "games", "Game");
    let q = p.clone();
    assert_eq!(q.path, p.path);
    assert_eq!(q.srv_path, p.srv_path);
    assert_eq!(q.folder_type, p.folder_type);
}

#[test]
fn an_appended_entry_survives_later_appends_and_token_changes() {
    let mut c = MyConfig::new();
    append_path(&mut c, entry("D:\\Anime", "anime", "Anime"));
    append_path(&mut c, entry("D:\\Films", "films", "Movie"));
    set_jwt(&mut c, "t".to_string());
    assert!(check_path(&c, "anime".to_string(), "D:\\Anime".to_string()));
}

#[test]
fn check_path_ignores_order_and_folder_type() {
    let mut a = MyConfig::new();
    a.paths.push(entry("x", "s", "Game"));
    a.paths.push(entry("y", "t", "Movie"));
    let mut b = MyConfig::new();
    b.paths.push(entry("y", "t", "Anime"));
    b.paths.push(entry("x", "s", "Series"));
    for (s, p) in [("s", "x"), ("t", "y"), ("s", "y")] {
        assert_eq!(
            check_path(&a, s.to_string(), p.to_string()),
            check_path(&b, s.to_string(), p.to_string())
        );
    }
}
