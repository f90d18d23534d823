use mediahubsync::config::{MyConfig, Path};
use mediahubsync::requests::UiState;
use mediahubsync::ui::{FolderType, MyApp, SaveOutcome};

fn config_with(path: &str, srv: &str) -> MyConfig {
    let mut c = MyConfig::new();
    c.jwt = "token".to_string();
    c.paths.push(Path::from((path.to_string(), srv.to_string(), "Game".to_string())));
    c
}

#[test]
fn folder_type_names_are_the_variant_names() {
    assert_eq!(FolderType::Game.name(), "Game");
    assert_eq!(FolderType::Series.name(), "Series");
    assert_eq!(FolderType::Movie.name(), "Movie");
    assert_eq!(FolderType::Anime.name(), "Anime");
}

#[test]
fn new_form_starts_empty_with_the_configured_token() {
    let a = MyApp::new(&config_with("C:\\g", "g"));
    assert!(a.system_path.is_empty());
    assert!(a.server_path.is_empty());
    assert_eq!(a.jwt, "token");
    assert!(!a.popup);
    assert_eq!(a.folder_type, FolderType::Game);
    assert!(a.is_enabled);
}

#[test]
fn save_refuses_a_duplicate_entry() {
    let c = config_with("C:\\g", "g");
    let mut a = MyApp::new(&c);
    a.popup = true;
    a.system_path = "C:\\g".to_string();
    a.server_path = "g".to_string();
    assert!(matches!(a.save_entry(&c), SaveOutcome::Duplicate));
    assert!(a.popup);
    assert_eq!(a.system_path, "C:\\g");
}

#[test]
fn save_refuses_an_empty_path() {
    let c = config_with("C:\\g", "g");
    let mut a = MyApp::new(&c);
    a.popup = true;
    a.system_path = "C:\\films".to_string();
    assert!(matches!(a.save_entry(&c), SaveOutcome::EmptyPath));
    a.system_path = String::new();
    a.server_path = "films".to_string();
    assert!(matches!(a.save_entry(&c), SaveOutcome::EmptyPath));
    assert!(a.popup);
    assert_eq!(a.server_path, "films");
}

#[test]
fn save_adds_a_new_entry_and_closes_the_window() {
    let c = config_with("C:\\g", "g");
    let mut a = MyApp::new(&c);
    a.popup = true;
    a.system_path = "C:\\films".to_string();
    a.server_path = "films".to_string();
    a.folder_type = FolderType::Movie;
    match a.save_entry(&c) {
        SaveOutcome::Added(p) => {
            assert_eq!(p.path, "C:\\films");
            assert_eq!(p.srv_path, "films");
            assert_eq!(p.folder_type, "Movie");
        }
        _ => panic!("expected the entry to be added"),
    }
    assert!(!a.popup);
    assert!(a.system_path.is_empty());
    assert!(a.server_path.is_empty());
    assert_eq!(a.folder_type, FolderType::Movie);
    assert_eq!(a.jwt, "token");
}

#[test]
fn an_entry_under_another_server_path_is_no_duplicate() {
    let c = config_with("C:\\g", "g");
    let mut a = MyApp::new(&c);
    a.system_path = "C:\\g".to_string();
    a.server_path = "h".to_string();
    assert!(matches!(a.save_entry(&c), SaveOutcome::Added(_)));
}

#[test]
fn save_jwt_stores_only_a_filled_token() {
    let mut a = MyApp::new(&MyConfig::new());
    assert_eq!(a.save_jwt(), None);
    a.jwt = "abc".to_string();
    assert_eq!(a.save_jwt(), Some("abc".to_string()));
}

#[test]
fn form_is_locked_while_loading() {
    let mut a = MyApp::new(&MyConfig::new());
    a.update_enabled(&UiState { is_loading: true });
    assert!(!a.is_enabled);
    a.update_enabled(&UiState { is_loading: false });
    assert!(a.is_enabled);
}

#[test]
fn add_new_entry_opens_the_window_only() {
    let mut a = MyApp::new(&MyConfig::new());
    a.server_path = "kept".to_string();
    a.open_popup();
    assert!(a.popup);
    assert_eq!(a.server_path, "kept");
    assert!(a.is_enabled);
}
