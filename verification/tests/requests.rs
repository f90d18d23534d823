use mediahubsync::config::{MyConfig, Path};
use mediahubsync::requests::{
    path_infos, sync_all_paths, sync_target, unique_paths, DirEntryInfo, PathInfo, SyncError,
    UiState,
};

fn entry(path: &str, srv: &str, kind: &str) -> Path {
    Path::from((path.to_string(), srv.to_string(), kind.to_string()))
}

fn dir_entry(path: &str, is_dir: bool, is_file: bool) -> DirEntryInfo {
    DirEntryInfo { path: path.to_string(), is_dir, is_file }
}

#[test]
fn set_loading_sets_the_flag() {
    let mut s = UiState { is_loading: false };
    s.set_loading(true);
    assert!(s.is_loading);
    s.set_loading(false);
    assert!(!s.is_loading);
}

#[test]
fn no_request_without_a_server() {
    let c = MyConfig::new();
    assert!(matches!(sync_target(&c), Err(SyncError::MissingApiUrl)));
}

#[test]
fn request_goes_to_the_folder_service_with_the_token() {
    let mut c = MyConfig::new();
    c.api_url = "media.example.com".to_string();
    c.jwt = "abc.def".to_string();
    let t = sync_target(&c).ok().unwrap();
    assert_eq!(t.url, "https://media.example.com/folderSync");
    assert_eq!(t.authorization, "Bearer abc.def");
}

#[test]
fn path_info_describes_a_folder() {
    let i = PathInfo::new(entry("C:\\Media\\Films\\Alien", "films", "Movie"), 4096);
    assert_eq!(i.file_name, "Alien");
    assert_eq!(i.srv_path, "films");
    assert_eq!(i.size, 4096);
    assert_eq!(i.file_type, "Movie");
}

#[test]
fn path_infos_keep_the_order_and_the_sizes() {
    let infos = path_infos(
        vec![entry("C:\\m\\a.zip", "s", "Game"), entry("/m/b/", "t", "Anime")],
        vec![10, 20],
    );
    assert_eq!(infos.len(), 2);
    assert_eq!(infos[0].file_name, "a.zip");
    assert_eq!(infos[0].size, 10);
    assert_eq!(infos[1].file_name, "b");
    assert_eq!(infos[1].srv_path, "t");
    assert_eq!(infos[1].size, 20);
}

#[test]
fn unique_paths_keeps_first_occurrences_in_order() {
    let r = unique_paths(vec![
        entry("a", "s", "Game"),
        entry("b", "s", "Game"),
        entry("a", "s", "Game"),
        entry("a", "s", "Movie"),
    ]);
    assert_eq!(r.len(), 3);
    assert_eq!(r[0].path, "a");
    assert_eq!(r[1].path, "b");
    assert_eq!(r[2].folder_type, "Movie");
}

#[test]
fn unique_paths_twice_is_unique_paths_once() {
    let once = unique_paths(vec![entry("a", "s", "Game"), entry("a", "s", "Game")]);
    let twice = unique_paths(unique_paths(vec![entry("a", "s", "Game"), entry("a", "s", "Game")]));
    assert_eq!(once.len(), 1);
    assert_eq!(twice.len(), 1);
    assert_eq!(twice[0].path, once[0].path);
}

#[test]
fn sync_all_covers_folders_and_archives_once() {
    let base = entry("C:\\m", "media", "Series");
    let entries = vec![
        dir_entry("C:\\m\\Show", true, false),
        dir_entry("C:\\m\\b.zip", false, true),
        dir_entry("C:\\m\\notes.txt", false, true),
        dir_entry("C:\\m\\d.rar", false, true),
        dir_entry("C:\\m\\Show", true, false),
        dir_entry("C:\\m\\link.zip", false, false),
    ];
    let r = sync_all_paths(entries, &base);
    assert_eq!(r.len(), 3);
    assert_eq!(r[0].path, "C:\\m\\Show");
    assert_eq!(r[1].path, "C:\\m\\b.zip");
    assert_eq!(r[2].path, "C:\\m\\d.rar");
    for p in &r {
        assert_eq!(p.srv_path, "media");
        assert_eq!(p.folder_type, "Series");
    }
}

#[test]
fn sync_all_of_an_empty_folder_covers_nothing() {
    let base = entry("C:\\m", "media", "Series");
    assert!(sync_all_paths(Vec::new(), &base).is_empty());
}
