use mediahubsync::config::Path;
use mediahubsync::watcher::{should_sync, watch_event, EventKind, ModifyKind, RenameMode};

#[test]
fn kinds_that_are_synchronised() {
    assert!(should_sync(EventKind::Modify(ModifyKind::Any)));
    assert!(should_sync(EventKind::Modify(ModifyKind::Name(RenameMode::To))));
    assert!(should_sync(EventKind::Remove));
}

#[test]
fn kinds_that_are_not_synchronised() {
    assert!(!should_sync(EventKind::Any));
    assert!(!should_sync(EventKind::Access));
    assert!(!should_sync(EventKind::Create));
    assert!(!should_sync(EventKind::Other));
    assert!(!should_sync(EventKind::Modify(ModifyKind::Data)));
    assert!(!should_sync(EventKind::Modify(ModifyKind::Metadata)));
    assert!(!should_sync(EventKind::Modify(ModifyKind::Other)));
    assert!(!should_sync(EventKind::Modify(ModifyKind::Name(RenameMode::From))));
    assert!(!should_sync(EventKind::Modify(ModifyKind::Name(RenameMode::Both))));
    assert!(!should_sync(EventKind::Modify(ModifyKind::Name(RenameMode::Any))));
}

#[test]
fn a_synchronised_change_names_the_first_changed_path() {
    let watched = Path::from(("C:\\m".to_string(), "media".to_string(), "Anime".to_string()));
    let changed = vec!["C:\\m\\new".to_string(), "C:\\m\\old".to_string()];
    let p = watch_event(&watched, EventKind::Remove, &changed).unwrap();
    assert_eq!(p.path, "C:\\m\\new");
    assert_eq!(p.srv_path, "media");
    assert_eq!(p.folder_type, "Anime");
}

#[test]
fn an_ignored_change_leads_to_nothing() {
    let watched = Path::from(("C:\\m".to_string(), "media".to_string(), "Anime".to_string()));
    assert!(watch_event(&watched, EventKind::Create, &vec!["C:\\m\\x".to_string()]).is_none());
    assert!(watch_event(&watched, EventKind::Access, &Vec::new()).is_none());
}
