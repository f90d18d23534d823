//! Folder synchronisation for a media hub: the configuration of watched
//! folders, the rules that decide what is sent to the server, and the state
//! of the desktop form, each with a contract proved by Verus.

pub mod paths;
pub mod config;
pub mod requests;
pub mod ui;
pub mod watcher;
