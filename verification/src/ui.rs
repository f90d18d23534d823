//! The state of the desktop form, and what its buttons do to it and to the
//! configuration.
use vstd::prelude::*;
use crate::config::{MyConfig, Path, PathView, check_path, has_entry, keys_unique};
use crate::requests::UiState;

verus! {

/// The kind of media in a folder.
#[derive(Clone, Copy, Debug, PartialEq, Eq, Structural)]
pub enum FolderType {
    Game,
    Series,
    Movie,
    Anime,
}

/// The name under which a folder type is stored.
pub open spec fn folder_type_name(t: FolderType) -> Seq<char> {
    match t {
        FolderType::Game => "Game"@,
        FolderType::Series => "Series"@,
        FolderType::Movie => "Movie"@,
        FolderType::Anime => "Anime"@,
    }
}

impl FolderType {
    /// The name under which the folder type is stored: the variant's name.
    pub fn name(&self) -> (r: String)
        ensures
            r@ == folder_type_name(*self),
    {
        match self {
            FolderType::Game => String::from_str("Game"),
            FolderType::Series => String::from_str("Series"),
            FolderType::Movie => String::from_str("Movie"),
            FolderType::Anime => String::from_str("Anime"),
        }
    }
}

/// The form: the entry being written, the token field, whether the entry
/// window is open, and whether the form takes input.
pub struct MyApp {
    pub system_path: String,
    pub server_path: String,
    pub jwt: String,
    pub popup: bool,
    pub folder_type: FolderType,
    pub is_enabled: bool,
}

/// What a [`MyApp`] holds.
pub struct AppView {
    pub system_path: Seq<char>,
    pub server_path: Seq<char>,
    pub jwt: Seq<char>,
    pub popup: bool,
    pub folder_type: FolderType,
    pub is_enabled: bool,
}

impl View for MyApp {
    type V = AppView;

    open spec fn view(&self) -> AppView {
        AppView {
            system_path: self.system_path@,
            server_path: self.server_path@,
            jwt: self.jwt@,
            popup: self.popup,
            folder_type: self.folder_type,
            is_enabled: self.is_enabled,
        }
    }
}

/// The entry that the form describes.
pub open spec fn form_entry(a: AppView) -> PathView {
    PathView {
        path: a.system_path,
        srv_path: a.server_path,
        folder_type: folder_type_name(a.folder_type),
    }
}

/// The configuration holds the form's entry already.
pub open spec fn form_duplicate(a: AppView, ps: Seq<PathView>) -> bool {
    has_entry(ps, a.server_path, a.system_path)
}

/// The form's entry is added: it is new, and both of its paths are filled in.
pub open spec fn form_accepts(a: AppView, ps: Seq<PathView>) -> bool {
    !form_duplicate(a, ps) && a.system_path.len() > 0 && a.server_path.len() > 0
}

/// The form after its entry was added: the window closed and both path
/// fields emptied.
pub open spec fn form_after_add(a: AppView) -> AppView {
    AppView { system_path: Seq::empty(), server_path: Seq::empty(), popup: false, ..a }
}

/// What pressing "Save" in the entry window leads to.
pub enum SaveOutcome {
    /// The configuration holds this entry already.
    Duplicate,
    /// A path field is empty.
    EmptyPath,
    /// This entry is to be added to the configuration.
    Added(Path),
}

impl MyApp {
    /// The form as the program opens it: empty path fields, the configured
    /// token, the window closed, games selected, input taken.
    pub fn new(config: &MyConfig) -> (r: MyApp)
        ensures
            r@ == (AppView {
                system_path: Seq::empty(),
                server_path: Seq::empty(),
                jwt: config.jwt@,
                popup: false,
                folder_type: FolderType::Game,
                is_enabled: true,
            }),
    {
        MyApp {
            system_path: String::new(),
            server_path: String::new(),
            jwt: config.jwt.clone(),
            popup: false,
            folder_type: FolderType::Game,
            is_enabled: true,
        }
    }

    /// "Save" in the entry window: a duplicate entry is refused first, then
    /// one with an empty path; else the entry is handed back to be added, and
    /// the window closes with its path fields emptied.
    pub fn save_entry(&mut self, config: &MyConfig) -> (r: SaveOutcome)
        ensures
            form_duplicate(old(self)@, config@.paths) ==> r is Duplicate && final(self)@ == old(
                self,
            )@,
            !form_duplicate(old(self)@, config@.paths) && !form_accepts(old(self)@, config@.paths)
                ==> r is EmptyPath && final(self)@ == old(self)@,
            form_accepts(old(self)@, config@.paths) ==> (r matches SaveOutcome::Added(p) && p@
                == form_entry(old(self)@) && final(self)@ == form_after_add(old(self)@)),
    {
        if check_path(config, self.server_path.clone(), self.system_path.clone()) {
            return SaveOutcome::Duplicate;
        }
        if self.system_path.as_str().is_empty() || self.server_path.as_str().is_empty() {
            return SaveOutcome::EmptyPath;
        }
        let entry = Path::from(
            (self.system_path.clone(), self.server_path.clone(), self.folder_type.name()),
        );
        self.popup = false;
        self.server_path = String::new();
        self.system_path = String::new();
        SaveOutcome::Added(entry)
    }

    /// "Add New Entry": opens the entry window.
    pub fn open_popup(&mut self)
        ensures
            final(self)@ == (AppView { popup: true, ..old(self)@ }),
    {
        self.popup = true;
    }

    /// "Save" beside the token field: the token to store, unless the field
    /// is empty.
    pub fn save_jwt(&self) -> (r: Option<String>)
        ensures
            r is Some <==> self.jwt@.len() > 0,
            r matches Some(t) ==> t@ == self.jwt@,
    {
        if self.jwt.as_str().is_empty() {
            None
        } else {
            Some(self.jwt.clone())
        }
    }

    /// The form takes input exactly while no request is under way.
    pub fn update_enabled(&mut self, state: &UiState)
        ensures
            final(self)@ == (AppView { is_enabled: !state.is_loading, ..old(self)@ }),
    {
        self.is_enabled = !state.is_loading;
    }
}

/// The form never adds an entry twice: where the configured entries are
/// unique, they stay unique when the entry that "Save" hands back is added.
pub proof fn law_form_keeps_entries_unique(a: AppView, ps: Seq<PathView>)
    requires
        keys_unique(ps),
        form_accepts(a, ps),
    ensures
        keys_unique(ps.push(form_entry(a))),
{
    crate::config::law_append_keeps_unique(ps, form_entry(a));
}

} // verus!
