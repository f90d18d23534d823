//! The configuration: where the server is, the token that signs requests,
//! and the folders that are kept in sync, each under a server path.
use vstd::prelude::*;

verus! {

/// A watched folder: its place on this machine, the path it goes to on the
/// server, and the kind of media it holds.
pub struct Path {
    pub path: String,
    pub srv_path: String,
    pub folder_type: String,
}

/// What a [`Path`] holds, as character sequences.
pub struct PathView {
    pub path: Seq<char>,
    pub srv_path: Seq<char>,
    pub folder_type: Seq<char>,
}

impl View for Path {
    type V = PathView;

    open spec fn view(&self) -> PathView {
        PathView { path: self.path@, srv_path: self.srv_path@, folder_type: self.folder_type@ }
    }
}

impl Clone for Path {
    fn clone(&self) -> (r: Self)
        ensures
            r@ == self@,
    {
        Path {
            path: self.path.clone(),
            srv_path: self.srv_path.clone(),
            folder_type: self.folder_type.clone(),
        }
    }
}

impl Path {
    /// A path from its three parts, in the order local path, server path,
    /// folder type.
    pub fn from(parts: (String, String, String)) -> (r: Path)
        ensures
            r@ == (PathView {
                path: parts.0@,
                srv_path: parts.1@,
                folder_type: parts.2@,
            }),
    {
        let (path, srv_path, folder_type) = parts;
        Path { path, srv_path, folder_type }
    }
}

/// The configuration as the program keeps it.
pub struct MyConfig {
    pub api_url: String,
    pub jwt: String,
    pub paths: Vec<Path>,
}

/// What a [`MyConfig`] holds.
pub struct ConfigView {
    pub api_url: Seq<char>,
    pub jwt: Seq<char>,
    pub paths: Seq<PathView>,
}

/// The views of a sequence of paths.
pub open spec fn views(ps: Seq<Path>) -> Seq<PathView> {
    ps.map_values(|p: Path| p@)
}

impl View for MyConfig {
    type V = ConfigView;

    open spec fn view(&self) -> ConfigView {
        ConfigView { api_url: self.api_url@, jwt: self.jwt@, paths: views(self.paths@) }
    }
}

/// The configuration written when there is none: every field empty.
pub open spec fn empty_config() -> ConfigView {
    ConfigView { api_url: Seq::empty(), jwt: Seq::empty(), paths: Seq::empty() }
}

impl MyConfig {
    /// A configuration with no server, no token and no folder.
    pub fn new() -> (r: MyConfig)
        ensures
            r@ == empty_config(),
    {
        let r = MyConfig { api_url: String::new(), jwt: String::new(), paths: Vec::new() };
        assert(views(r.paths@) =~= Seq::<PathView>::empty());
        r
    }
}

/// The entry has the server path `srv` and the local path `path`.
pub open spec fn is_entry(p: PathView, srv: Seq<char>, path: Seq<char>) -> bool {
    p.srv_path == srv && p.path == path
}

/// Some entry has the server path `srv` and the local path `path`.
pub open spec fn has_entry(ps: Seq<PathView>, srv: Seq<char>, path: Seq<char>) -> bool {
    exists|i: int| 0 <= i < ps.len() && is_entry(#[trigger] ps[i], srv, path)
}

/// The entries, in order, without those with the server path `srv` and the
/// local path `path`.
pub open spec fn without(ps: Seq<PathView>, srv: Seq<char>, path: Seq<char>) -> Seq<PathView>
    decreases ps.len(),
{
    if ps.len() == 0 {
        Seq::empty()
    } else {
        let rest = without(ps.drop_last(), srv, path);
        if is_entry(ps.last(), srv, path) {
            rest
        } else {
            rest.push(ps.last())
        }
    }
}

/// No two entries share both their server path and their local path.
pub open spec fn keys_unique(ps: Seq<PathView>) -> bool {
    forall|i: int, j: int|
        0 <= i < j < ps.len() ==> !is_entry(#[trigger] ps[i], #[trigger] ps[j].srv_path, ps[j].path)
}

/// Adding a path at the end adds its view at the end.
pub proof fn lemma_views_push(ps: Seq<Path>, p: Path)
    ensures
        views(ps.push(p)) == views(ps).push(p@),
{
    assert(views(ps.push(p)) =~= views(ps).push(p@));
}

fn same_entry(p: &Path, srv_path: &String, inpath: &String) -> (b: bool)
    ensures
        b == is_entry(p@, srv_path@, inpath@),
{
    p.srv_path == *srv_path && p.path == *inpath
}

/// Whether the configuration already holds the entry with the server path
/// `srv_path` and the local path `inpath`.
pub fn check_path(config: &MyConfig, srv_path: String, inpath: String) -> (b: bool)
    ensures
        b == has_entry(config@.paths, srv_path@, inpath@),
{
    let n = config.paths.len();
    let mut i: usize = 0;
    while i < n
        invariant
            n == config.paths.len(),
            i <= n,
            forall|j: int| 0 <= j < i ==> !is_entry(#[trigger] config@.paths[j], srv_path@, inpath@),
        decreases n - i,
    {
        if same_entry(&config.paths[i], &srv_path, &inpath) {
            assert(config@.paths[i as int] == config.paths@[i as int]@);
            return true;
        }
        assert(config@.paths[i as int] == config.paths@[i as int]@);
        i = i + 1;
    }
    false
}

/// Removes every entry with the server path `srv_path` and the local path
/// `inpath`; the other entries and fields stay as they were, in order.
pub fn delete_path(config: &mut MyConfig, srv_path: String, inpath: String)
    ensures
        final(config)@ == (ConfigView {
            api_url: old(config)@.api_url,
            jwt: old(config)@.jwt,
            paths: without(old(config)@.paths, srv_path@, inpath@),
        }),
{
    let ghost old_paths = config@.paths;
    let n = config.paths.len();
    let mut kept: Vec<Path> = Vec::new();
    let mut i: usize = 0;
    while i < n
        invariant
            n == config.paths.len(),
            i <= n,
            config@.paths == old_paths,
            old_paths.len() == n,
            views(kept@) == without(old_paths.take(i as int), srv_path@, inpath@),
        decreases n - i,
    {
        let p = &config.paths[i];
        proof {
            assert(old_paths.take(i + 1).drop_last() =~= old_paths.take(i as int));
            assert(old_paths[i as int] == p@);
        }
        if !same_entry(p, &srv_path, &inpath) {
            let c = p.clone();
            proof {
                lemma_views_push(kept@, c);
            }
            kept.push(c);
        }
        i = i + 1;
    }
    assert(old_paths.take(n as int) =~= old_paths);
    config.paths = kept;
}

/// Adds an entry at the end; the other entries and fields stay as they were.
pub fn append_path(config: &mut MyConfig, new_path: Path)
    ensures
        final(config)@ == (ConfigView {
            api_url: old(config)@.api_url,
            jwt: old(config)@.jwt,
            paths: old(config)@.paths.push(new_path@),
        }),
{
    proof {
        lemma_views_push(config.paths@, new_path);
    }
    config.paths.push(new_path);
}

/// Replaces the token; the other fields stay as they were.
pub fn set_jwt(config: &mut MyConfig, new_jwt: String)
    ensures
        final(config)@ == (ConfigView {
            api_url: old(config)@.api_url,
            jwt: new_jwt@,
            paths: old(config)@.paths,
        }),
{
    config.jwt = new_jwt;
}

/// What reading the configuration file found.
pub enum ConfigSource {
    /// There is no configuration file, or it cannot be opened.
    Missing,
    /// The file is there, but its content is no configuration; the text
    /// says why.
    Malformed(String),
    /// The file holds this configuration.
    Parsed(MyConfig),
}

/// What the program does with what it found.
pub enum ConfigOutcome {
    /// Go on with the configuration read from the file.
    Loaded(MyConfig),
    /// Go on with this fresh configuration, and write it to the file.
    CreatedDefault(MyConfig),
    /// Tell the user this message and stop.
    Invalid(String),
}

/// The message shown when the configuration file cannot be read.
pub open spec fn invalid_config_message(reason: Seq<char>) -> Seq<char> {
    "Failed to Read Config File: "@ + reason
}

/// Decides what to do with the configuration file: a missing file is
/// replaced by an empty configuration, a malformed one is refused with a
/// message, a parsed one is taken as it is.
pub fn read_config(source: ConfigSource) -> (r: ConfigOutcome)
    ensures
        match source {
            ConfigSource::Missing => r matches ConfigOutcome::CreatedDefault(c) && c@
                == empty_config(),
            ConfigSource::Malformed(reason) => r matches ConfigOutcome::Invalid(m) && m@
                == invalid_config_message(reason@),
            ConfigSource::Parsed(c) => r matches ConfigOutcome::Loaded(d) && d@ == c@,
        },
{
    match source {
        ConfigSource::Missing => ConfigOutcome::CreatedDefault(MyConfig::new()),
        ConfigSource::Malformed(reason) => {
            let mut m = String::from_str("Failed to Read Config File: ");
            m.append(reason.as_str());
            ConfigOutcome::Invalid(m)
        },
        ConfigSource::Parsed(c) => ConfigOutcome::Loaded(c),
    }
}

/// Which entries stay when entries are removed: exactly those that were
/// there and are not the removed one.
pub proof fn law_without_entries(
    ps: Seq<PathView>,
    srv: Seq<char>,
    path: Seq<char>,
    srv2: Seq<char>,
    path2: Seq<char>,
)
    ensures
        has_entry(without(ps, srv, path), srv2, path2) <==> (has_entry(ps, srv2, path2) && !(srv2
            == srv && path2 == path)),
    decreases ps.len(),
{
    if ps.len() > 0 {
        let init = ps.drop_last();
        law_without_entries(init, srv, path, srv2, path2);
        let rest = without(init, srv, path);
        if has_entry(ps, srv2, path2) && !(srv2 == srv && path2 == path) {
            let i = choose|i: int| 0 <= i < ps.len() && is_entry(#[trigger] ps[i], srv2, path2);
            if i < ps.len() - 1 {
                assert(init[i] == ps[i]);
                assert(has_entry(init, srv2, path2));
                if !is_entry(ps.last(), srv, path) {
                    let j = choose|j: int|
                        0 <= j < rest.len() && is_entry(#[trigger] rest[j], srv2, path2);
                    assert(rest.push(ps.last())[j] == rest[j]);
                }
            } else {
                assert(rest.push(ps.last())[rest.len() as int] == ps.last());
            }
        }
        if has_entry(without(ps, srv, path), srv2, path2) {
            let w = without(ps, srv, path);
            let j = choose|j: int| 0 <= j < w.len() && is_entry(#[trigger] w[j], srv2, path2);
            if !is_entry(ps.last(), srv, path) && j == rest.len() {
                assert(ps[ps.len() - 1] == ps.last());
            } else {
                assert(w[j] == rest[j]);
                assert(has_entry(rest, srv2, path2));
                let i = choose|i: int| 0 <= i < init.len() && is_entry(#[trigger] init[i], srv2, path2);
                assert(ps[i] == init[i]);
            }
        }
    }
}

/// After `delete_path`, `check_path` no longer finds the deleted entry.
pub proof fn law_delete_removes(ps: Seq<PathView>, srv: Seq<char>, path: Seq<char>)
    ensures
        !has_entry(without(ps, srv, path), srv, path),
{
    law_without_entries(ps, srv, path, srv, path);
}

/// Removing entries keeps the entries unique.
pub proof fn law_delete_keeps_unique(ps: Seq<PathView>, srv: Seq<char>, path: Seq<char>)
    requires
        keys_unique(ps),
    ensures
        keys_unique(without(ps, srv, path)),
    decreases ps.len(),
{
    if ps.len() > 0 {
        let init = ps.drop_last();
        assert(keys_unique(init)) by {
            assert forall|i: int, j: int| 0 <= i < j < init.len() implies !is_entry(
                #[trigger] init[i],
                #[trigger] init[j].srv_path,
                init[j].path,
            ) by {
                assert(init[i] == ps[i] && init[j] == ps[j]);
            }
        }
        law_delete_keeps_unique(init, srv, path);
        let rest = without(init, srv, path);
        if !is_entry(ps.last(), srv, path) {
            let x = ps.last();
            assert(!has_entry(init, x.srv_path, x.path)) by {
                if has_entry(init, x.srv_path, x.path) {
                    let i = choose|i: int|
                        0 <= i < init.len() && is_entry(#[trigger] init[i], x.srv_path, x.path);
                    assert(init[i] == ps[i]);
                    assert(ps[ps.len() - 1] == x);
                }
            }
            law_without_entries(init, srv, path, x.srv_path, x.path);
            let w = rest.push(x);
            assert forall|i: int, j: int| 0 <= i < j < w.len() implies !is_entry(
                #[trigger] w[i],
                #[trigger] w[j].srv_path,
                w[j].path,
            ) by {
                if j == rest.len() {
                    assert(w[i] == rest[i]);
                    assert(w[j] == x);
                } else {
                    assert(w[i] == rest[i] && w[j] == rest[j]);
                }
            }
        }
    }
}

/// Removing an entry that is not there changes nothing.
pub proof fn law_delete_absent(ps: Seq<PathView>, srv: Seq<char>, path: Seq<char>)
    requires
        !has_entry(ps, srv, path),
    ensures
        without(ps, srv, path) == ps,
    decreases ps.len(),
{
    if ps.len() > 0 {
        let init = ps.drop_last();
        assert(!has_entry(init, srv, path)) by {
            if has_entry(init, srv, path) {
                let i = choose|i: int| 0 <= i < init.len() && is_entry(#[trigger] init[i], srv, path);
                assert(ps[i] == init[i]);
            }
        }
        law_delete_absent(init, srv, path);
        assert(ps[ps.len() - 1] == ps.last());
        assert(init.push(ps.last()) =~= ps);
    }
}

/// Removing the same entry twice is removing it once.
pub proof fn law_delete_idempotent(ps: Seq<PathView>, srv: Seq<char>, path: Seq<char>)
    ensures
        without(without(ps, srv, path), srv, path) == without(ps, srv, path),
{
    law_delete_removes(ps, srv, path);
    law_delete_absent(without(ps, srv, path), srv, path);
}

/// After `append_path`, `check_path` finds the new entry.
pub proof fn law_append_found(ps: Seq<PathView>, x: PathView)
    ensures
        has_entry(ps.push(x), x.srv_path, x.path),
{
    assert(ps.push(x)[ps.len() as int] == x);
}

/// Adding an entry keeps every entry that was there: what `check_path`
/// found before an `append_path`, it finds after it.
pub proof fn law_append_keeps_entries(ps: Seq<PathView>, x: PathView, srv: Seq<char>, path: Seq<char>)
    requires
        has_entry(ps, srv, path),
    ensures
        has_entry(ps.push(x), srv, path),
{
    let i = choose|i: int| 0 <= i < ps.len() && is_entry(#[trigger] ps[i], srv, path);
    assert(ps.push(x)[i] == ps[i]);
}

/// Two lists with the same entries, as pairs of server path and local path,
/// answer `check_path` alike, whatever their order and folder types.
pub proof fn law_check_path_keys_only(
    ps: Seq<PathView>,
    qs: Seq<PathView>,
    srv: Seq<char>,
    path: Seq<char>,
)
    requires
        forall|i: int|
            0 <= i < ps.len() ==> exists|j: int|
                0 <= j < qs.len() && #[trigger] ps[i].srv_path == #[trigger] qs[j].srv_path
                    && ps[i].path == qs[j].path,
        forall|j: int|
            0 <= j < qs.len() ==> exists|i: int|
                0 <= i < ps.len() && #[trigger] ps[i].srv_path == #[trigger] qs[j].srv_path
                    && ps[i].path == qs[j].path,
    ensures
        has_entry(ps, srv, path) == has_entry(qs, srv, path),
{
    if has_entry(ps, srv, path) {
        let i = choose|i: int| 0 <= i < ps.len() && is_entry(#[trigger] ps[i], srv, path);
        let j = choose|j: int|
            0 <= j < qs.len() && #[trigger] ps[i].srv_path == #[trigger] qs[j].srv_path
                && ps[i].path == qs[j].path;
        assert(is_entry(qs[j], srv, path));
    }
    if has_entry(qs, srv, path) {
        let j = choose|j: int| 0 <= j < qs.len() && is_entry(#[trigger] qs[j], srv, path);
        let i = choose|i: int|
            0 <= i < ps.len() && #[trigger] ps[i].srv_path == #[trigger] qs[j].srv_path
                && ps[i].path == qs[j].path;
        assert(is_entry(ps[i], srv, path));
    }
}

/// Adding an entry that is not there yet keeps the entries unique.
pub proof fn law_append_keeps_unique(ps: Seq<PathView>, x: PathView)
    requires
        keys_unique(ps),
        !has_entry(ps, x.srv_path, x.path),
    ensures
        keys_unique(ps.push(x)),
{
    let w = ps.push(x);
    assert forall|i: int, j: int| 0 <= i < j < w.len() implies !is_entry(
        #[trigger] w[i],
        #[trigger] w[j].srv_path,
        w[j].path,
    ) by {
        assert(w[i] == ps[i]);
        if j < ps.len() {
            assert(w[j] == ps[j]);
        }
    }
}

/// Deleting an entry just added, that was not there before, gives back the
/// entries as they were.
pub proof fn law_delete_undoes_append(ps: Seq<PathView>, x: PathView)
    requires
        !has_entry(ps, x.srv_path, x.path),
    ensures
        without(ps.push(x), x.srv_path, x.path) == ps,
{
    assert(ps.push(x).drop_last() =~= ps);
    law_delete_absent(ps, x.srv_path, x.path);
}

} // verus!
