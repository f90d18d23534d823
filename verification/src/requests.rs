//! What is sent to the server: which folders a synchronisation covers, the
//! description of each folder, and where the request goes.
use vstd::prelude::*;
use crate::config::{MyConfig, Path, PathView, lemma_views_push, views};
use crate::paths::{file_name, is_archive, path_file_name, path_is_archive};

verus! {

/// Whether a request to the server is under way; the form is locked while it is.
pub struct UiState {
    pub is_loading: bool,
}

impl UiState {
    pub fn set_loading(&mut self, loading: bool)
        ensures
            final(self).is_loading == loading,
    {
        self.is_loading = loading;
    }
}

/// What the server is told of one folder.
pub struct PathInfo {
    pub file_name: String,
    pub srv_path: String,
    pub size: u64,
    pub file_type: String,
}

/// What a [`PathInfo`] holds.
pub struct PathInfoView {
    pub file_name: Seq<char>,
    pub srv_path: Seq<char>,
    pub size: u64,
    pub file_type: Seq<char>,
}

impl View for PathInfo {
    type V = PathInfoView;

    open spec fn view(&self) -> PathInfoView {
        PathInfoView {
            file_name: self.file_name@,
            srv_path: self.srv_path@,
            size: self.size,
            file_type: self.file_type@,
        }
    }
}

/// The description of a folder of `size` bytes.
pub open spec fn path_info(p: PathView, size: u64) -> PathInfoView {
    PathInfoView {
        file_name: file_name(p.path).unwrap(),
        srv_path: p.srv_path,
        size: size,
        file_type: p.folder_type,
    }
}

impl PathInfo {
    /// The description of the folder `p` of `size` bytes: its file name, its
    /// server path and its folder type.
    pub fn new(p: Path, size: u64) -> (r: PathInfo)
        requires
            file_name(p.path@) is Some,
        ensures
            r@ == path_info(p@, size),
            r.size == size,
            r.srv_path@ == p.srv_path@,
            r.file_type@ == p.folder_type@,
            file_name(p.path@) == Some(r.file_name@),
    {
        let name = path_file_name(p.path.as_str());
        match name {
            Some(n) => PathInfo { file_name: n, srv_path: p.srv_path, size, file_type: p.folder_type },
            None => {
                proof {
                    assert(false);
                }
                PathInfo { file_name: String::new(), srv_path: p.srv_path, size, file_type: p.folder_type }
            },
        }
    }
}

/// The descriptions of the folders `paths`, whose sizes are `sizes`, in order.
pub fn path_infos(paths: Vec<Path>, sizes: Vec<u64>) -> (r: Vec<PathInfo>)
    requires
        paths.len() == sizes.len(),
        forall|i: int| 0 <= i < paths.len() ==> (#[trigger] file_name(paths@[i].path@)) is Some,
    ensures
        r.len() == paths.len(),
        forall|i: int| 0 <= i < r.len() ==> (#[trigger] r@[i])@ == path_info(paths@[i]@, sizes@[i]),
        forall|i: int|
            0 <= i < r.len() ==> (#[trigger] r@[i]).size == sizes@[i] && r@[i].srv_path@
                == paths@[i].srv_path@ && r@[i].file_type@ == paths@[i].folder_type@ && file_name(
                paths@[i].path@,
            ) == Some(r@[i].file_name@),
{
    let mut r: Vec<PathInfo> = Vec::new();
    let mut i: usize = 0;
    while i < paths.len()
        invariant
            paths.len() == sizes.len(),
            i <= paths.len(),
            r.len() == i,
            forall|j: int| 0 <= j < paths.len() ==> (#[trigger] file_name(paths@[j].path@)) is Some,
            forall|j: int| 0 <= j < i ==> (#[trigger] r@[j])@ == path_info(paths@[j]@, sizes@[j]),
        decreases paths.len() - i,
    {
        let p = paths[i].clone();
        assert(file_name(paths@[i as int].path@) is Some);
        r.push(PathInfo::new(p, sizes[i]));
        i = i + 1;
    }
    r
}

/// Why no request can be sent.
pub enum SyncError {
    /// The configuration names no server.
    MissingApiUrl,
}

/// Where a synchronisation request goes, and how it is signed.
pub struct SyncTarget {
    pub url: String,
    pub authorization: String,
}

/// The address of the synchronisation service on the server `api_url`.
pub open spec fn sync_url(api_url: Seq<char>) -> Seq<char> {
    "https://"@ + api_url + "/folderSync"@
}

/// The value of the `Authorization` header for the token `jwt`.
pub open spec fn bearer(jwt: Seq<char>) -> Seq<char> {
    "Bearer "@ + jwt
}

/// Where the synchronisation request goes: nowhere when the configuration
/// names no server; else to the server's folder service, signed with the
/// configured token.
pub fn sync_target(config: &MyConfig) -> (r: Result<SyncTarget, SyncError>)
    ensures
        (config.api_url@.len() == 0) <==> r is Err,
        r matches Ok(t) ==> t.url@ == sync_url(config.api_url@) && t.authorization@ == bearer(
            config.jwt@,
        ),
        r matches Ok(t) ==> t.url@ == "https://"@ + config.api_url@ + "/folderSync"@
            && t.authorization@ == "Bearer "@ + config.jwt@,
{
    if config.api_url.as_str().is_empty() {
        return Err(SyncError::MissingApiUrl);
    }
    let mut url = String::from_str("https://");
    url.append(config.api_url.as_str());
    url.append("/folderSync");
    let mut authorization = String::from_str("Bearer ");
    authorization.append(config.jwt.as_str());
    Ok(SyncTarget { url, authorization })
}

/// One entry of a folder, as the file system describes it.
pub struct DirEntryInfo {
    pub path: String,
    pub is_dir: bool,
    pub is_file: bool,
}

/// What a [`DirEntryInfo`] holds.
pub struct DirEntryView {
    pub path: Seq<char>,
    pub is_dir: bool,
    pub is_file: bool,
}

impl View for DirEntryInfo {
    type V = DirEntryView;

    open spec fn view(&self) -> DirEntryView {
        DirEntryView { path: self.path@, is_dir: self.is_dir, is_file: self.is_file }
    }
}

/// An entry is synchronised when it is a folder, or a `rar` or `zip` file.
pub open spec fn entry_selected(e: DirEntryView) -> bool {
    e.is_dir || (e.is_file && is_archive(e.path))
}

/// The entries that are synchronised, in order, as entries under the
/// server path and folder type of `base`.
pub open spec fn selected(es: Seq<DirEntryView>, base: PathView) -> Seq<PathView>
    decreases es.len(),
{
    if es.len() == 0 {
        Seq::empty()
    } else {
        let rest = selected(es.drop_last(), base);
        if entry_selected(es.last()) {
            rest.push(
                PathView { path: es.last().path, srv_path: base.srv_path, folder_type: base.folder_type },
            )
        } else {
            rest
        }
    }
}

/// The sequence with each element kept at its first occurrence only.
pub open spec fn unique<A>(s: Seq<A>) -> Seq<A>
    decreases s.len(),
{
    if s.len() == 0 {
        Seq::empty()
    } else {
        let u = unique(s.drop_last());
        if u.contains(s.last()) {
            u
        } else {
            u.push(s.last())
        }
    }
}

/// The views of the entries of a folder.
pub open spec fn entry_views(es: Seq<DirEntryInfo>) -> Seq<DirEntryView> {
    es.map_values(|e: DirEntryInfo| e@)
}

fn same_path(a: &Path, b: &Path) -> (r: bool)
    ensures
        r == (a@ == b@),
{
    a.path == b.path && a.srv_path == b.srv_path && a.folder_type == b.folder_type
}

/// The paths, each kept at its first occurrence only.
pub fn unique_paths(paths: Vec<Path>) -> (r: Vec<Path>)
    ensures
        views(r@) == unique(views(paths@)),
{
    let mut r: Vec<Path> = Vec::new();
    let mut i: usize = 0;
    while i < paths.len()
        invariant
            i <= paths.len(),
            views(r@) == unique(views(paths@).take(i as int)),
        decreases paths.len() - i,
    {
        let p = &paths[i];
        let mut found = false;
        let mut j: usize = 0;
        while j < r.len()
            invariant
                j <= r.len(),
                found <==> exists|k: int| 0 <= k < j && views(r@)[k] == p@,
            decreases r.len() - j,
        {
            assert(views(r@)[j as int] == r@[j as int]@);
            if same_path(&r[j], p) {
                found = true;
            }
            j = j + 1;
        }
        proof {
            let vs = views(paths@);
            assert(vs.take(i + 1).drop_last() =~= vs.take(i as int));
            assert(vs.take(i + 1).last() == p@);
            if found {
                let k = choose|k: int| 0 <= k < j && views(r@)[k] == p@;
                assert(views(r@).contains(p@));
            } else {
                assert(!views(r@).contains(p@));
            }
        }
        if !found {
            let c = p.clone();
            proof {
                lemma_views_push(r@, c);
            }
            r.push(c);
        }
        i = i + 1;
    }
    assert(views(paths@).take(paths.len() as int) =~= views(paths@));
    r
}

/// The folders that synchronising the folder `base` covers: those of its
/// entries that are folders, or `rar` or `zip` files, each once, under the
/// server path and folder type of `base`.
pub fn sync_all_paths(entries: Vec<DirEntryInfo>, base: &Path) -> (r: Vec<Path>)
    ensures
        views(r@) == unique(selected(entry_views(entries@), base@)),
        forall|i: int|
            0 <= i < entries.len() && ((#[trigger] entries@[i]).is_dir || (entries@[i].is_file
                && is_archive(entries@[i].path@))) ==> views(r@).contains(
                PathView {
                    path: entries@[i].path@,
                    srv_path: base.srv_path@,
                    folder_type: base.folder_type@,
                },
            ),
{
    let mut chosen: Vec<Path> = Vec::new();
    let mut i: usize = 0;
    while i < entries.len()
        invariant
            i <= entries.len(),
            views(chosen@) == selected(entry_views(entries@).take(i as int), base@),
        decreases entries.len() - i,
    {
        let e = &entries[i];
        proof {
            let es = entry_views(entries@);
            assert(es.take(i + 1).drop_last() =~= es.take(i as int));
            assert(es.take(i + 1).last() == e@);
        }
        if e.is_dir || (e.is_file && path_is_archive(e.path.as_str())) {
            let p = Path {
                path: e.path.clone(),
                srv_path: base.srv_path.clone(),
                folder_type: base.folder_type.clone(),
            };
            proof {
                lemma_views_push(chosen@, p);
            }
            chosen.push(p);
        }
        i = i + 1;
    }
    assert(entry_views(entries@).take(entries.len() as int) =~= entry_views(entries@));
    let r = unique_paths(chosen);
    proof {
        let es = entry_views(entries@);
        assert forall|i: int|
            0 <= i < entries.len() && ((#[trigger] entries@[i]).is_dir || (entries@[i].is_file
                && is_archive(entries@[i].path@))) implies views(r@).contains(
            PathView {
                path: entries@[i].path@,
                srv_path: base.srv_path@,
                folder_type: base.folder_type@,
            },
        ) by {
            assert(es[i] == entries@[i]@);
            law_sync_all_complete(es, base@, i);
        }
    }
    r
}

/// No element occurs twice.
pub open spec fn distinct<A>(s: Seq<A>) -> bool {
    forall|i: int, j: int| 0 <= i < j < s.len() ==> #[trigger] s[i] != #[trigger] s[j]
}

/// Keeping first occurrences loses no element and adds none.
pub proof fn law_unique_same_elements<A>(s: Seq<A>, x: A)
    ensures
        unique(s).contains(x) <==> s.contains(x),
    decreases s.len(),
{
    if s.len() > 0 {
        let init = s.drop_last();
        law_unique_same_elements(init, x);
        let u = unique(init);
        if s.contains(x) {
            let i = choose|i: int| 0 <= i < s.len() && s[i] == x;
            if i < s.len() - 1 {
                assert(init[i] == x);
                assert(init.contains(x));
                if !u.contains(s.last()) {
                    let j = choose|j: int| 0 <= j < u.len() && u[j] == x;
                    assert(u.push(s.last())[j] == x);
                }
            } else {
                if !u.contains(s.last()) {
                    assert(u.push(s.last())[u.len() as int] == x);
                }
            }
        }
        if unique(s).contains(x) {
            let w = unique(s);
            let j = choose|j: int| 0 <= j < w.len() && w[j] == x;
            if !u.contains(s.last()) && j == u.len() {
                assert(s[s.len() - 1] == x);
            } else {
                assert(w[j] == u[j]);
                assert(u.contains(x));
                let i = choose|i: int| 0 <= i < init.len() && init[i] == x;
                assert(s[i] == init[i]);
            }
        }
    }
}

/// Keeping first occurrences leaves no element twice.
pub proof fn law_unique_distinct<A>(s: Seq<A>)
    ensures
        distinct(unique(s)),
    decreases s.len(),
{
    if s.len() > 0 {
        let init = s.drop_last();
        law_unique_distinct(init);
        let u = unique(init);
        if !u.contains(s.last()) {
            let w = u.push(s.last());
            assert forall|i: int, j: int| 0 <= i < j < w.len() implies #[trigger] w[i]
                != #[trigger] w[j] by {
                assert(w[i] == u[i]);
                if j == u.len() {
                    if u[i] == s.last() {
                        assert(u.contains(s.last()));
                    }
                } else {
                    assert(w[j] == u[j]);
                }
            }
        }
    }
}

/// A sequence without repeated elements is left as it is.
pub proof fn law_unique_of_distinct<A>(s: Seq<A>)
    requires
        distinct(s),
    ensures
        unique(s) == s,
    decreases s.len(),
{
    if s.len() > 0 {
        let init = s.drop_last();
        assert(distinct(init)) by {
            assert forall|i: int, j: int| 0 <= i < j < init.len() implies #[trigger] init[i]
                != #[trigger] init[j] by {
                assert(init[i] == s[i] && init[j] == s[j]);
            }
        }
        law_unique_of_distinct(init);
        if init.contains(s.last()) {
            let i = choose|i: int| 0 <= i < init.len() && init[i] == s.last();
            assert(s[i] == init[i]);
            assert(s[s.len() - 1] == s.last());
        }
        assert(init.push(s.last()) =~= s);
    }
}

/// Keeping first occurrences twice is keeping them once.
pub proof fn law_unique_idempotent<A>(s: Seq<A>)
    ensures
        unique(unique(s)) == unique(s),
{
    law_unique_distinct(s);
    law_unique_of_distinct(unique(s));
}

/// Every folder that a synchronisation covers goes under the server path and
/// the folder type of the synchronised folder, and is an entry of it that
/// is a folder or an archive.
pub proof fn law_sync_all_under_base(es: Seq<DirEntryView>, base: PathView, x: PathView)
    requires
        unique(selected(es, base)).contains(x),
    ensures
        x.srv_path == base.srv_path,
        x.folder_type == base.folder_type,
        exists|i: int| 0 <= i < es.len() && (#[trigger] es[i]).path == x.path && entry_selected(es[i]),
{
    law_unique_same_elements(selected(es, base), x);
    lemma_selected_origin(es, base, x);
}

/// Every entry that is a folder, or a file that is a `rar` or `zip`
/// archive, is covered by a synchronisation, under the server path and
/// folder type of the synchronised folder.
pub proof fn law_sync_all_complete(es: Seq<DirEntryView>, base: PathView, i: int)
    requires
        0 <= i < es.len(),
        es[i].is_dir || (es[i].is_file && is_archive(es[i].path)),
    ensures
        unique(selected(es, base)).contains(
            PathView { path: es[i].path, srv_path: base.srv_path, folder_type: base.folder_type },
        ),
{
    let x = PathView { path: es[i].path, srv_path: base.srv_path, folder_type: base.folder_type };
    lemma_selected_contains(es, base, i);
    law_unique_same_elements(selected(es, base), x);
}

proof fn lemma_selected_contains(es: Seq<DirEntryView>, base: PathView, i: int)
    requires
        0 <= i < es.len(),
        es[i].is_dir || (es[i].is_file && is_archive(es[i].path)),
    ensures
        selected(es, base).contains(
            PathView { path: es[i].path, srv_path: base.srv_path, folder_type: base.folder_type },
        ),
    decreases es.len(),
{
    let x = PathView { path: es[i].path, srv_path: base.srv_path, folder_type: base.folder_type };
    let init = es.drop_last();
    let rest = selected(init, base);
    if i == es.len() - 1 {
        assert(es.last() == es[i]);
        assert(selected(es, base) == rest.push(x));
        assert(rest.push(x)[rest.len() as int] == x);
    } else {
        assert(init[i] == es[i]);
        lemma_selected_contains(init, base, i);
        let j = choose|j: int| 0 <= j < rest.len() && rest[j] == x;
        if entry_selected(es.last()) {
            let y = PathView {
                path: es.last().path,
                srv_path: base.srv_path,
                folder_type: base.folder_type,
            };
            assert(rest.push(y)[j] == x);
        }
    }
}

/// A folder's description carries its size unchanged, its server path and
/// folder type, and the file name of its local path.
pub proof fn law_path_info_fields(p: PathView, size: u64)
    requires
        file_name(p.path) is Some,
    ensures
        path_info(p, size).size == size,
        path_info(p, size).srv_path == p.srv_path,
        path_info(p, size).file_type == p.folder_type,
        Some(path_info(p, size).file_name) == file_name(p.path),
{
}

/// The `Authorization` value is `Bearer `, a space, and then the whole
/// token: 7 characters more than the token, ending with it.
pub proof fn law_bearer_carries_token(jwt: Seq<char>)
    ensures
        bearer(jwt).len() == 7 + jwt.len(),
        bearer(jwt).subrange(0, 7) == seq!['B', 'e', 'a', 'r', 'e', 'r', ' '],
        bearer(jwt).subrange(7, bearer(jwt).len() as int) == jwt,
{
    reveal_strlit("Bearer ");
    assert(bearer(jwt).subrange(0, 7) =~= seq!['B', 'e', 'a', 'r', 'e', 'r', ' ']);
    assert(bearer(jwt).subrange(7, bearer(jwt).len() as int) =~= jwt);
}

/// The request goes to `https://`, the whole server address, then
/// `/folderSync`.
pub proof fn law_sync_url_carries_server(api_url: Seq<char>)
    ensures
        sync_url(api_url).len() == 8 + api_url.len() as int + 11,
        sync_url(api_url).subrange(0, 8) == seq!['h', 't', 't', 'p', 's', ':', '/', '/'],
        sync_url(api_url).subrange(8, 8 + api_url.len() as int) == api_url,
        sync_url(api_url).subrange(8 + api_url.len() as int, sync_url(api_url).len() as int) == seq![
            '/',
            'f',
            'o',
            'l',
            'd',
            'e',
            'r',
            'S',
            'y',
            'n',
            'c',
        ],
{
    reveal_strlit("https://");
    reveal_strlit("/folderSync");
    let u = sync_url(api_url);
    assert(u.subrange(0, 8) =~= seq!['h', 't', 't', 'p', 's', ':', '/', '/']);
    assert(u.subrange(8, 8 + api_url.len() as int) =~= api_url);
    assert(u.subrange(8 + api_url.len() as int, u.len() as int) =~= seq![
        '/',
        'f',
        'o',
        'l',
        'd',
        'e',
        'r',
        'S',
        'y',
        'n',
        'c',
    ]);
}

proof fn lemma_selected_origin(es: Seq<DirEntryView>, base: PathView, x: PathView)
    requires
        selected(es, base).contains(x),
    ensures
        x.srv_path == base.srv_path,
        x.folder_type == base.folder_type,
        exists|i: int| 0 <= i < es.len() && (#[trigger] es[i]).path == x.path && entry_selected(es[i]),
    decreases es.len(),
{
    let init = es.drop_last();
    let rest = selected(init, base);
    let w = selected(es, base);
    let j = choose|j: int| 0 <= j < w.len() && w[j] == x;
    if entry_selected(es.last()) && j == rest.len() {
        assert(es[es.len() - 1] == es.last());
    } else {
        assert(w[j] == rest[j]);
        assert(rest.contains(x));
        lemma_selected_origin(init, base, x);
        let i = choose|i: int| 0 <= i < init.len() && (#[trigger] init[i]).path == x.path && entry_selected(init[i]);
        assert(es[i] == init[i]);
    }
}

} // verus!
