//! The persisted application data — folders, tracked repositories and custom
//! editors — and every change the commands make to it.
//!
//! Each change is stated over the data's view by a spec function
//! (`add_folder_spec`, `remove_folder_spec`, ...); the laws at the end relate
//! them.

use vstd::prelude::*;
use crate::models::{clone_opt, opt_chars, Editor, EditorView, Folder, FolderView};
use crate::search::{first_index, is_first_index, lemma_first_index, lemma_first_index_is, lemma_first_index_none};
use crate::text::{
    char_is_alphanumeric, chars_of, decimal, is_alphanumeric, push_decimal, str_eq,
    str_lowercase, string_from, string_of, to_lowercase, ascii_lower, ascii_lower_char, is_ascii_text,
};

verus! {

broadcast use {Seq::lemma_push_map_commute, Seq::lemma_filter_push};

// ── Identifiers ─────────────────────────────────────────────────────────────

/// The slug of already lower-cased characters `s`: its maximal runs of
/// alphanumeric characters, in order, joined by single hyphens.
pub open spec fn slug_chars(s: Seq<char>) -> Seq<char>
    decreases s.len(),
{
    if s.len() == 0 {
        seq![]
    } else {
        let prev = slug_chars(s.drop_last());
        let c = s.last();
        if !char_is_alphanumeric(c) {
            prev
        } else if s.len() >= 2 && !char_is_alphanumeric(s[s.len() - 2]) && prev.len() > 0 {
            prev.push('-').push(c)
        } else {
            prev.push(c)
        }
    }
}

/// The slug of `s`: the slug of its lower-cased characters.
pub open spec fn slugify_spec(s: Seq<char>) -> Seq<char> {
    slug_chars(str_lowercase(s))
}

/// Lower-cases `s` and joins its runs of alphanumeric characters with single
/// hyphens ("My Cool_Repo!" becomes "my-cool-repo").
pub fn slugify(s: &str) -> (r: String)
    ensures
        r@ == slugify_spec(s@),
        is_ascii_text(s@) ==> r@ == slug_chars(ascii_lower(s@)),
{
    let lower = to_lowercase(s);
    let cs = chars_of(lower.as_str());
    let mut out: Vec<char> = Vec::new();
    let mut i: usize = 0;
    while i < cs.len()
        invariant
            i <= cs.len(),
            out@ == slug_chars(cs@.take(i as int)),
        decreases cs.len() - i,
    {
        let c = cs[i];
        let ghost pre = cs@.take(i as int);
        assert(cs@.take(i + 1).drop_last() == pre);
        if is_alphanumeric(c) {
            if i >= 1 && !is_alphanumeric(cs[i - 1]) && out.len() > 0 {
                out.push('-');
            }
            out.push(c);
        }
        i += 1;
    }
    assert(cs@.take(cs.len() as int) == cs@);
    string_of(&out)
}

/// A character of a slug: alphanumeric, or a hyphen with alphanumeric
/// characters on both sides.
pub open spec fn slug_char_ok(r: Seq<char>, i: int) -> bool {
    ||| char_is_alphanumeric(r[i])
    ||| (r[i] == '-' && 0 < i < r.len() - 1 && char_is_alphanumeric(r[i - 1]) && char_is_alphanumeric(r[i + 1]))
}

/// Every slug is made of alphanumeric characters and hyphens between them,
/// and starts and ends alphanumeric.
proof fn lemma_slug_chars_shape(t: Seq<char>)
    ensures
        forall|i: int| 0 <= i < slug_chars(t).len() ==> slug_char_ok(slug_chars(t), i),
        slug_chars(t).len() > 0 ==> char_is_alphanumeric(slug_chars(t)[0]) && char_is_alphanumeric(slug_chars(t).last()),
    decreases t.len(),
{
    if t.len() > 0 {
        lemma_slug_chars_shape(t.drop_last());
        let prev = slug_chars(t.drop_last());
        let c = t.last();
        let r = slug_chars(t);
        if char_is_alphanumeric(c) {
            if t.len() >= 2 && !char_is_alphanumeric(t[t.len() - 2]) && prev.len() > 0 {
                assert(r == prev.push('-').push(c));
                assert forall|i: int| 0 <= i < r.len() implies slug_char_ok(r, i) by {
                    if i < prev.len() {
                        assert(r[i] == prev[i]);
                        assert(slug_char_ok(prev, i));
                        if i + 1 < prev.len() {
                            assert(r[i + 1] == prev[i + 1]);
                        }
                        if i > 0 {
                            assert(r[i - 1] == prev[i - 1]);
                        }
                    } else if i == prev.len() {
                        assert(r[i - 1] == prev.last());
                    }
                }
            } else {
                assert(r == prev.push(c));
                assert forall|i: int| 0 <= i < r.len() implies slug_char_ok(r, i) by {
                    if i < prev.len() {
                        assert(r[i] == prev[i]);
                        assert(slug_char_ok(prev, i));
                        if i + 1 < prev.len() {
                            assert(r[i + 1] == prev[i + 1]);
                        }
                        if i > 0 {
                            assert(r[i - 1] == prev[i - 1]);
                        }
                    }
                }
            }
        }
    }
}

/// A slug holds only alphanumeric characters and single hyphens, each hyphen
/// between two alphanumeric characters; it neither starts nor ends with a
/// hyphen and never holds two hyphens in a row.
pub proof fn law_slug_alphabet(s: Seq<char>)
    ensures
        forall|i: int| 0 <= i < slugify_spec(s).len() ==> slug_char_ok(slugify_spec(s), i),
        slugify_spec(s).len() > 0 ==> slugify_spec(s)[0] != '-' && slugify_spec(s).last() != '-',
        forall|i: int| 0 <= i < slugify_spec(s).len() - 1 ==> !(#[trigger] slugify_spec(s)[i] == '-' && slugify_spec(s)[i + 1] == '-'),
{
    let r = slugify_spec(s);
    lemma_slug_chars_shape(str_lowercase(s));
    assert(!char_is_alphanumeric('-'));
    assert forall|i: int| 0 <= i < r.len() - 1 implies !(#[trigger] r[i] == '-' && r[i + 1] == '-') by {
        assert(slug_char_ok(r, i));
    }
}

/// Slugging the prefixes of a slug gives them back, without a trailing hyphen.
proof fn lemma_slug_prefixes(r: Seq<char>, k: int)
    requires
        forall|i: int| 0 <= i < r.len() ==> slug_char_ok(r, i),
        0 <= k <= r.len(),
    ensures
        slug_chars(r.take(k)) == (if k > 0 && r[k - 1] == '-' { r.take(k - 1) } else { r.take(k) }),
    decreases k,
{
    if k > 0 {
        lemma_slug_prefixes(r, k - 1);
        let t = r.take(k);
        assert(t.drop_last() == r.take(k - 1));
        assert(t.last() == r[k - 1]);
        assert(slug_char_ok(r, k - 1));
        assert(!char_is_alphanumeric('-'));
        if k >= 2 {
            assert(t[t.len() - 2] == r[k - 2]);
            assert(slug_char_ok(r, k - 2));
            assert(r.take(k - 2).push(r[k - 2]) == r.take(k - 1));
        }
        if char_is_alphanumeric(r[k - 1]) && k >= 2 && r[k - 2] == '-' {
            assert(r.take(k - 2).push('-').push(r[k - 1]) == r.take(k));
        } else if char_is_alphanumeric(r[k - 1]) {
            assert(r.take(k - 1).push(r[k - 1]) == r.take(k));
        }
    } else {
        assert(r.take(0) == Seq::<char>::empty());
    }
}

/// The slug of a slug's characters is the slug itself.
proof fn lemma_slug_chars_fixed(t: Seq<char>)
    ensures
        slug_chars(slug_chars(t)) == slug_chars(t),
{
    let r = slug_chars(t);
    lemma_slug_chars_shape(t);
    lemma_slug_prefixes(r, r.len() as int);
    assert(r.take(r.len() as int) == r);
    if r.len() > 0 {
        assert(r[r.len() - 1] == r.last());
        assert(!char_is_alphanumeric('-'));
    }
}

/// A slug is its own slug: slugging it again (after lower-casing leaves it
/// as it is) changes nothing.
pub proof fn law_slug_is_its_own_slug(s: Seq<char>)
    ensures
        slug_chars(slugify_spec(s)) == slugify_spec(s),
{
    lemma_slug_chars_fixed(str_lowercase(s));
}

/// An ASCII character that is not an upper-case letter.
pub open spec fn lower_ascii_char(c: char) -> bool {
    (c as u32) < 0x80 && !(0x41 <= c as u32 <= 0x5A)
}

/// The characters of a slug are hyphens or characters of what it was made from.
proof fn lemma_slug_chars_lower_ascii(t: Seq<char>)
    requires
        forall|i: int| 0 <= i < t.len() ==> lower_ascii_char(#[trigger] t[i]),
    ensures
        forall|i: int| 0 <= i < slug_chars(t).len() ==> lower_ascii_char(#[trigger] slug_chars(t)[i]),
    decreases t.len(),
{
    if t.len() > 0 {
        let u = t.drop_last();
        assert forall|i: int| 0 <= i < u.len() implies lower_ascii_char(#[trigger] u[i]) by {
            assert(u[i] == t[i]);
        }
        lemma_slug_chars_lower_ascii(u);
        let prev = slug_chars(u);
        let r = slug_chars(t);
        assert(lower_ascii_char(t[t.len() - 1]));
        assert forall|i: int| 0 <= i < r.len() implies lower_ascii_char(#[trigger] r[i]) by {
            if i < prev.len() {
                assert(r[i] == prev[i]);
            }
        }
    }
}

/// On ASCII text slugging is idempotent: the slug is ASCII, and slugging its
/// lower-cased characters gives it back.
pub proof fn law_slug_idempotent_ascii(s: Seq<char>)
    requires
        is_ascii_text(s),
    ensures
        is_ascii_text(slug_chars(ascii_lower(s))),
        slug_chars(ascii_lower(slug_chars(ascii_lower(s)))) == slug_chars(ascii_lower(s)),
{
    let l = ascii_lower(s);
    assert forall|i: int| 0 <= i < l.len() implies lower_ascii_char(#[trigger] l[i]) by {
        assert(l[i] == ascii_lower_char(s[i]));
        assert((s[i] as u32) < 0x80);
    }
    lemma_slug_chars_lower_ascii(l);
    let r = slug_chars(l);
    assert forall|i: int| 0 <= i < r.len() implies (#[trigger] r[i] as u32) < 0x80 by {
        assert(lower_ascii_char(r[i]));
    }
    assert(ascii_lower(r) =~= r) by {
        assert forall|i: int| 0 <= i < r.len() implies #[trigger] ascii_lower(r)[i] == r[i] by {
            assert(lower_ascii_char(r[i]));
        }
    }
    lemma_slug_chars_fixed(l);
}

/// The characters of `<slug>-<n>`.
pub open spec fn numbered_id(slug: Seq<char>, n: nat) -> Seq<char> {
    slug.push('-') + decimal(n)
}

/// Builds `<slug of name>-<n>`.
fn numbered_slug(name: &str, n: usize) -> (r: String)
    ensures
        r@ == numbered_id(slugify_spec(name@), n as nat),
{
    let mut id = slugify(name);
    id.push('-');
    push_decimal(&mut id, n as u64);
    id
}

/// What `Path::file_name` gives for a path with characters `path`, as a string
/// (`None` where the path ends in `..` or has no final component).
pub uninterp spec fn path_file_name(path: Seq<char>) -> Option<Seq<char>>;

/// Calls `std::path::Path::file_name` and converts the name back to a string.
#[verifier::external_body]
pub(crate) fn file_name(path: &str) -> (r: Option<String>)
    ensures
        opt_chars(r) == path_file_name(path@),
{
    match std::path::Path::new(path).file_name() {
        Some(n) => match n.to_str() {
            Some(s) => Some(s.to_string()),
            None => None,
        },
        None => None,
    }
}

// ── Records ─────────────────────────────────────────────────────────────────

/// A tracked repository as it is persisted.
pub struct RepoRecord {
    pub id: String,
    pub folder_id: String,
    pub path: String,
    pub favorite: bool,
    pub description: String,
    pub last_fetched: Option<String>,
}

/// A record as a value.
pub struct RepoRecordView {
    pub id: Seq<char>,
    pub folder_id: Seq<char>,
    pub path: Seq<char>,
    pub favorite: bool,
    pub description: Seq<char>,
    pub last_fetched: Option<Seq<char>>,
}

impl View for RepoRecord {
    type V = RepoRecordView;

    open spec fn view(&self) -> RepoRecordView {
        RepoRecordView {
            id: self.id@,
            folder_id: self.folder_id@,
            path: self.path@,
            favorite: self.favorite,
            description: self.description@,
            last_fetched: opt_chars(self.last_fetched),
        }
    }
}

impl Clone for RepoRecord {
    fn clone(&self) -> (r: Self)
        ensures
            r == *self,
    {
        RepoRecord {
            id: self.id.clone(),
            folder_id: self.folder_id.clone(),
            path: self.path.clone(),
            favorite: self.favorite,
            description: self.description.clone(),
            last_fetched: clone_opt(&self.last_fetched),
        }
    }
}

/// Everything that is persisted.
pub struct AppData {
    pub folders: Vec<Folder>,
    pub repos: Vec<RepoRecord>,
    pub custom_editors: Vec<Editor>,
}

/// The persisted data as a value.
pub struct AppDataView {
    pub folders: Seq<FolderView>,
    pub repos: Seq<RepoRecordView>,
    pub custom_editors: Seq<EditorView>,
}

pub open spec fn folders_view(s: Seq<Folder>) -> Seq<FolderView> {
    s.map_values(|f: Folder| f@)
}

pub open spec fn records_view(s: Seq<RepoRecord>) -> Seq<RepoRecordView> {
    s.map_values(|r: RepoRecord| r@)
}

pub open spec fn editors_view(s: Seq<Editor>) -> Seq<EditorView> {
    s.map_values(|e: Editor| e@)
}

impl View for AppData {
    type V = AppDataView;

    open spec fn view(&self) -> AppDataView {
        AppDataView {
            folders: folders_view(self.folders@),
            repos: records_view(self.repos@),
            custom_editors: editors_view(self.custom_editors@),
        }
    }
}

impl Default for AppData {
    fn default() -> (r: Self)
        ensures
            r@.folders.len() == 0,
            r@.repos.len() == 0,
            r@.custom_editors.len() == 0,
    {
        AppData { folders: Vec::new(), repos: Vec::new(), custom_editors: Vec::new() }
    }
}

/// The application data together with the directory it is persisted in.
pub struct Store {
    pub data_dir: String,
    pub data: AppData,
}


impl View for Store {
    type V = AppDataView;

    open spec fn view(&self) -> AppDataView {
        self.data@
    }
}

// ── The changes, as functions on the data's view ────────────────────────────

/// Keeps folders whose id is not `id`.
pub open spec fn folder_id_is_not(id: Seq<char>) -> spec_fn(FolderView) -> bool {
    |f: FolderView| f.id != id
}

/// Keeps records that are not in folder `id`.
pub open spec fn record_folder_is_not(id: Seq<char>) -> spec_fn(RepoRecordView) -> bool {
    |r: RepoRecordView| r.folder_id != id
}

/// Keeps records whose id is not `id`.
pub open spec fn record_id_is_not(id: Seq<char>) -> spec_fn(RepoRecordView) -> bool {
    |r: RepoRecordView| r.id != id
}

/// Keeps editors whose id is not `id`.
pub open spec fn editor_id_is_not(id: Seq<char>) -> spec_fn(EditorView) -> bool {
    |e: EditorView| e.id != id
}

/// Selects records with path `path`.
pub open spec fn record_has_path(path: Seq<char>) -> spec_fn(RepoRecordView) -> bool {
    |r: RepoRecordView| r.path == path
}

/// Selects records with id `id`.
pub open spec fn record_has_id(id: Seq<char>) -> spec_fn(RepoRecordView) -> bool {
    |r: RepoRecordView| r.id == id
}

/// A new folder gets the id `<slug of name>-<number of folders>` and is appended.
pub open spec fn add_folder_spec(
    d: AppDataView,
    name: Seq<char>,
    icon: Seq<char>,
    color: Seq<char>,
) -> AppDataView {
    AppDataView {
        folders: d.folders.push(
            FolderView { id: numbered_id(slugify_spec(name), d.folders.len()), name, icon, color },
        ),
        ..d
    }
}

/// Removing a folder removes it and every repository record filed in it.
pub open spec fn remove_folder_spec(d: AppDataView, id: Seq<char>) -> AppDataView {
    AppDataView {
        folders: d.folders.filter(folder_id_is_not(id)),
        repos: d.repos.filter(record_folder_is_not(id)),
        ..d
    }
}

/// The name a new record is derived from: the path's final component, or "repo".
pub open spec fn repo_name_for(path: Seq<char>) -> Seq<char> {
    match path_file_name(path) {
        Some(n) => n,
        None => "repo"@,
    }
}

/// Adding a path that is already tracked gives back its first record and
/// changes nothing; otherwise a record `<slug of name>-<number of records>`,
/// not a favorite and never fetched, is appended and given back.
pub open spec fn add_repo_spec(
    d: AppDataView,
    folder_id: Seq<char>,
    path: Seq<char>,
    description: Seq<char>,
) -> (AppDataView, RepoRecordView) {
    match first_index(d.repos, record_has_path(path)) {
        Some(i) => (d, d.repos[i]),
        None => {
            let rec = RepoRecordView {
                id: numbered_id(slugify_spec(repo_name_for(path)), d.repos.len()),
                folder_id,
                path,
                favorite: false,
                description,
                last_fetched: None,
            };
            (AppDataView { repos: d.repos.push(rec), ..d }, rec)
        },
    }
}

/// Removing a repository removes every record with that id.
pub open spec fn remove_repo_spec(d: AppDataView, id: Seq<char>) -> AppDataView {
    AppDataView { repos: d.repos.filter(record_id_is_not(id)), ..d }
}

/// Flips the favorite flag of the first record with id `id` and gives its new
/// value; with no such record nothing changes and the answer is `false`.
pub open spec fn toggle_favorite_spec(d: AppDataView, id: Seq<char>) -> (AppDataView, bool) {
    match first_index(d.repos, record_has_id(id)) {
        Some(i) => {
            let r = d.repos[i];
            (
                AppDataView {
                    repos: d.repos.update(i, RepoRecordView { favorite: !r.favorite, ..r }),
                    ..d
                },
                !r.favorite,
            )
        },
        None => (d, false),
    }
}

/// Records `when` as the last fetch of the first record with path `path`.
pub open spec fn set_last_fetched_spec(d: AppDataView, path: Seq<char>, when: Seq<char>) -> AppDataView {
    match first_index(d.repos, record_has_path(path)) {
        Some(i) => AppDataView {
            repos: d.repos.update(i, RepoRecordView { last_fetched: Some(when), ..d.repos[i] }),
            ..d
        },
        None => d,
    }
}

/// Replaces the description of the first record with id `id`.
pub open spec fn update_description_spec(d: AppDataView, id: Seq<char>, description: Seq<char>) -> AppDataView {
    match first_index(d.repos, record_has_id(id)) {
        Some(i) => AppDataView {
            repos: d.repos.update(i, RepoRecordView { description, ..d.repos[i] }),
            ..d
        },
        None => d,
    }
}

/// Appends a custom editor.
pub open spec fn add_editor_spec(d: AppDataView, e: EditorView) -> AppDataView {
    AppDataView { custom_editors: d.custom_editors.push(e), ..d }
}

/// Removes every custom editor with id `id`.
pub open spec fn remove_editor_spec(d: AppDataView, id: Seq<char>) -> AppDataView {
    AppDataView { custom_editors: d.custom_editors.filter(editor_id_is_not(id)), ..d }
}


// ── The changes, executed ───────────────────────────────────────────────────

impl Store {
    /// A store for `data`, persisted under `data_dir`.
    pub fn with_data(data_dir: String, data: AppData) -> (r: Store)
        ensures
            r.data_dir == data_dir,
            r@ == data@,
    {
        Store { data_dir, data }
    }

    /// The index of the first record with path `path`.
    pub fn find_repo_by_path(&self, path: &str) -> (r: Option<usize>)
        ensures
            match r {
                Some(i) => {
                    &&& first_index(self@.repos, record_has_path(path@)) == Some(i as int)
                    &&& is_first_index(self@.repos, record_has_path(path@), i as int)
                    &&& i < self.data.repos.len()
                },
                None => first_index(self@.repos, record_has_path(path@)) is None,
            },
    {
        let n = self.data.repos.len();
        let mut i: usize = 0;
        while i < n
            invariant
                i <= n,
                n == self.data.repos.len(),
                forall|k: int| 0 <= k < i ==> !record_has_path(path@)(#[trigger] self@.repos[k]),
            decreases n - i,
        {
            if str_eq(self.data.repos[i].path.as_str(), path) {
                proof {
                    lemma_first_index_is(self@.repos, record_has_path(path@), i as int);
                }
                return Some(i);
            }
            i += 1;
        }
        proof {
            lemma_first_index_none(self@.repos, record_has_path(path@));
        }
        None
    }

    /// The index of the first record with id `id`.
    pub fn find_repo_by_id(&self, id: &str) -> (r: Option<usize>)
        ensures
            match r {
                Some(i) => {
                    &&& first_index(self@.repos, record_has_id(id@)) == Some(i as int)
                    &&& is_first_index(self@.repos, record_has_id(id@), i as int)
                    &&& i < self.data.repos.len()
                },
                None => first_index(self@.repos, record_has_id(id@)) is None,
            },
    {
        let n = self.data.repos.len();
        let mut i: usize = 0;
        while i < n
            invariant
                i <= n,
                n == self.data.repos.len(),
                forall|k: int| 0 <= k < i ==> !record_has_id(id@)(#[trigger] self@.repos[k]),
            decreases n - i,
        {
            if str_eq(self.data.repos[i].id.as_str(), id) {
                proof {
                    lemma_first_index_is(self@.repos, record_has_id(id@), i as int);
                }
                return Some(i);
            }
            i += 1;
        }
        proof {
            lemma_first_index_none(self@.repos, record_has_id(id@));
        }
        None
    }

    // ── Folders ─────────────────────────────────────────────────────────────

    /// Creates a folder with id `<slug of name>-<number of folders>`, appends it
    /// and returns it.
    pub fn add_folder(&mut self, name: String, icon: String, color: String) -> (r: Folder)
        ensures
            final(self)@ == add_folder_spec(old(self)@, name@, icon@, color@),
            r@ == final(self)@.folders.last(),
            final(self).data_dir == old(self).data_dir,
    {
        let id = numbered_slug(name.as_str(), self.data.folders.len());
        let folder = Folder { id, name, icon, color };
        self.data.folders.push(folder.clone());
        folder
    }

    /// Removes the folder `folder_id` and every repository filed in it.
    pub fn remove_folder(&mut self, folder_id: &str)
        ensures
            final(self)@ == remove_folder_spec(old(self)@, folder_id@),
            final(self).data_dir == old(self).data_dir,
    {
        let ghost p = folder_id_is_not(folder_id@);
        let mut kept: Vec<Folder> = Vec::new();
        let n = self.data.folders.len();
        let mut i: usize = 0;
        while i < n
            invariant
                i <= n,
                n == self.data.folders.len(),
                self.data.folders == old(self).data.folders,
                p == folder_id_is_not(folder_id@),
                folders_view(kept@) == folders_view(self.data.folders@.take(i as int)).filter(p),
            decreases n - i,
        {
            let f = &self.data.folders[i];
            assert(self.data.folders@.take(i + 1) == self.data.folders@.take(i as int).push(*f));
            if !str_eq(f.id.as_str(), folder_id) {
                kept.push(f.clone());
            }
            i += 1;
        }
        assert(self.data.folders@.take(n as int) == self.data.folders@);
        self.data.folders = kept;

        let ghost q = record_folder_is_not(folder_id@);
        let mut kept_repos: Vec<RepoRecord> = Vec::new();
        let m = self.data.repos.len();
        let mut j: usize = 0;
        while j < m
            invariant
                j <= m,
                m == self.data.repos.len(),
                self.data.repos == old(self).data.repos,
                q == record_folder_is_not(folder_id@),
                records_view(kept_repos@) == records_view(self.data.repos@.take(j as int)).filter(q),
            decreases m - j,
        {
            let r = &self.data.repos[j];
            assert(self.data.repos@.take(j + 1) == self.data.repos@.take(j as int).push(*r));
            if !str_eq(r.folder_id.as_str(), folder_id) {
                kept_repos.push(r.clone());
            }
            j += 1;
        }
        assert(self.data.repos@.take(m as int) == self.data.repos@);
        self.data.repos = kept_repos;
    }

    // ── Repositories ────────────────────────────────────────────────────────

    /// Tracks `path` in folder `folder_id`. A path that is already tracked
    /// gives back its record unchanged; otherwise a new record is appended with
    /// id `<slug of the path's final component, or "repo">-<number of records>`.
    pub fn add_repo(&mut self, folder_id: String, path: String, description: String) -> (r: Option<RepoRecord>)
        ensures
            r is Some,
            r.unwrap()@ == add_repo_spec(old(self)@, folder_id@, path@, description@).1,
            final(self)@ == add_repo_spec(old(self)@, folder_id@, path@, description@).0,
            final(self).data_dir == old(self).data_dir,
    {
        match self.find_repo_by_path(path.as_str()) {
            Some(i) => {
                return Some(self.data.repos[i].clone());
            },
            None => {},
        }
        let name = match file_name(path.as_str()) {
            Some(n) => n,
            None => string_from("repo"),
        };
        let id = numbered_slug(name.as_str(), self.data.repos.len());
        let record = RepoRecord {
            id,
            folder_id,
            path,
            favorite: false,
            description,
            last_fetched: None,
        };
        self.data.repos.push(record.clone());
        Some(record)
    }

    /// Stops tracking every record with id `repo_id`.
    pub fn remove_repo(&mut self, repo_id: &str)
        ensures
            final(self)@ == remove_repo_spec(old(self)@, repo_id@),
            final(self).data_dir == old(self).data_dir,
    {
        let ghost q = record_id_is_not(repo_id@);
        let mut kept: Vec<RepoRecord> = Vec::new();
        let m = self.data.repos.len();
        let mut j: usize = 0;
        while j < m
            invariant
                j <= m,
                m == self.data.repos.len(),
                self.data.repos == old(self).data.repos,
                q == record_id_is_not(repo_id@),
                records_view(kept@) == records_view(self.data.repos@.take(j as int)).filter(q),
            decreases m - j,
        {
            let r = &self.data.repos[j];
            assert(self.data.repos@.take(j + 1) == self.data.repos@.take(j as int).push(*r));
            if !str_eq(r.id.as_str(), repo_id) {
                kept.push(r.clone());
            }
            j += 1;
        }
        assert(self.data.repos@.take(m as int) == self.data.repos@);
        self.data.repos = kept;
    }

    /// Flips the favorite flag of the first record with id `repo_id` and
    /// returns its new value; returns `false` when there is no such record.
    pub fn toggle_favorite(&mut self, repo_id: &str) -> (r: bool)
        ensures
            final(self)@ == toggle_favorite_spec(old(self)@, repo_id@).0,
            r == toggle_favorite_spec(old(self)@, repo_id@).1,
            final(self).data_dir == old(self).data_dir,
    {
        match self.find_repo_by_id(repo_id) {
            Some(i) => {
                let mut rec = self.data.repos[i].clone();
                rec.favorite = !rec.favorite;
                let fav = rec.favorite;
                self.data.repos.set(i, rec);
                assert(self@.repos =~= toggle_favorite_spec(old(self)@, repo_id@).0.repos);
                fav
            },
            None => false,
        }
    }

    /// Records `when` as the last fetch time of the first record with path `path`.
    pub fn set_last_fetched(&mut self, path: &str, when: String)
        ensures
            final(self)@ == set_last_fetched_spec(old(self)@, path@, when@),
            final(self).data_dir == old(self).data_dir,
    {
        match self.find_repo_by_path(path) {
            Some(i) => {
                let mut rec = self.data.repos[i].clone();
                rec.last_fetched = Some(when);
                self.data.repos.set(i, rec);
                assert(self@.repos =~= set_last_fetched_spec(old(self)@, path@, when@).repos);
            },
            None => {},
        }
    }

    /// Records the current time (RFC 3339, UTC) as the last fetch time of the
    /// first record with path `path`.
    pub fn update_last_fetched(&mut self, path: &str)
        ensures
            exists|when: Seq<char>| final(self)@ == set_last_fetched_spec(old(self)@, path@, when),
            final(self).data_dir == old(self).data_dir,
    {
        let now = crate::git::now_rfc3339();
        self.set_last_fetched(path, now);
    }

    /// Replaces the description of the first record with id `repo_id`.
    pub fn update_description(&mut self, repo_id: &str, description: String)
        ensures
            final(self)@ == update_description_spec(old(self)@, repo_id@, description@),
            final(self).data_dir == old(self).data_dir,
    {
        match self.find_repo_by_id(repo_id) {
            Some(i) => {
                let mut rec = self.data.repos[i].clone();
                rec.description = description;
                self.data.repos.set(i, rec);
                assert(self@.repos =~= update_description_spec(old(self)@, repo_id@, description@).repos);
            },
            None => {},
        }
    }

    // ── Editors ─────────────────────────────────────────────────────────────

    /// Appends a custom editor.
    pub fn add_editor(&mut self, editor: Editor)
        ensures
            final(self)@ == add_editor_spec(old(self)@, editor@),
            final(self).data_dir == old(self).data_dir,
    {
        self.data.custom_editors.push(editor);
    }

    /// Removes every custom editor with id `editor_id`.
    pub fn remove_editor(&mut self, editor_id: &str)
        ensures
            final(self)@ == remove_editor_spec(old(self)@, editor_id@),
            final(self).data_dir == old(self).data_dir,
    {
        let ghost q = editor_id_is_not(editor_id@);
        let mut kept: Vec<Editor> = Vec::new();
        let m = self.data.custom_editors.len();
        let mut j: usize = 0;
        while j < m
            invariant
                j <= m,
                m == self.data.custom_editors.len(),
                self.data.custom_editors == old(self).data.custom_editors,
                q == editor_id_is_not(editor_id@),
                editors_view(kept@) == editors_view(self.data.custom_editors@.take(j as int)).filter(q),
            decreases m - j,
        {
            let e = &self.data.custom_editors[j];
            assert(self.data.custom_editors@.take(j + 1) == self.data.custom_editors@.take(j as int).push(*e));
            if !str_eq(e.id.as_str(), editor_id) {
                kept.push(e.clone());
            }
            j += 1;
        }
        assert(self.data.custom_editors@.take(m as int) == self.data.custom_editors@);
        self.data.custom_editors = kept;
    }
}


// ── Laws ────────────────────────────────────────────────────────────────────

/// Filtering with a predicate that every element satisfies keeps the sequence.
proof fn lemma_filter_keeps_all<A>(s: Seq<A>, p: spec_fn(A) -> bool)
    requires
        forall|i: int| 0 <= i < s.len() ==> p(#[trigger] s[i]),
    ensures
        s.filter(p) == s,
    decreases s.len(),
{
    if s.len() > 0 {
        lemma_filter_keeps_all(s.drop_last(), p);
        assert(s.drop_last().push(s.last()) == s);
    }
}

/// Adding a path that is already tracked changes nothing: a second
/// `add_repo` of the same path leaves the data as the first left it and gives
/// back the record that the first gave back, whatever folder or description
/// it names.
pub proof fn law_add_repo_idempotent(
    d: AppDataView,
    folder_id: Seq<char>,
    path: Seq<char>,
    description: Seq<char>,
    other_folder_id: Seq<char>,
    other_description: Seq<char>,
)
    ensures
        ({
            let (d1, r1) = add_repo_spec(d, folder_id, path, description);
            add_repo_spec(d1, other_folder_id, path, other_description) == (d1, r1)
        }),
{
    let p = record_has_path(path);
    lemma_first_index(d.repos, p);
    let (d1, r1) = add_repo_spec(d, folder_id, path, description);
    if first_index(d.repos, p) is None {
        let n = d.repos.len() as int;
        assert(d1.repos[n] == r1);
        assert forall|k: int| 0 <= k < n implies !p(#[trigger] d1.repos[k]) by {
            assert(d1.repos[k] == d.repos[k]);
        }
        lemma_first_index_is(d1.repos, p, n);
    }
}

/// No two records track the same path.
pub open spec fn paths_distinct(repos: Seq<RepoRecordView>) -> bool {
    forall|i: int, j: int| 0 <= i < j < repos.len() ==> repos[i].path != repos[j].path
}

/// Adding a repository keeps the tracked paths distinct: afterwards exactly
/// one record has the added path, and it is the record given back.
pub proof fn law_add_repo_keeps_paths_distinct(
    d: AppDataView,
    folder_id: Seq<char>,
    path: Seq<char>,
    description: Seq<char>,
)
    requires
        paths_distinct(d.repos),
    ensures
        ({
            let (d1, r1) = add_repo_spec(d, folder_id, path, description);
            &&& paths_distinct(d1.repos)
            &&& exists|i: int| 0 <= i < d1.repos.len() && #[trigger] d1.repos[i] == r1 && r1.path == path
            &&& forall|i: int| 0 <= i < d1.repos.len() && (#[trigger] d1.repos[i]).path == path ==> d1.repos[i] == r1
        }),
{
    let p = record_has_path(path);
    lemma_first_index(d.repos, p);
    let (d1, r1) = add_repo_spec(d, folder_id, path, description);
    match first_index(d.repos, p) {
        Some(i) => {
            assert(d1.repos[i] == r1);
            assert forall|j: int| 0 <= j < d1.repos.len() && (#[trigger] d1.repos[j]).path == path implies d1.repos[j] == r1 by {
                if j != i {
                    if j < i {
                        assert(d.repos[j].path != d.repos[i].path);
                    } else {
                        assert(d.repos[i].path != d.repos[j].path);
                    }
                }
            }
        },
        None => {
            let n = d.repos.len() as int;
            assert(d1.repos[n] == r1);
            assert forall|a: int, b: int| 0 <= a < b < d1.repos.len() implies d1.repos[a].path != d1.repos[b].path by {
                assert(d1.repos[a] == d.repos[a]);
                if b < n {
                    assert(d1.repos[b] == d.repos[b]);
                } else {
                    assert(!p(d.repos[a]));
                }
            }
            assert forall|j: int| 0 <= j < d1.repos.len() && (#[trigger] d1.repos[j]).path == path implies d1.repos[j] == r1 by {
                if j < n {
                    assert(d1.repos[j] == d.repos[j]);
                    assert(!p(d.repos[j]));
                }
            }
        },
    }
}

/// After `add_repo`, the first record with the added path is the record it
/// gave back.
pub proof fn law_add_repo_then_find(
    d: AppDataView,
    folder_id: Seq<char>,
    path: Seq<char>,
    description: Seq<char>,
)
    ensures
        ({
            let (d1, r1) = add_repo_spec(d, folder_id, path, description);
            &&& first_index(d1.repos, record_has_path(path)) is Some
            &&& d1.repos[first_index(d1.repos, record_has_path(path))->0] == r1
            &&& r1.path == path
        }),
{
    law_add_repo_idempotent(d, folder_id, path, description, folder_id, description);
    let p = record_has_path(path);
    lemma_first_index(d.repos, p);
    let (d1, r1) = add_repo_spec(d, folder_id, path, description);
    lemma_first_index(d1.repos, p);
}

/// Removing a folder leaves no folder with that id and no repository filed in
/// it, and keeps every other folder and repository record, and the editors.
pub proof fn law_remove_folder_cascades(d: AppDataView, id: Seq<char>)
    ensures
        ({
            let d1 = remove_folder_spec(d, id);
            &&& forall|i: int| 0 <= i < d1.folders.len() ==> #[trigger] d1.folders[i].id != id
            &&& forall|i: int| 0 <= i < d1.repos.len() ==> #[trigger] d1.repos[i].folder_id != id
            &&& forall|f: FolderView| #[trigger] d.folders.contains(f) && f.id != id ==> d1.folders.contains(f)
            &&& forall|r: RepoRecordView| #[trigger] d.repos.contains(r) && r.folder_id != id ==> d1.repos.contains(r)
            &&& d1.custom_editors == d.custom_editors
        }),
{
    let d1 = remove_folder_spec(d, id);
    assert forall|i: int| 0 <= i < d1.folders.len() implies #[trigger] d1.folders[i].id != id by {
        d.folders.lemma_filter_pred(folder_id_is_not(id), i);
    }
    assert forall|i: int| 0 <= i < d1.repos.len() implies #[trigger] d1.repos[i].folder_id != id by {
        d.repos.lemma_filter_pred(record_folder_is_not(id), i);
    }
    assert forall|f: FolderView| #[trigger] d.folders.contains(f) && f.id != id implies d1.folders.contains(f) by {
        d.folders.lemma_filter_contains_rev(folder_id_is_not(id), f);
    }
    assert forall|r: RepoRecordView| #[trigger] d.repos.contains(r) && r.folder_id != id implies d1.repos.contains(r) by {
        d.repos.lemma_filter_contains_rev(record_folder_is_not(id), r);
    }
}

/// Removing a repository leaves no record with that id and keeps every other
/// record, the folders and the editors.
pub proof fn law_remove_repo_removes(d: AppDataView, id: Seq<char>)
    ensures
        ({
            let d1 = remove_repo_spec(d, id);
            &&& forall|i: int| 0 <= i < d1.repos.len() ==> #[trigger] d1.repos[i].id != id
            &&& forall|r: RepoRecordView| #[trigger] d.repos.contains(r) && r.id != id ==> d1.repos.contains(r)
            &&& d1.folders == d.folders
            &&& d1.custom_editors == d.custom_editors
        }),
{
    let d1 = remove_repo_spec(d, id);
    assert forall|i: int| 0 <= i < d1.repos.len() implies #[trigger] d1.repos[i].id != id by {
        d.repos.lemma_filter_pred(record_id_is_not(id), i);
    }
    assert forall|r: RepoRecordView| #[trigger] d.repos.contains(r) && r.id != id implies d1.repos.contains(r) by {
        d.repos.lemma_filter_contains_rev(record_id_is_not(id), r);
    }
}

/// Toggling a favorite twice restores the data, and the second toggle answers
/// the flag the record had at first.
pub proof fn law_toggle_favorite_twice(d: AppDataView, id: Seq<char>)
    ensures
        ({
            let (d1, b1) = toggle_favorite_spec(d, id);
            let (d2, b2) = toggle_favorite_spec(d1, id);
            &&& d2 == d
            &&& (first_index(d.repos, record_has_id(id)) matches Some(i) ==> b2 == d.repos[i].favorite && b1 == !b2)
        }),
{
    let p = record_has_id(id);
    lemma_first_index(d.repos, p);
    let (d1, b1) = toggle_favorite_spec(d, id);
    if let Some(i) = first_index(d.repos, p) {
        assert forall|k: int| 0 <= k < i implies !p(#[trigger] d1.repos[k]) by {
            assert(d1.repos[k] == d.repos[k]);
        }
        lemma_first_index_is(d1.repos, p, i);
        let (d2, b2) = toggle_favorite_spec(d1, id);
        assert(d2.repos =~= d.repos);
    }
}

/// After `update_description`, the first record with that id carries the new
/// description; everything else is unchanged.
pub proof fn law_update_description_then_read(d: AppDataView, id: Seq<char>, description: Seq<char>)
    ensures
        ({
            let d1 = update_description_spec(d, id, description);
            &&& first_index(d1.repos, record_has_id(id)) == first_index(d.repos, record_has_id(id))
            &&& (first_index(d.repos, record_has_id(id)) matches Some(i) ==> {
                &&& d1.repos[i].description == description
                &&& d1.repos[i].id == d.repos[i].id
                &&& forall|k: int| 0 <= k < d.repos.len() && k != i ==> #[trigger] d1.repos[k] == d.repos[k]
            })
            &&& d1.repos.len() == d.repos.len()
            &&& d1.folders == d.folders
            &&& d1.custom_editors == d.custom_editors
        }),
{
    let p = record_has_id(id);
    lemma_first_index(d.repos, p);
    let d1 = update_description_spec(d, id, description);
    if let Some(i) = first_index(d.repos, p) {
        assert forall|k: int| 0 <= k < i implies !p(#[trigger] d1.repos[k]) by {
            assert(d1.repos[k] == d.repos[k]);
        }
        lemma_first_index_is(d1.repos, p, i);
    }
}

/// Removing an editor undoes adding it, when no editor had its id before.
pub proof fn law_remove_editor_undoes_add(d: AppDataView, e: EditorView)
    requires
        forall|i: int| 0 <= i < d.custom_editors.len() ==> #[trigger] d.custom_editors[i].id != e.id,
    ensures
        remove_editor_spec(add_editor_spec(d, e), e.id) == d,
{
    let p = editor_id_is_not(e.id);
    lemma_filter_keeps_all(d.custom_editors, p);
    assert(d.custom_editors.push(e).filter(p) == d.custom_editors.filter(p));
}

} // verus!
