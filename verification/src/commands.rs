//! What the commands compute from the store and from a repository's Git data:
//! summaries, details, the activity feed, and the plans for opening and
//! syncing repositories.

use vstd::prelude::*;
use crate::git::{describe_remote, get_contributors, remote_display_spec, remote_host_spec, total_additions, total_deletions, by_author, describes_author, handle_spec};
use crate::models::{opt_chars, ActivityItem, Branch, Commit, Editor, EditorView, Language, RepoDetail, RepoSummary, SyncResult, WorkingTreeStatus};
use crate::order::{is_stable_order, newest_first_key, opt_vec_chars, permuted_prefix, stable_order, NewestFirst, SortKey};
use crate::search::{first_index, lemma_first_index_append, lemma_first_index_is, lemma_first_index_none};
use crate::store::{file_name, path_file_name, record_has_path, RepoRecord, Store};
use crate::text::{push_all, split_words, string_from, trim, trim_spec, words_of, words_view, Separator};

verus! {

/// The state the commands share: the store of folders, repositories and
/// editors.
pub struct AppState {
    pub store: Store,
}

// ── Summaries ───────────────────────────────────────────────────────────────

/// What Git tells about a tracked repository.
pub struct RepoFacts {
    /// The URL of `origin`, if the repository and that remote could be read.
    pub remote_url: Option<String>,
    pub default_branch: String,
    pub branch: String,
    pub last_commit_at: Option<String>,
    pub languages: Vec<Language>,
    pub status: WorkingTreeStatus,
}

/// The name shown for a record: its path's final component, or its id.
pub open spec fn summary_name(record: RepoRecord) -> Seq<char> {
    match path_file_name(record.path@) {
        Some(n) => n,
        None => record.id@,
    }
}

/// A repository summary: the record's fields, its name, and the Git facts,
/// with the remote shown and classified (both empty without a remote).
pub fn build_summary(record: &RepoRecord, facts: RepoFacts) -> (r: RepoSummary)
    ensures
        r.id == record.id,
        r.name@ == summary_name(*record),
        r.folder_id == record.folder_id,
        r.path == record.path,
        r.description == record.description,
        r.remote@ == (match facts.remote_url {
            Some(u) => remote_display_spec(u@),
            None => Seq::empty(),
        }),
        r.remote_host@ == (match facts.remote_url {
            Some(u) => remote_host_spec(u@),
            None => Seq::empty(),
        }),
        r.default_branch == facts.default_branch,
        r.branch == facts.branch,
        r.favorite == record.favorite,
        r.last_fetched == record.last_fetched,
        r.last_commit_at == facts.last_commit_at,
        r.languages == facts.languages,
        r.status == facts.status,
{
    let name = match file_name(record.path.as_str()) {
        Some(n) => n,
        None => record.id.clone(),
    };
    let (remote, remote_host) = match &facts.remote_url {
        Some(u) => describe_remote(u.as_str()),
        None => (String::new(), String::new()),
    };
    RepoSummary {
        id: record.id.clone(),
        name,
        folder_id: record.folder_id.clone(),
        path: record.path.clone(),
        description: record.description.clone(),
        remote,
        remote_host,
        default_branch: facts.default_branch,
        branch: facts.branch,
        favorite: record.favorite,
        last_fetched: crate::models::clone_opt(&record.last_fetched),
        last_commit_at: facts.last_commit_at,
        languages: facts.languages,
        status: facts.status,
    }
}


/// Selects records filed in folder `id`.
pub open spec fn record_in_folder(id: Seq<char>) -> spec_fn(RepoRecord) -> bool {
    |r: RepoRecord| r.folder_id@ == id
}

/// The records filed in folder `folder_id`, in order.
pub fn repos_in_folder(store: &Store, folder_id: &str) -> (r: Vec<RepoRecord>)
    ensures
        r@ == store.data.repos@.filter(record_in_folder(folder_id@)),
{
    let ghost p = record_in_folder(folder_id@);
    let repos = &store.data.repos;
    let mut r: Vec<RepoRecord> = Vec::new();
    let mut i: usize = 0;
    while i < repos.len()
        invariant
            i <= repos.len(),
            p == record_in_folder(folder_id@),
            r@ == repos@.take(i as int).filter(p),
        decreases repos.len() - i,
    {
        assert(repos@.take(i + 1) == repos@.take(i as int).push(repos@[i as int]));
        proof {
            repos@.take(i as int).lemma_filter_push(repos@[i as int], p);
        }
        if crate::text::str_eq(repos[i].folder_id.as_str(), folder_id) {
            r.push(repos[i].clone());
        }
        i += 1;
    }
    assert(repos@.take(repos.len() as int) == repos@);
    r
}

// ── Details ─────────────────────────────────────────────────────────────────

/// The per-author sums of a commit list fit the 32-bit counters.
pub open spec fn author_totals_fit(commits: Seq<Commit>) -> bool {
    &&& commits.len() <= u32::MAX
    &&& forall|a: Seq<char>| total_additions(#[trigger] commits.filter(by_author(a))) <= u32::MAX
    &&& forall|a: Seq<char>| total_deletions(#[trigger] commits.filter(by_author(a))) <= u32::MAX
}

/// A repository's detail: its summary, branches, commits, README, and the
/// contributors of those commits.
pub fn assemble_detail(summary: RepoSummary, branches: Vec<Branch>, commits: Vec<Commit>, readme: String) -> (r: RepoDetail)
    requires
        author_totals_fit(commits@),
    ensures
        r.summary == summary,
        r.branches == branches,
        r.commits == commits,
        r.readme == readme,
        forall|i: int| 0 <= i < r.contributors.len() ==> describes_author(#[trigger] r.contributors@[i], commits@),
        forall|i: int| 0 <= i < r.contributors.len() ==> (#[trigger] r.contributors@[i]).handle@ == handle_spec(r.contributors@[i].name@),
        forall|i: int, j: int| 0 <= i < j < r.contributors.len() ==> r.contributors@[i].name@ != r.contributors@[j].name@,
        forall|k: int| 0 <= k < commits.len() ==> exists|i: int|
            0 <= i < r.contributors.len() && (#[trigger] r.contributors@[i]).name@ == (#[trigger] commits@[k]).author@,
        forall|i: int, j: int| 0 <= i < j < r.contributors.len() ==> r.contributors@[i].commits >= r.contributors@[j].commits,
        crate::git::commits_total(r.contributors@) == commits.len(),
        crate::git::additions_total(r.contributors@) == total_additions(commits@),
        crate::git::deletions_total(r.contributors@) == total_deletions(commits@),
{
    let contributors = get_contributors(&commits);
    RepoDetail { summary, branches, commits, contributors, readme }
}

// ── Activity ────────────────────────────────────────────────────────────────

/// The newest commits of one repository.
pub struct RepoCommits {
    pub repo_id: String,
    pub repo_name: String,
    pub commits: Vec<Commit>,
}

/// How many commits each repository contributes to the feed.
pub const ACTIVITY_PER_REPO: usize = 15;

/// How many entries the feed keeps.
pub const ACTIVITY_LIMIT: usize = 150;

/// A feed entry for commit `c` of repository `b`.
pub open spec fn activity_item(b: RepoCommits, c: Commit) -> ActivityItem {
    ActivityItem {
        repo_id: b.repo_id,
        repo_name: b.repo_name,
        hash: c.hash,
        msg: c.msg,
        author: c.author,
        date: c.date,
        additions: c.additions,
        deletions: c.deletions,
    }
}

/// The feed entries of one repository: its first fifteen commits.
pub open spec fn repo_activity(b: RepoCommits) -> Seq<ActivityItem> {
    let n: int = if b.commits.len() < ACTIVITY_PER_REPO { b.commits.len() as int } else { ACTIVITY_PER_REPO as int };
    Seq::new(n as nat, |i: int| activity_item(b, b.commits@[i]))
}

/// The feed entries of all repositories, repository after repository.
pub open spec fn all_activity(bs: Seq<RepoCommits>) -> Seq<ActivityItem>
    decreases bs.len(),
{
    if bs.len() == 0 {
        seq![]
    } else {
        all_activity(bs.drop_last()) + repo_activity(bs.last())
    }
}

/// `keys` are the date keys of `items`.
pub open spec fn date_keys_of(keys: Seq<NewestFirst>, items: Seq<ActivityItem>) -> bool {
    &&& keys.len() == items.len()
    &&& forall|i: int| 0 <= i < keys.len() ==> opt_vec_chars(#[trigger] keys[i].text) == opt_chars(items[i].date)
}

/// `r` is the activity feed of `bs`: all entries, newest first (entries with
/// equal dates in their original order, undated ones last), at most 150.
pub open spec fn is_activity_feed(r: Seq<ActivityItem>, bs: Seq<RepoCommits>, keys: Seq<NewestFirst>, perm: Seq<usize>) -> bool {
    &&& date_keys_of(keys, all_activity(bs))
    &&& is_stable_order(keys, perm)
    &&& r == permuted_prefix(all_activity(bs), perm, ACTIVITY_LIMIT as nat)
}

/// The activity feed is ordered by the whole date text of its entries,
/// newest first: of any two entries, the later one's date is not after the
/// earlier one's, and undated entries come last.
pub proof fn law_activity_newest_first(r: Seq<ActivityItem>, bs: Seq<RepoCommits>, keys: Seq<NewestFirst>, perm: Seq<usize>)
    requires
        is_activity_feed(r, bs, keys, perm),
    ensures
        forall|i: int, j: int| #![trigger r[i], r[j]] 0 <= i < j < r.len() ==> crate::order::opt_chars_le(
            opt_chars(r[j].date),
            opt_chars(r[i].date),
        ),
{
    let all = all_activity(bs);
    assert forall|i: int, j: int| #![trigger r[i], r[j]] 0 <= i < j < r.len() implies crate::order::opt_chars_le(
        opt_chars(r[j].date),
        opt_chars(r[i].date),
    ) by {
        let a = perm[i] as int;
        let b = perm[j] as int;
        assert(r[i] == all[a]);
        assert(r[j] == all[b]);
        assert(keys[a].key_le(&keys[b]));
        assert(opt_vec_chars(keys[a].text) == opt_chars(all[a].date));
        assert(opt_vec_chars(keys[b].text) == opt_chars(all[b].date));
    }
}

/// How many entries the repositories offer the feed: up to fifteen each.
pub open spec fn offered_entries(bs: Seq<RepoCommits>) -> nat
    decreases bs.len(),
{
    if bs.len() == 0 {
        0
    } else {
        offered_entries(bs.drop_last()) + (if bs.last().commits.len() < 15 { bs.last().commits.len() as nat } else { 15nat })
    }
}

/// Entry `it` is commit `k` of repository `b`, one of its first fifteen.
pub open spec fn is_entry_of(it: ActivityItem, b: RepoCommits, k: int) -> bool {
    &&& 0 <= k < b.commits.len()
    &&& k < 15
    &&& it.repo_id == b.repo_id
    &&& it.repo_name == b.repo_name
    &&& it.hash == b.commits@[k].hash
    &&& it.msg == b.commits@[k].msg
    &&& it.author == b.commits@[k].author
    &&& it.date == b.commits@[k].date
    &&& it.additions == b.commits@[k].additions
    &&& it.deletions == b.commits@[k].deletions
}

/// `it` is one of the first fifteen commits of some repository of `bs`.
pub open spec fn from_some_repo(it: ActivityItem, bs: Seq<RepoCommits>) -> bool {
    exists|b: int, k: int| #![trigger is_entry_of(it, bs[b], k)] 0 <= b < bs.len() && is_entry_of(it, bs[b], k)
}

/// The candidate entries are each one of the first fifteen commits of some
/// repository, and there are as many as the repositories offer.
proof fn lemma_all_activity(bs: Seq<RepoCommits>)
    ensures
        all_activity(bs).len() == offered_entries(bs),
        forall|i: int| 0 <= i < all_activity(bs).len() ==> from_some_repo(#[trigger] all_activity(bs)[i], bs),
    decreases bs.len(),
{
    if bs.len() > 0 {
        let t = bs.drop_last();
        lemma_all_activity(t);
        let prev = all_activity(t);
        let last = repo_activity(bs.last());
        let all = all_activity(bs);
        assert(all == prev + last);
        assert forall|i: int| 0 <= i < all.len() implies from_some_repo(#[trigger] all[i], bs) by {
            if i < prev.len() {
                assert(all[i] == prev[i]);
                assert(from_some_repo(prev[i], t));
                let (b, k) = choose|b: int, k: int| 0 <= b < t.len() && is_entry_of(prev[i], t[b], k);
                assert(bs[b] == t[b]);
                assert(is_entry_of(all[i], bs[b], k));
            } else {
                let k = i - prev.len();
                assert(all[i] == last[k]);
                assert(is_entry_of(all[i], bs[bs.len() - 1], k));
            }
        }
    }
}

/// The feed holds at most 150 entries, all of them if the repositories offer
/// fewer, and each entry is one of the first fifteen commits of a repository.
pub proof fn law_activity_entries(r: Seq<ActivityItem>, bs: Seq<RepoCommits>, keys: Seq<NewestFirst>, perm: Seq<usize>)
    requires
        is_activity_feed(r, bs, keys, perm),
    ensures
        r.len() == (if offered_entries(bs) < 150 { offered_entries(bs) } else { 150 }),
        forall|i: int| 0 <= i < r.len() ==> from_some_repo(#[trigger] r[i], bs),
{
    lemma_all_activity(bs);
    let all = all_activity(bs);
    assert forall|i: int| 0 <= i < r.len() implies from_some_repo(#[trigger] r[i], bs) by {
        let a = perm[i] as int;
        assert(r[i] == all[a]);
        assert(from_some_repo(all[a], bs));
    }
}

/// The activity feed: the first fifteen commits of each repository, all
/// ordered by date, newest first, and cut to 150 entries.
pub fn collect_activity(repos: &Vec<RepoCommits>) -> (r: Vec<ActivityItem>)
    ensures
        exists|keys: Seq<NewestFirst>, perm: Seq<usize>| #[trigger] is_activity_feed(r@, repos@, keys, perm),
        forall|i: int, j: int| #![trigger r@[i], r@[j]] 0 <= i < j < r.len() ==> crate::order::opt_chars_le(
            opt_chars(r@[j].date),
            opt_chars(r@[i].date),
        ),
        r.len() == (if offered_entries(repos@) < 150 { offered_entries(repos@) } else { 150 }),
        forall|i: int| 0 <= i < r.len() ==> from_some_repo(#[trigger] r@[i], repos@),
{
    let mut items: Vec<ActivityItem> = Vec::new();
    let mut keys: Vec<NewestFirst> = Vec::new();
    let mut b: usize = 0;
    while b < repos.len()
        invariant
            b <= repos.len(),
            items@ == all_activity(repos@.take(b as int)),
            date_keys_of(keys@, items@),
        decreases repos.len() - b,
    {
        let repo = &repos[b];
        assert(repos@.take(b + 1).drop_last() == repos@.take(b as int));
        assert(repos@.take(b + 1).last() == *repo);
        let n = if repo.commits.len() < ACTIVITY_PER_REPO { repo.commits.len() } else { ACTIVITY_PER_REPO };
        let ghost base = items@;
        let mut k: usize = 0;
        while k < n
            invariant
                k <= n <= repo.commits.len(),
                n == (if repo.commits.len() < ACTIVITY_PER_REPO { repo.commits.len() } else { ACTIVITY_PER_REPO }),
                items@ == base + repo_activity(*repo).take(k as int),
                date_keys_of(keys@, items@),
            decreases n - k,
        {
            let c = &repo.commits[k];
            let item = ActivityItem {
                repo_id: repo.repo_id.clone(),
                repo_name: repo.repo_name.clone(),
                hash: c.hash.clone(),
                msg: c.msg.clone(),
                author: c.author.clone(),
                date: crate::models::clone_opt(&c.date),
                additions: c.additions,
                deletions: c.deletions,
            };
            assert(item == activity_item(*repo, repo.commits@[k as int]));
            let key = newest_first_key(&item.date);
            let ghost before = items@;
            items.push(item);
            keys.push(key);
            assert(repo_activity(*repo).take(k + 1) == repo_activity(*repo).take(k as int).push(
                repo_activity(*repo)[k as int],
            ));
            assert(items@ == base + repo_activity(*repo).take(k + 1));
            k += 1;
        }
        assert(repo_activity(*repo).take(n as int) == repo_activity(*repo));
        b += 1;
    }
    assert(repos@.take(repos.len() as int) == repos@);
    let perm = stable_order(&keys);
    let m = if perm.len() < ACTIVITY_LIMIT { perm.len() } else { ACTIVITY_LIMIT };
    let mut r: Vec<ActivityItem> = Vec::new();
    let mut q: usize = 0;
    while q < m
        invariant
            q <= m <= perm.len(),
            perm.len() == items.len(),
            is_stable_order(keys@, perm@),
            r.len() == q,
            forall|j: int| 0 <= j < q ==> #[trigger] r@[j] == items@[perm@[j] as int],
        decreases m - q,
    {
        r.push(items[perm[q]].clone());
        q += 1;
    }
    assert(r@ =~= permuted_prefix(items@, perm@, ACTIVITY_LIMIT as nat));
    assert(is_activity_feed(r@, repos@, keys@, perm@));
    proof {
        law_activity_newest_first(r@, repos@, keys@, perm@);
        law_activity_entries(r@, repos@, keys@, perm@);
    }
    r
}


// ── Guards and messages ─────────────────────────────────────────────────────

/// The message for a path that is not a tracked repository.
pub open spec fn unregistered_message(path: Seq<char>) -> Seq<char> {
    "Path '"@ + path + "' is not a registered repository"@
}

/// The message for a path that Git cannot open.
pub open spec fn not_a_repository_message_spec(path: Seq<char>) -> Seq<char> {
    "'"@ + path + "' is not a git repository"@
}

/// The message for an unknown editor id.
pub open spec fn editor_not_found_message(id: Seq<char>) -> Seq<char> {
    "Editor '"@ + id + "' not found"@
}

/// Builds `before` + `middle` + `after`.
fn quoted(before: &str, middle: &str, after: &str) -> (r: String)
    ensures
        r@ == before@ + middle@ + after@,
{
    let mut r = string_from(before);
    push_all(&mut r, middle);
    push_all(&mut r, after);
    r
}

/// The message for adding a path that is not a Git repository.
pub fn not_a_repository_message(path: &str) -> (r: String)
    ensures
        r@ == not_a_repository_message_spec(path@),
{
    quoted("'", path, "' is not a git repository")
}

/// Git actions run only on tracked repositories: `Ok` exactly when some
/// record has path `path`, else the message naming it.
pub fn require_registered(store: &Store, path: &str) -> (r: Result<(), String>)
    ensures
        r is Ok <==> first_index(store@.repos, record_has_path(path@)) is Some,
        r matches Err(m) ==> m@ == unregistered_message(path@),
{
    match store.find_repo_by_path(path) {
        Some(_) => Ok(()),
        None => Err(quoted("Path '", path, "' is not a registered repository")),
    }
}

/// Selects editors with id `id`.
pub open spec fn editor_has_id(id: Seq<char>) -> spec_fn(EditorView) -> bool {
    |e: EditorView| e.id == id
}

/// The command that opens `path` in editor `ide_id`, looked up among the
/// detected editors and then the custom ones: the program is the first word
/// of the editor's command, the arguments are its other words and then the
/// path. Fails for an untracked path, an unknown editor, or an empty command.
pub open spec fn open_plan_spec(
    repos_known: bool,
    editors: Seq<EditorView>,
    ide_id: Seq<char>,
    path: Seq<char>,
) -> Result<(Seq<char>, Seq<Seq<char>>), Seq<char>> {
    if !repos_known {
        Err(unregistered_message(path))
    } else {
        match first_index(editors, editor_has_id(ide_id)) {
            None => Err(editor_not_found_message(ide_id)),
            Some(i) => {
                let words = words_of(editors[i].cmd, Separator::Whitespace);
                if words.len() == 0 {
                    Err("Editor has empty command"@)
                } else {
                    Ok((words[0], words.drop_first().push(path)))
                }
            },
        }
    }
}

/// The characters of each string.
pub open spec fn strings_view(v: Seq<String>) -> Seq<Seq<char>> {
    v.map_values(|a: String| a@)
}

/// The characters of a program and its arguments, or of an error message.
pub open spec fn plan_view(r: Result<(String, Vec<String>), String>) -> Result<(Seq<char>, Seq<Seq<char>>), Seq<char>> {
    match r {
        Ok((p, args)) => Ok((p@, strings_view(args@))),
        Err(e) => Err(e@),
    }
}

/// Plans opening `path` in editor `ide_id`: the program to run and its
/// arguments (the path is passed as its own argument, never through a shell).
pub fn open_in_command(store: &Store, system: &Vec<Editor>, ide_id: &str, path: &str) -> (r: Result<(String, Vec<String>), String>)
    ensures
        plan_view(r) == open_plan_spec(
            first_index(store@.repos, record_has_path(path@)) is Some,
            crate::store::editors_view(system@) + store@.custom_editors,
            ide_id@,
            path@,
        ),
{
    match require_registered(store, path) {
        Err(e) => return Err(e),
        Ok(()) => {},
    }
    let ghost sys = crate::store::editors_view(system@);
    let ghost all = sys + store@.custom_editors;
    let ghost p = editor_has_id(ide_id@);
    proof {
        lemma_first_index_append(sys, store@.custom_editors, p);
    }
    let custom = &store.data.custom_editors;
    let editor = match position_of_editor(system, ide_id) {
        Some(i) => {
            assert(all[i as int] == system@[i as int]@);
            &system[i]
        },
        None => match position_of_editor(custom, ide_id) {
            Some(j) => {
                assert(all[sys.len() + j] == custom@[j as int]@);
                &custom[j]
            },
            None => return Err(quoted("Editor '", ide_id, "' not found")),
        },
    };
    let words = split_words(editor.cmd.as_str(), Separator::Whitespace);
    if words.len() == 0 {
        return Err(string_from("Editor has empty command"));
    }
    let program = crate::text::string_of(&words[0]);
    let ghost wv = words_view(words@);
    let mut args: Vec<String> = Vec::new();
    let mut w: usize = 1;
    while w < words.len()
        invariant
            1 <= w <= words.len(),
            wv == words_view(words@),
            strings_view(args@) == wv.subrange(1, w as int),
        decreases words.len() - w,
    {
        let a = crate::text::string_of(&words[w]);
        assert(a@ == wv[w as int]);
        let ghost before = args@;
        assert(strings_view(before).len() == before.len());
        assert(before.len() == w - 1);
        args.push(a);
        assert(args@ == before.push(a));
        assert forall|k: int| 0 <= k < w implies #[trigger] strings_view(args@)[k] == wv.subrange(1, w + 1)[k] by {
            if k < w - 1 {
                assert(strings_view(args@)[k] == args@[k]@);
                assert(args@[k] == before[k]);
                assert(strings_view(before)[k] == before[k]@);
            }
        }
        assert(strings_view(args@) =~= wv.subrange(1, w + 1));
        w += 1;
    }
    args.push(string_from(path));
    assert(strings_view(args@) =~= wv.drop_first().push(path@));
    Ok((program, args))
}

/// The position of the first editor in `list` with id `id`.
fn position_of_editor(list: &Vec<Editor>, id: &str) -> (r: Option<usize>)
    ensures
        match r {
            Some(i) => i < list.len() && first_index(crate::store::editors_view(list@), editor_has_id(id@)) == Some(i as int),
            None => first_index(crate::store::editors_view(list@), editor_has_id(id@)) is None,
        },
{
    let ghost s = crate::store::editors_view(list@);
    let ghost p = editor_has_id(id@);
    let mut i: usize = 0;
    while i < list.len()
        invariant
            i <= list.len(),
            s == crate::store::editors_view(list@),
            p == editor_has_id(id@),
            forall|k: int| 0 <= k < i ==> !p(#[trigger] s[k]),
        decreases list.len() - i,
    {
        assert(s[i as int] == list@[i as int]@);
        if crate::text::str_eq(list[i].id.as_str(), id) {
            proof {
                lemma_first_index_is(s, p, i as int);
            }
            return Some(i);
        }
        i += 1;
    }
    proof {
        lemma_first_index_none(s, p);
    }
    None
}

/// A path that starts with '-', which a shell helper refuses so that it can
/// never be taken for an option.
pub fn looks_like_flag(path: &str) -> (r: bool)
    ensures
        r == (path@.len() > 0 && path@[0] == '-'),
{
    let cs = crate::text::chars_of(path);
    cs.len() > 0 && cs[0] == '-'
}

/// What `String::from_utf8_lossy` makes of bytes: valid UTF-8 decoded, each
/// invalid sequence replaced by U+FFFD.
pub uninterp spec fn utf8_lossy(bytes: Seq<u8>) -> Seq<char>;

/// Calls `String::from_utf8_lossy`.
#[verifier::external_body]
fn decode_lossy(bytes: &[u8]) -> (r: String)
    ensures
        r@ == utf8_lossy(bytes@),
{
    String::from_utf8_lossy(bytes).to_string()
}

/// The result of a `git` run: its success, and its standard output (on
/// success) or standard error (on failure), decoded and trimmed.
pub fn sync_result(success: bool, stdout: &Vec<u8>, stderr: &Vec<u8>) -> (r: SyncResult)
    ensures
        r.success == success,
        r.message@ == trim_spec(utf8_lossy(if success { stdout@ } else { stderr@ })),
{
    let text = if success { decode_lossy(stdout.as_slice()) } else { decode_lossy(stderr.as_slice()) };
    SyncResult { success, message: trim(text.as_str()) }
}

/// The result of checking out `branch`: success with "Switched to '<branch>'",
/// or failure with Git's message.
pub fn checkout_outcome(branch: &str, outcome: Result<(), String>) -> (r: SyncResult)
    ensures
        r.success == (outcome is Ok),
        outcome is Ok ==> r.message@ == "Switched to '"@ + branch@ + "'"@,
        outcome matches Err(e) ==> r.message == e,
{
    match outcome {
        Ok(()) => SyncResult { success: true, message: quoted("Switched to '", branch, "'") },
        Err(e) => SyncResult { success: false, message: e },
    }
}

} // verus!
