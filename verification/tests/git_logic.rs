use codefinder::git::{
    choose_default_branch, describe_remote, detection_descends, get_contributors, language_color,
    language_for_file, lists_commit_at, local_branch_ref, make_branch, make_commit, make_handle,
    marks_repository, normalize_shares, rank_languages, readme_candidates, remote_branch_ref, short_hash,
    tally_status, ts_to_iso, wants_diff_stats, StatusEntry, INDEX_DELETED, INDEX_MODIFIED, INDEX_NEW,
    INDEX_RENAMED, WT_DELETED, WT_MODIFIED, WT_NEW, WT_RENAMED,
};
use codefinder::models::{Commit, Language};

fn commit(author: &str, date: &str, additions: u32, deletions: u32) -> Commit {
    Commit {
        hash: "abc1234".to_string(),
        msg: "m".to_string(),
        author: author.to_string(),
        date: Some(date.to_string()),
        additions,
        deletions,
    }
}

#[test]
fn status_bits_are_git2s() {
    assert_eq!(INDEX_NEW, git2::Status::INDEX_NEW.bits());
    assert_eq!(INDEX_MODIFIED, git2::Status::INDEX_MODIFIED.bits());
    assert_eq!(INDEX_DELETED, git2::Status::INDEX_DELETED.bits());
    assert_eq!(INDEX_RENAMED, git2::Status::INDEX_RENAMED.bits());
    assert_eq!(WT_NEW, git2::Status::WT_NEW.bits());
    assert_eq!(WT_MODIFIED, git2::Status::WT_MODIFIED.bits());
    assert_eq!(WT_DELETED, git2::Status::WT_DELETED.bits());
    assert_eq!(WT_RENAMED, git2::Status::WT_RENAMED.bits());
}

#[test]
fn tally_counts_each_file_once() {
    let entries = vec![
        StatusEntry { path: Some("a.rs".to_string()), bits: INDEX_MODIFIED | WT_MODIFIED },
        StatusEntry { path: Some("b.rs".to_string()), bits: WT_NEW },
        StatusEntry { path: Some("c.rs".to_string()), bits: WT_DELETED },
        StatusEntry { path: None, bits: WT_MODIFIED },
        StatusEntry { path: Some("ignored".to_string()), bits: 1 << 14 },
    ];
    let s = tally_status(&entries, 2, 1);
    assert!(!s.clean);
    assert_eq!((s.staged, s.untracked, s.modified), (1, 1, 2));
    assert_eq!((s.ahead, s.behind), (2, 1));
    let files: Vec<(String, String)> = s.files.iter().map(|f| (f.path.clone(), f.kind.clone())).collect();
    assert_eq!(
        files,
        vec![
            ("a.rs".to_string(), "staged".to_string()),
            ("b.rs".to_string(), "untracked".to_string()),
            ("c.rs".to_string(), "modified".to_string()),
            ("".to_string(), "modified".to_string()),
        ]
    );
}

#[test]
fn tally_of_nothing_is_clean() {
    let s = tally_status(&vec![], 0, 0);
    assert!(s.clean);
    assert!(s.files.is_empty());
}

#[test]
fn handles_keep_twelve_lowercase_alphanumerics() {
    assert_eq!(make_handle("Ada Lovelace"), "adalovelace");
    assert_eq!(make_handle("Jean-Luc O'Neil the Third"), "jeanluconeil");
    assert_eq!(make_handle("--"), "");
}

#[test]
fn contributors_sum_per_author_most_commits_first() {
    let commits = vec![
        commit("Bob", "2024-03-03T00:00:00+00:00", 5, 1),
        commit("Ann", "2024-03-02T00:00:00+00:00", 10, 2),
        commit("Bob", "2024-03-01T00:00:00+00:00", 7, 3),
    ];
    let cs = get_contributors(&commits);
    assert_eq!(cs.len(), 2);
    assert_eq!(cs[0].name, "Bob");
    assert_eq!(cs[0].handle, "bob");
    assert_eq!((cs[0].commits, cs[0].additions, cs[0].deletions), (2, 12, 4));
    assert_eq!(cs[0].last_active.as_deref(), Some("2024-03-03T00:00:00+00:00"));
    assert_eq!(cs[1].name, "Ann");
    assert_eq!((cs[1].commits, cs[1].additions, cs[1].deletions), (1, 10, 2));
    assert!(get_contributors(&vec![]).is_empty());
}

#[test]
fn remote_urls_are_shortened() {
    let (shown, host) = describe_remote("git@github.com:me/repo.git");
    assert_eq!(shown, "github.com/me/repo");
    assert_eq!(host, "github");
    let (shown, host) = describe_remote("https://gitlab.com/group/proj.git");
    assert_eq!(shown, "gitlab.com/group/proj");
    assert_eq!(host, "gitlab");
    let (shown, host) = describe_remote("http://bitbucket.org/team/x");
    assert_eq!(shown, "bitbucket.org/team/x");
    assert_eq!(host, "bitbucket");
    let (shown, host) = describe_remote("ssh://example.org/a.git.git");
    assert_eq!(shown, "ssh///example.org/a");
    assert_eq!(host, "git");
}

#[test]
fn default_branch_prefers_origin_head_then_main() {
    assert_eq!(choose_default_branch(Some("refs/remotes/origin/develop".to_string()), true, true), "develop");
    assert_eq!(choose_default_branch(None, true, true), "main");
    assert_eq!(choose_default_branch(None, false, true), "master");
    assert_eq!(choose_default_branch(None, false, false), "main");
}

#[test]
fn branch_refs() {
    assert_eq!(local_branch_ref("feature/x"), "refs/heads/feature/x");
    assert_eq!(remote_branch_ref("main"), "refs/remotes/origin/main");
}

#[test]
fn timestamps_as_rfc3339() {
    assert_eq!(ts_to_iso(0), "1970-01-01T00:00:00+00:00");
    assert_eq!(ts_to_iso(1_700_000_000), "2023-11-14T22:13:20+00:00");
    assert_eq!(ts_to_iso(i64::MAX), "");
}

#[test]
fn commit_and_history_limits() {
    assert!(lists_commit_at(49));
    assert!(!lists_commit_at(50));
    assert!(wants_diff_stats(29));
    assert!(!wants_diff_stats(30));
    assert_eq!(short_hash("0123456789abcdef"), "0123456");
    assert_eq!(short_hash("abc"), "abc");
}

#[test]
fn commits_are_built_from_git_data() {
    let c = make_commit("0123456789abcdef", Some("Fix bug".to_string()), None, 0, 3, 4);
    assert_eq!(c.hash, "0123456");
    assert_eq!(c.msg, "Fix bug");
    assert_eq!(c.author, "Unknown");
    assert_eq!(c.date.as_deref(), Some("1970-01-01T00:00:00+00:00"));
    assert_eq!((c.additions, c.deletions), (3, 4));
    let d = make_commit("ff", None, Some("Ann".to_string()), 0, 0, 0);
    assert_eq!(d.msg, "");
    assert_eq!(d.author, "Ann");
}

#[test]
fn branches_are_built_from_git_data() {
    let b = make_branch("main".to_string(), true, Some((Some("tip".to_string()), 0)), Some((3, 1)));
    assert_eq!(b.name, "main");
    assert!(b.current);
    assert_eq!(b.last_msg, "tip");
    assert_eq!(b.when.as_deref(), Some("1970-01-01T00:00:00+00:00"));
    assert_eq!((b.ahead, b.behind), (3, 1));
    let c = make_branch("dev".to_string(), false, None, None);
    assert_eq!(c.last_msg, "");
    assert_eq!(c.when, None);
    assert_eq!((c.ahead, c.behind), (0, 0));
}

#[test]
fn languages_by_extension() {
    assert_eq!(language_for_file("/r/src/main.RS", "main.RS").as_deref(), Some("Rust"));
    assert_eq!(language_for_file("/r/Dockerfile", "Dockerfile").as_deref(), Some("Dockerfile"));
    assert_eq!(language_for_file("/r/app.tsx", "app.tsx").as_deref(), Some("TypeScript"));
    assert_eq!(language_for_file("/r/README", "README"), None);
    assert_eq!(language_for_file("/r/x.unknown", "x.unknown"), None);
    assert_eq!(language_color("Go"), "#00ADD8");
    assert_eq!(language_color("Brainfuck"), "#888");
}

#[test]
fn walks_skip_build_directories() {
    assert!(!detection_descends(false, Some("node_modules")));
    assert!(detection_descends(true, Some("node_modules")));
    assert!(detection_descends(false, Some("src")));
    assert!(detection_descends(false, None));
    assert!(marks_repository(true, ".git"));
    assert!(!marks_repository(false, ".git"));
}

#[test]
fn languages_ranked_and_normalized() {
    let shares = vec![
        ("Go".to_string(), 20u8),
        ("Rust".to_string(), 50u8),
        ("CSS".to_string(), 0u8),
        ("HTML".to_string(), 20u8),
        ("Shell".to_string(), 9u8),
    ];
    let ranked = rank_languages(&shares);
    let names: Vec<&str> = ranked.iter().map(|l| l.name.as_str()).collect();
    assert_eq!(names, vec!["Rust", "Go", "HTML", "Shell"]);
    assert_eq!(ranked[0].color, "#DEA584");
    let norm = normalize_shares(ranked);
    assert_eq!(norm[0].pct, 51);
    assert_eq!(norm[1].pct, 20);
    let seven: Vec<(String, u8)> = (0..7).map(|i| (format!("L{i}"), 10u8)).collect();
    assert_eq!(rank_languages(&seven).len(), 6);
    let low = vec![Language { name: "A".to_string(), pct: 1, color: "#888".to_string() },
        Language { name: "B".to_string(), pct: 150, color: "#888".to_string() }];
    assert_eq!(normalize_shares(low)[0].pct, 1);
}

#[test]
fn contributor_commit_counts_add_up() {
    let commits = vec![
        commit("A", "2024-01-04T00:00:00+00:00", 1, 10),
        commit("B", "2024-01-03T00:00:00+00:00", 2, 20),
        commit("A", "2024-01-02T00:00:00+00:00", 3, 30),
        commit("C", "2024-01-01T00:00:00+00:00", 4, 40),
        commit("A", "2024-01-01T00:00:00+00:00", 5, 50),
    ];
    let cs = get_contributors(&commits);
    let total: u32 = cs.iter().map(|c| c.commits).sum();
    assert_eq!(total as usize, commits.len());
    let adds: u32 = cs.iter().map(|c| c.additions).sum();
    let dels: u32 = cs.iter().map(|c| c.deletions).sum();
    assert_eq!((adds, dels), (15, 150));
    assert_eq!((cs[0].additions, cs[0].deletions), (9, 90));
    assert_eq!(cs[0].name, "A");
    assert_eq!(cs[0].commits, 3);
}

#[test]
fn readme_names_in_order() {
    assert_eq!(readme_candidates(), vec!["README.md", "readme.md", "Readme.md", "README.MD", "README"]);
}

#[test]
fn bytes_grouped_by_language() {
    let files = vec![
        ("Rust".to_string(), 10u64),
        ("Go".to_string(), 5u64),
        ("Rust".to_string(), 7u64),
        ("CSS".to_string(), 0u64),
    ];
    let (groups, total) = codefinder::git::language_bytes(&files);
    assert_eq!(groups, vec![("Rust".to_string(), 17), ("Go".to_string(), 5), ("CSS".to_string(), 0)]);
    assert_eq!(total, 22);
    let (none, zero) = codefinder::git::language_bytes(&vec![]);
    assert!(none.is_empty());
    assert_eq!(zero, 0);
}
