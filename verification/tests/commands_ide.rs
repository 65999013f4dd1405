use codefinder::commands::{
    assemble_detail, build_summary, checkout_outcome, collect_activity, not_a_repository_message,
    open_in_command, repos_in_folder, require_registered, sync_result, RepoCommits, RepoFacts,
};
use codefinder::ide::{
    custom_editor, custom_editor_cmd, custom_editor_id, custom_mark, detect_ides, known_editor_paths,
    make_mark,
};
use codefinder::models::{Commit, Editor, RepoSummary, WorkingTreeStatus};
use codefinder::store::{AppData, RepoRecord, Store};

fn clean_status() -> WorkingTreeStatus {
    WorkingTreeStatus { clean: true, staged: 0, modified: 0, untracked: 0, ahead: 0, behind: 0, files: vec![] }
}

fn record(id: &str, folder: &str, path: &str) -> RepoRecord {
    RepoRecord {
        id: id.to_string(),
        folder_id: folder.to_string(),
        path: path.to_string(),
        favorite: true,
        description: "d".to_string(),
        last_fetched: None,
    }
}

fn commit(hash: &str, author: &str, date: Option<&str>) -> Commit {
    Commit {
        hash: hash.to_string(),
        msg: format!("msg {hash}"),
        author: author.to_string(),
        date: date.map(|d| d.to_string()),
        additions: 1,
        deletions: 2,
    }
}

fn store_with(records: Vec<RepoRecord>, custom: Vec<Editor>) -> Store {
    Store::with_data("/tmp/cf".to_string(), AppData { folders: vec![], repos: records, custom_editors: custom })
}

#[test]
fn editor_marks() {
    assert_eq!(make_mark("Visual Studio Code"), "VS");
    assert_eq!(make_mark("Zed"), "ZE");
    assert_eq!(make_mark("   "), "??");
    assert_eq!(custom_mark("my Editor"), "E");
    assert_eq!(custom_mark("NeoVim Qt"), "NV");
    assert_eq!(custom_mark("helix"), "HE");
}

#[test]
fn detected_editors_follow_the_installed_flags() {
    let paths = known_editor_paths();
    assert_eq!(paths.len(), 8);
    assert_eq!(paths[0], "/Applications/Visual Studio Code.app");
    assert_eq!(paths[5], "/System/Applications/Utilities/Terminal.app");
    let mut installed = vec![false; 8];
    installed[3] = true;
    let eds = detect_ides(&installed);
    assert_eq!(eds.len(), 8);
    assert_eq!(eds[3].id, "zed");
    assert!(eds[3].detected);
    assert_eq!(eds[3].path, "/Applications/Zed.app");
    assert_eq!(eds[3].mark, "ZE");
    assert!(!eds[0].detected);
    assert_eq!(eds[0].path, "");
    assert_eq!(eds[0].mark, "VS");
    assert_eq!(eds[5].cmd, "open -a Terminal");
}

#[test]
fn custom_editor_fields() {
    assert_eq!(custom_editor_id("My Editor"), "custom_my_editor");
    assert_eq!(custom_editor_cmd("My Ed", "/Applications/Sublime Text.app"), "sublime-text");
    assert_eq!(custom_editor_cmd("My Ed", ""), "my-ed");
    let e = custom_editor("custom_x".to_string(), "Nova Editor".to_string(), "/A/Nova.app".to_string(), "nova".to_string());
    assert!(e.detected);
    assert_eq!(e.accent, "#7C6BFF");
    assert_eq!(e.mark, "NE");
    assert_eq!(e.cmd, "nova");
}

#[test]
fn summaries_combine_record_and_git_facts() {
    let rec = record("api-0", "work-0", "/src/api");
    let facts = RepoFacts {
        remote_url: Some("git@github.com:me/api.git".to_string()),
        default_branch: "main".to_string(),
        branch: "dev".to_string(),
        last_commit_at: Some("2024-01-01T00:00:00+00:00".to_string()),
        languages: vec![],
        status: clean_status(),
    };
    let s = build_summary(&rec, facts);
    assert_eq!(s.name, "api");
    assert_eq!(s.remote, "github.com/me/api");
    assert_eq!(s.remote_host, "github");
    assert_eq!(s.branch, "dev");
    assert!(s.favorite);
    let root = record("root-1", "work-0", "/");
    let facts = RepoFacts {
        remote_url: None,
        default_branch: "main".to_string(),
        branch: "main".to_string(),
        last_commit_at: None,
        languages: vec![],
        status: clean_status(),
    };
    let s = build_summary(&root, facts);
    assert_eq!(s.name, "root-1");
    assert_eq!(s.remote, "");
    assert_eq!(s.remote_host, "");
}

#[test]
fn folder_listing_keeps_order() {
    let store = store_with(
        vec![record("a-0", "f", "/a"), record("b-1", "g", "/b"), record("c-2", "f", "/c")],
        vec![],
    );
    let ids: Vec<String> = repos_in_folder(&store, "f").into_iter().map(|r| r.id).collect();
    assert_eq!(ids, vec!["a-0".to_string(), "c-2".to_string()]);
    assert!(repos_in_folder(&store, "none").is_empty());
}

#[test]
fn detail_lists_contributors() {
    let summary = build_summary(
        &record("a-0", "f", "/a"),
        RepoFacts {
            remote_url: None,
            default_branch: "main".to_string(),
            branch: "main".to_string(),
            last_commit_at: None,
            languages: vec![],
            status: clean_status(),
        },
    );
    let commits = vec![commit("1", "Ann", None), commit("2", "Bob", None), commit("3", "Ann", None)];
    let d = assemble_detail(summary, vec![], commits, "# Readme".to_string());
    assert_eq!(d.contributors.len(), 2);
    assert_eq!(d.contributors[0].name, "Ann");
    assert_eq!(d.contributors[0].commits, 2);
    assert_eq!(d.readme, "# Readme");
}

#[test]
fn activity_is_newest_first_and_limited() {
    let a = RepoCommits {
        repo_id: "a-0".to_string(),
        repo_name: "a".to_string(),
        commits: vec![
            commit("a1", "Ann", Some("2024-05-03T00:00:00+00:00")),
            commit("a2", "Ann", None),
            commit("a3", "Ann", Some("2024-05-01T00:00:00+00:00")),
        ],
    };
    let b = RepoCommits {
        repo_id: "b-1".to_string(),
        repo_name: "b".to_string(),
        commits: vec![commit("b1", "Bob", Some("2024-05-02T00:00:00+00:00")), commit("b2", "Bob", Some("2024-05-03T00:00:00+00:00"))],
    };
    let feed = collect_activity(&vec![a, b]);
    let hashes: Vec<&str> = feed.iter().map(|i| i.hash.as_str()).collect();
    assert_eq!(hashes, vec!["a1", "b2", "b1", "a3", "a2"]);
    assert_eq!(feed[1].repo_name, "b");

    let many: Vec<Commit> = (0..20).map(|i| commit(&format!("c{i}"), "X", Some("2024-01-01T00:00:00+00:00"))).collect();
    let repos: Vec<RepoCommits> = (0..12)
        .map(|r| RepoCommits { repo_id: format!("r{r}"), repo_name: format!("r{r}"), commits: many.clone() })
        .collect();
    let feed = collect_activity(&repos);
    assert_eq!(feed.len(), 150);
    assert_eq!(feed[0].hash, "c0");
    assert_eq!(feed[14].hash, "c14");
    assert_eq!(feed[15].repo_id, "r1");
}

#[test]
fn messages_name_the_path() {
    assert_eq!(not_a_repository_message("/tmp/x"), "'/tmp/x' is not a git repository");
    let store = store_with(vec![record("a-0", "f", "/a")], vec![]);
    assert_eq!(require_registered(&store, "/a"), Ok(()));
    assert_eq!(require_registered(&store, "/b"), Err("Path '/b' is not a registered repository".to_string()));
}

#[test]
fn open_in_plans_a_command() {
    let custom = vec![
        custom_editor("custom_nova".to_string(), "Nova".to_string(), "/A/Nova.app".to_string(), "nova --wait".to_string()),
        custom_editor("custom_blank".to_string(), "Blank".to_string(), "/A/B.app".to_string(), "   ".to_string()),
    ];
    let store = store_with(vec![record("a-0", "f", "/src/a b")], custom);
    let system = detect_ides(&vec![true; 8]);
    assert_eq!(
        open_in_command(&store, &system, "terminal", "/src/a b"),
        Ok(("open".to_string(), vec!["-a".to_string(), "Terminal".to_string(), "/src/a b".to_string()]))
    );
    assert_eq!(
        open_in_command(&store, &system, "custom_nova", "/src/a b"),
        Ok(("nova".to_string(), vec!["--wait".to_string(), "/src/a b".to_string()]))
    );
    assert_eq!(
        open_in_command(&store, &system, "zed", "/src/a b"),
        Ok(("zed".to_string(), vec!["/src/a b".to_string()]))
    );
    assert_eq!(
        open_in_command(&store, &system, "vim", "/src/a b"),
        Err("Editor 'vim' not found".to_string())
    );
    assert_eq!(
        open_in_command(&store, &system, "custom_blank", "/src/a b"),
        Err("Editor has empty command".to_string())
    );
    assert_eq!(
        open_in_command(&store, &system, "zed", "/elsewhere"),
        Err("Path '/elsewhere' is not a registered repository".to_string())
    );
}

#[test]
fn sync_results_are_trimmed_output() {
    let ok = sync_result(true, &b"  Already up to date.\n".to_vec(), &b"ignored".to_vec());
    assert!(ok.success);
    assert_eq!(ok.message, "Already up to date.");
    let bad = sync_result(false, &vec![], &vec![b'e', 0xff, b'r']);
    assert!(!bad.success);
    assert_eq!(bad.message, "e\u{FFFD}r");
}

#[test]
fn checkout_reports_switch_or_error() {
    let ok = checkout_outcome("dev", Ok(()));
    assert!(ok.success);
    assert_eq!(ok.message, "Switched to 'dev'");
    let bad = checkout_outcome("dev", Err("conflict".to_string()));
    assert!(!bad.success);
    assert_eq!(bad.message, "conflict");
}

#[test]
fn summary_type_is_plain_data() {
    let s = RepoSummary {
        id: "x".to_string(),
        name: "x".to_string(),
        folder_id: "f".to_string(),
        path: "/x".to_string(),
        description: String::new(),
        remote: String::new(),
        remote_host: String::new(),
        default_branch: "main".to_string(),
        branch: "main".to_string(),
        favorite: false,
        last_fetched: None,
        last_commit_at: None,
        languages: vec![],
        status: clean_status(),
    };
    assert_eq!(s.status.clean, true);
}
