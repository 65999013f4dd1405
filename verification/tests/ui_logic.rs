use codefinder::icons::icon_html;
use codefinder::models::{ActivityItem, Contributor, Editor, Folder, RepoSummary, WorkingTreeStatus};
use codefinder::ui::{
    activity_groups, age_label, author_color, author_initials, avatar_color, change_label, palette_action,
    dashboard, entered_text, fetched_text, first_folder_id, folder_color, folder_counts, from_now,
    glyph_for, initials_of, is_stale, more_files, palette_command_positions, palette_repos, pill_icon,
    repo_count_label, repo_list, selected_repo, sort_mode, status_kind, time_bucket, total_commits,
    visible_repos, Initials, NavKind, PaletteAction, PaletteMode, Selection, SortMode,
};
use codefinder::ui::{renders_event, sync_title, MarkdownEventKind, SyncAction};
use codefinder::ui::{avatar_overflow, dismiss_toast, editor_location, theme_icon, toggled_theme, Toast};

const DAY: i64 = 86_400_000;
// 2024-05-10T00:00:00Z in milliseconds.
const NOW: i64 = 1_715_299_200_000;

fn status(clean: bool, staged: u32, modified: u32, untracked: u32, ahead: u32, behind: u32) -> WorkingTreeStatus {
    WorkingTreeStatus { clean, staged, modified, untracked, ahead, behind, files: vec![] }
}

fn repo(id: &str, name: &str, folder: &str, clean: bool, last: Option<&str>, favorite: bool) -> RepoSummary {
    RepoSummary {
        id: id.to_string(),
        name: name.to_string(),
        folder_id: folder.to_string(),
        path: format!("/code/{name}"),
        description: String::new(),
        remote: String::new(),
        remote_host: String::new(),
        default_branch: "main".to_string(),
        branch: "main".to_string(),
        favorite,
        last_fetched: None,
        last_commit_at: last.map(|s| s.to_string()),
        languages: vec![],
        status: status(clean, if clean { 0 } else { 1 }, 0, 0, 0, 0),
    }
}

fn sample() -> Vec<RepoSummary> {
    vec![
        repo("b-0", "beta", "work", true, Some("2024-05-09T00:00:00+00:00"), false),
        repo("a-1", "Alpha", "home", false, Some("2024-03-01T00:00:00+00:00"), true),
        repo("c-2", "gamma", "work", false, None, false),
        repo("d-3", "Delta", "work", true, Some("2024-05-09T12:00:00+00:00"), true),
    ]
}

#[test]
fn selections() {
    let s = Selection::smart("dashboard");
    assert_eq!(s.kind, NavKind::Smart);
    assert_eq!(s.id, "dashboard");
    assert!(s.is_smart("dashboard"));
    assert!(!s.is_smart("activity"));
    assert_eq!(Selection::folder("work").kind, NavKind::Folder);
    let r = Selection::repo("a-1");
    assert_eq!(r.kind, NavKind::Repo);
    assert!(!r.is_smart("a-1"));
    assert_eq!(r.clone().id, "a-1");
}

#[test]
fn glyphs() {
    assert_eq!(glyph_for("code-finder"), "CF");
    assert_eq!(glyph_for("my_cool.repo"), "MC");
    assert_eq!(glyph_for("api"), "AP");
    assert_eq!(glyph_for("x"), "X");
    assert_eq!(glyph_for("-web-"), "-W");
    assert_eq!(glyph_for(""), "");
}

#[test]
fn status_pills() {
    let mut r = repo("x", "x", "f", false, None, false);
    r.status = status(false, 1, 2, 0, 5, 0);
    assert_eq!(status_kind(&r), ("dirty", "3 changes".to_string()));
    r.status = status(false, 0, 0, 1, 0, 0);
    assert_eq!(status_kind(&r), ("dirty", "1 change".to_string()));
    r.status = status(true, 0, 0, 0, 5, 2);
    assert_eq!(status_kind(&r), ("ahead", "5 ahead".to_string()));
    r.status = status(true, 0, 0, 0, 0, 2);
    assert_eq!(status_kind(&r), ("behind", "2 behind".to_string()));
    r.status = status(true, 0, 0, 0, 0, 0);
    assert_eq!(status_kind(&r), ("clean", "clean".to_string()));
    assert_eq!(pill_icon("clean"), "check");
    assert_eq!(pill_icon("dirty"), "diff");
    assert_eq!(pill_icon("ahead"), "arrowUp");
    assert_eq!(pill_icon("behind"), "arrowDown");
    assert_eq!(change_label(0), "0 changes");
}

#[test]
fn relative_times() {
    assert_eq!(age_label(Some(59_999)), "just now");
    assert_eq!(age_label(Some(-5_000)), "just now");
    assert_eq!(age_label(Some(60_000)), "1m ago");
    assert_eq!(age_label(Some(3_599_999)), "59m ago");
    assert_eq!(age_label(Some(3_600_000)), "1h ago");
    assert_eq!(age_label(Some(DAY as i128)), "1d ago");
    assert_eq!(age_label(Some(7 * DAY as i128)), "1w ago");
    assert_eq!(age_label(Some(35 * DAY as i128)), "1mo ago");
    assert_eq!(age_label(Some(359 * DAY as i128)), "11mo ago");
    assert_eq!(age_label(Some(360 * DAY as i128)), "0y ago");
    assert_eq!(age_label(Some(800 * DAY as i128)), "2y ago");
    assert_eq!(age_label(None), "0y ago");
    assert_eq!(from_now(&Some("2024-05-09T22:00:00+00:00".to_string()), NOW), "2h ago");
    assert_eq!(from_now(&Some("2024-05-09T22:00:00+02:00".to_string()), NOW), "4h ago");
    assert_eq!(from_now(&None, NOW), "");
    assert_eq!(from_now(&Some(String::new()), NOW), "");
    assert_eq!(from_now(&Some("yesterday".to_string()), NOW), "0y ago");
}

#[test]
fn staleness() {
    assert!(is_stale(&None, NOW));
    assert!(!is_stale(&Some("2024-05-01T00:00:00+00:00".to_string()), NOW));
    assert!(!is_stale(&Some("2024-04-10T00:00:00+00:00".to_string()), NOW));
    assert!(is_stale(&Some("2024-04-09T23:59:59+00:00".to_string()), NOW));
    assert!(!is_stale(&Some("not a date".to_string()), NOW));
    assert!(!is_stale(&Some(String::new()), NOW));
}

#[test]
fn activity_buckets() {
    assert_eq!(time_bucket(&Some("2024-05-09T01:00:00+00:00".to_string()), NOW), 0);
    assert_eq!(time_bucket(&Some("2024-05-08T01:00:00+00:00".to_string()), NOW), 1);
    assert_eq!(time_bucket(&Some("2024-05-05T00:00:00+00:00".to_string()), NOW), 2);
    assert_eq!(time_bucket(&Some("2024-05-03T00:00:00+00:00".to_string()), NOW), 3);
    assert_eq!(time_bucket(&None, NOW), 3);
    assert_eq!(time_bucket(&Some(String::new()), NOW), 3);
    assert_eq!(time_bucket(&Some("bad".to_string()), NOW), 3);
    let item = |d: Option<&str>| ActivityItem {
        repo_id: "r".to_string(),
        repo_name: "r".to_string(),
        hash: "h".to_string(),
        msg: "m".to_string(),
        author: "a".to_string(),
        date: d.map(|s| s.to_string()),
        additions: 0,
        deletions: 0,
    };
    let items = vec![
        item(Some("2024-05-09T10:00:00+00:00")),
        item(None),
        item(Some("2024-05-08T10:00:00+00:00")),
        item(Some("2024-05-09T11:00:00+00:00")),
    ];
    let (today, yesterday, week, older) = activity_groups(&items, NOW);
    assert_eq!(today, vec![0, 3]);
    assert_eq!(yesterday, vec![2]);
    assert!(week.is_empty());
    assert_eq!(older, vec![1]);
}

#[test]
fn visible_repositories_per_selection() {
    let repos = sample();
    assert_eq!(visible_repos(&Selection::smart("all"), &repos, NOW), vec![0, 1, 2, 3]);
    assert_eq!(visible_repos(&Selection::smart("dashboard"), &repos, NOW), vec![0, 1, 2, 3]);
    assert_eq!(visible_repos(&Selection::smart("uncommitted"), &repos, NOW), vec![1, 2]);
    assert_eq!(visible_repos(&Selection::smart("stale"), &repos, NOW), vec![1, 2]);
    assert_eq!(visible_repos(&Selection::folder("work"), &repos, NOW), vec![0, 2, 3]);
    assert_eq!(visible_repos(&Selection::repo("a-1"), &repos, NOW), vec![0, 1, 2, 3]);
    assert_eq!(selected_repo(&Selection::repo("c-2"), &repos), Some(2));
    assert_eq!(selected_repo(&Selection::repo("zzz"), &repos), None);
    assert_eq!(selected_repo(&Selection::folder("c-2"), &repos), None);
}

#[test]
fn sidebar_counts_and_colors() {
    let repos = sample();
    assert_eq!(folder_counts(&repos, "work"), (3, 1));
    assert_eq!(folder_counts(&repos, "home"), (1, 1));
    assert_eq!(folder_counts(&repos, "none"), (0, 0));
    let folders = vec![
        Folder { id: "work".to_string(), name: "Work".to_string(), icon: "folder".to_string(), color: "#111".to_string() },
        Folder { id: "home".to_string(), name: "Home".to_string(), icon: "folder".to_string(), color: "#222".to_string() },
    ];
    assert_eq!(folder_color(&folders, "home"), "#222");
    assert_eq!(folder_color(&folders, "gone"), "#7C6BFF");
    assert_eq!(first_folder_id(&folders), "work");
    assert_eq!(first_folder_id(&vec![]), "");
}

#[test]
fn repository_list_filters_and_sorts() {
    let repos = sample();
    assert_eq!(sort_mode("recent"), SortMode::Recent);
    assert_eq!(sort_mode("status"), SortMode::Status);
    assert_eq!(sort_mode("name"), SortMode::Name);
    assert_eq!(sort_mode("other"), SortMode::Name);
    assert_eq!(repo_list(&repos, "", SortMode::Name), vec![1, 0, 3, 2]);
    assert_eq!(repo_list(&repos, "", SortMode::Recent), vec![3, 0, 1, 2]);
    assert_eq!(repo_list(&repos, "", SortMode::Status), vec![1, 2, 3, 0]);
    assert_eq!(repo_list(&repos, "A", SortMode::Name), vec![1, 0, 3, 2]);
    assert_eq!(repo_list(&repos, "ALP", SortMode::Name), vec![1]);
    assert_eq!(repo_list(&repos, "code/gam", SortMode::Name), vec![2]);
    assert!(repo_list(&repos, "zzz", SortMode::Name).is_empty());
    assert_eq!(repo_count_label(1), "1 repo");
    assert_eq!(repo_count_label(0), "0 repos");
    assert_eq!(repo_count_label(12), "12 repos");
}

#[test]
fn dashboard_lists() {
    let repos = sample();
    let d = dashboard(&repos, NOW);
    assert_eq!(d.total, 4);
    assert_eq!(d.dirty, vec![1, 2]);
    assert_eq!(d.stale, vec![1, 2]);
    assert_eq!(d.favorites, vec![1, 3]);
    assert_eq!(d.recent, vec![3, 0, 1, 2]);
    let many: Vec<RepoSummary> = (0..10)
        .map(|i| repo(&format!("r{i}"), "r", "f", true, Some(&format!("2024-05-0{}T00:00:00+00:00", i % 9 + 1)), false))
        .collect();
    let d = dashboard(&many, NOW);
    assert_eq!(d.recent, vec![8, 7, 6, 5, 4, 3, 2, 1]);
}

#[test]
fn palette() {
    let repos = sample();
    assert_eq!(palette_command_positions(""), (0..9).collect::<Vec<usize>>());
    assert_eq!(palette_command_positions("FOLDER"), vec![5, 7]);
    assert_eq!(palette_command_positions("scan"), vec![8]);
    assert_eq!(palette_command_positions("go to"), vec![0, 1, 2]);
    assert!(palette_command_positions("xyz").is_empty());
    assert_eq!(palette_repos(&repos, "a"), vec![0, 1, 2, 3]);
    let many: Vec<RepoSummary> = (0..10).map(|i| repo(&format!("r{i}"), "r", "f", true, None, false)).collect();
    assert_eq!(palette_repos(&many, "").len(), 8);
    assert!(matches!(palette_action("new-folder", "work"), Some(PaletteAction::Mode(PaletteMode::NewFolder))));
    assert!(matches!(palette_action("add-repo", "work"), Some(PaletteAction::Mode(PaletteMode::AddRepo(f))) if f == "work"));
    assert!(matches!(palette_action("scan", "work"), Some(PaletteAction::Mode(PaletteMode::ScanDir))));
    assert!(matches!(palette_action("go-dashboard", "work"), Some(PaletteAction::Open(s)) if s.kind == NavKind::Smart && s.id == "dashboard"));
    assert!(matches!(palette_action("go-activity", "work"), Some(PaletteAction::Open(s)) if s.id == "activity"));
    assert!(matches!(palette_action("go-uncommitted", "work"), Some(PaletteAction::Open(s)) if s.id == "uncommitted"));
    assert!(matches!(palette_action("fetch-all", "work"), Some(PaletteAction::FetchAll)));
    assert!(matches!(palette_action("toggle-theme", "work"), Some(PaletteAction::ToggleTheme)));
    assert!(matches!(palette_action("manage-editors", "work"), Some(PaletteAction::ManageEditors)));
    assert!(palette_action("other", "work").is_none());
    assert_eq!(entered_text("  My Folder \n"), Some("My Folder".to_string()));
    assert_eq!(entered_text("   "), None);
}

#[test]
fn avatars() {
    assert_eq!(initials_of("Ada Lovelace King"), "AL");
    assert_eq!(initials_of("  bob  "), "B");
    assert_eq!(initials_of(""), "");
    let c = Contributor {
        name: "grace hopper".to_string(),
        handle: "gracehopper".to_string(),
        commits: 3,
        additions: 1,
        deletions: 1,
        last_active: None,
    };
    assert_eq!(c.initials(), "GH");
    // "ab": 97 + 98 = 195, 195 % 8 = 3.
    assert_eq!(avatar_color("ab"), "#F59E0B");
    assert_eq!(avatar_color(""), "#6366F1");
    let h = Contributor { handle: "ab".to_string(), ..c };
    assert_eq!(h.color(), "#F59E0B");
    // "ab": 195 % 12 = 3.
    assert_eq!(author_color("ab"), "#45B7D1");
    assert_eq!(author_initials("Ada Byron Lovelace"), "AL");
    assert_eq!(author_initials("linus"), "LI");
    assert_eq!(author_initials(" x"), " X");
    assert_eq!(author_initials("   "), "?");
}

#[test]
fn overview_numbers() {
    assert_eq!(more_files(3), 0);
    assert_eq!(more_files(5), 0);
    assert_eq!(more_files(9), 4);
    let c = |n: u32| Contributor {
        name: "n".to_string(),
        handle: "n".to_string(),
        commits: n,
        additions: 0,
        deletions: 0,
        last_active: None,
    };
    assert_eq!(total_commits(&vec![c(3), c(4), c(10)]), 17);
    assert_eq!(total_commits(&vec![]), 0);
    assert_eq!(fetched_text(&None, NOW), "Never");
    assert_eq!(fetched_text(&Some("2024-05-09T23:59:30+00:00".to_string()), NOW), "just now");
}

#[test]
fn icons_render_as_svg() {
    assert_eq!(
        icon_html("check", 11),
        "<svg width=\"11\" height=\"11\" viewBox=\"0 0 24 24\" fill=\"none\" stroke=\"currentColor\" stroke-width=\"2\" stroke-linecap=\"round\" stroke-linejoin=\"round\" style=\"display:block;flex-shrink:0\"><path d=\"M20 6L9 17l-5-5\"/></svg>"
    );
    assert_eq!(
        icon_html("plus", 14),
        "<svg width=\"14\" height=\"14\" viewBox=\"0 0 24 24\" fill=\"none\" stroke=\"currentColor\" stroke-width=\"2\" stroke-linecap=\"round\" stroke-linejoin=\"round\" style=\"display:block;flex-shrink:0\"><path d=\"M12 5v14\"/><path d=\"M5 12h14\"/></svg>"
    );
    assert_eq!(
        icon_html("inbox", 24),
        "<svg width=\"24\" height=\"24\" viewBox=\"0 0 24 24\" fill=\"none\" stroke=\"currentColor\" stroke-width=\"2\" stroke-linecap=\"round\" stroke-linejoin=\"round\" style=\"display:block;flex-shrink:0\"></svg>"
    );
}

#[test]
fn settings_theme_and_toasts() {
    assert_eq!(avatar_overflow(7, 5), 2);
    assert_eq!(avatar_overflow(3, 5), 0);
    let mut e = Editor {
        id: "zed".to_string(),
        name: "Zed".to_string(),
        detected: true,
        path: "/Applications/Zed.app".to_string(),
        accent: "#0E7FE0".to_string(),
        mark: "ZE".to_string(),
        cmd: "zed".to_string(),
    };
    assert_eq!(editor_location(&e), "/Applications/Zed.app");
    e.detected = false;
    assert_eq!(editor_location(&e), "Not installed — add manually");
    assert_eq!(toggled_theme("dark"), "light");
    assert_eq!(toggled_theme("light"), "dark");
    assert_eq!(theme_icon("dark"), "sun");
    assert_eq!(theme_icon("light"), "moon");
    let mut toasts = vec![Toast::new("Fetched", "ok", 1700000000123), Toast::new("Added", "/x", 42)];
    assert_eq!(toasts[0].id, "1700000000123");
    dismiss_toast(&mut toasts, "1700000000123");
    assert_eq!(toasts.len(), 1);
    assert_eq!(toasts[0].msg, "Added");
    dismiss_toast(&mut toasts, "none");
    assert_eq!(toasts.len(), 1);
}

#[test]
fn markdown_events_and_sync_titles() {
    assert!(!renders_event(&MarkdownEventKind::Html));
    assert!(!renders_event(&MarkdownEventKind::InlineHtml));
    assert!(renders_event(&MarkdownEventKind::Other));
    assert_eq!(sync_title(SyncAction::Fetch, true), "Fetched");
    assert_eq!(sync_title(SyncAction::Fetch, false), "Fetch failed");
    assert_eq!(sync_title(SyncAction::Pull, true), "Pulled");
    assert_eq!(sync_title(SyncAction::Pull, false), "Pull failed");
    assert_eq!(sync_title(SyncAction::Checkout, true), "Checked out");
    assert_eq!(sync_title(SyncAction::Checkout, false), "Checkout failed");
}

#[test]
fn date_only_texts_are_read_as_midnight_utc() {
    assert_eq!(from_now(&Some("2024-05-08".to_string()), NOW), "2d ago");
    assert_eq!(from_now(&Some("2024-05".to_string()), NOW), "1w ago");
    assert_eq!(from_now(&Some("2024".to_string()), NOW), "4mo ago");
    assert_eq!(from_now(&Some("2024-13-01".to_string()), NOW), "0y ago");
    assert!(is_stale(&Some("2024-03-02".to_string()), NOW));
    assert!(!is_stale(&Some("2024-05-01".to_string()), NOW));
    assert_eq!(time_bucket(&Some("2024-05-09".to_string()), NOW), 1);
    assert_eq!(codefinder::ui::iso_date_form("2024-05"), Some("2024-05-01".to_string()));
    assert_eq!(codefinder::ui::iso_date_form("2024"), Some("2024-01-01".to_string()));
    assert_eq!(codefinder::ui::iso_date_form("2024-5-1"), None);
    assert_eq!(codefinder::ui::date_millis("2024-05-10"), Some(NOW));
    assert_eq!(codefinder::ui::date_millis("2024-05-10T02:00:00+02:00"), Some(NOW));
}

#[test]
fn readme_markdown_drops_raw_html() {
    assert_eq!(codefinder::ui::md_to_html("# Hi"), "<h1>Hi</h1>\n");
    assert_eq!(codefinder::ui::md_to_html("a <i>b</i> c"), "<p>a b c</p>\n");
    assert_eq!(codefinder::ui::md_to_html("<script>alert(1)</script>\n\n~~x~~"), "<p><del>x</del></p>\n");
}
