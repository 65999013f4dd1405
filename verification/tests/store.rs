use codefinder::models::Editor;
use codefinder::store::{slugify, AppData, Store};

fn empty_store() -> Store {
    Store::with_data("/tmp/codefinder-test".to_string(), AppData::default())
}

fn editor(id: &str) -> Editor {
    Editor {
        id: id.to_string(),
        name: "Zed".to_string(),
        detected: true,
        path: "/Applications/Zed.app".to_string(),
        accent: "#7C6BFF".to_string(),
        mark: "ZE".to_string(),
        cmd: "zed".to_string(),
    }
}

#[test]
fn slugify_joins_alphanumeric_runs_with_hyphens() {
    assert_eq!(slugify("My Cool_Repo!"), "my-cool-repo");
    assert_eq!(slugify("  leading and trailing  "), "leading-and-trailing");
    assert_eq!(slugify("a--b"), "a-b");
    assert_eq!(slugify("!!!"), "");
    assert_eq!(slugify(""), "");
    assert_eq!(slugify("Ünïcode Straße"), "ünïcode-straße");
}

#[test]
fn add_folder_numbers_ids_by_count() {
    let mut s = empty_store();
    let a = s.add_folder("Work Stuff".to_string(), "folder".to_string(), "#7C6BFF".to_string());
    let b = s.add_folder("Side Projects".to_string(), "folder".to_string(), "#EC4899".to_string());
    assert_eq!(a.id, "work-stuff-0");
    assert_eq!(b.id, "side-projects-1");
    assert_eq!(s.data.folders.len(), 2);
    assert_eq!(s.data.folders[1].color, "#EC4899");
}

#[test]
fn remove_folder_removes_its_repositories() {
    let mut s = empty_store();
    let work = s.add_folder("Work".to_string(), "folder".to_string(), "#000".to_string());
    let home = s.add_folder("Home".to_string(), "folder".to_string(), "#fff".to_string());
    s.add_repo(work.id.clone(), "/src/api".to_string(), String::new());
    s.add_repo(home.id.clone(), "/src/blog".to_string(), String::new());
    s.add_repo(work.id.clone(), "/src/web".to_string(), String::new());
    s.remove_folder(&work.id);
    assert_eq!(s.data.folders.len(), 1);
    assert_eq!(s.data.folders[0].id, home.id);
    assert_eq!(s.data.repos.len(), 1);
    assert_eq!(s.data.repos[0].path, "/src/blog");
}

#[test]
fn add_repo_derives_id_from_path() {
    let mut s = empty_store();
    let r = s.add_repo("f-0".to_string(), "/home/me/My App".to_string(), "desc".to_string()).unwrap();
    assert_eq!(r.id, "my-app-0");
    assert_eq!(r.folder_id, "f-0");
    assert!(!r.favorite);
    assert_eq!(r.description, "desc");
    assert_eq!(r.last_fetched, None);
    let root = s.add_repo("f-0".to_string(), "/".to_string(), String::new()).unwrap();
    assert_eq!(root.id, "repo-1");
}

#[test]
fn add_repo_twice_keeps_the_first_record() {
    let mut s = empty_store();
    let first = s.add_repo("a".to_string(), "/src/api".to_string(), "one".to_string()).unwrap();
    let again = s.add_repo("b".to_string(), "/src/api".to_string(), "two".to_string()).unwrap();
    assert_eq!(s.data.repos.len(), 1);
    assert_eq!(again.id, first.id);
    assert_eq!(again.folder_id, "a");
    assert_eq!(again.description, "one");
}

#[test]
fn find_after_add() {
    let mut s = empty_store();
    s.add_repo("a".to_string(), "/x/one".to_string(), String::new());
    s.add_repo("a".to_string(), "/x/two".to_string(), String::new());
    assert_eq!(s.find_repo_by_path("/x/two"), Some(1));
    assert_eq!(s.find_repo_by_id("one-0"), Some(0));
    assert_eq!(s.find_repo_by_path("/x/three"), None);
}

#[test]
fn remove_repo_removes_the_id() {
    let mut s = empty_store();
    s.add_repo("a".to_string(), "/x/one".to_string(), String::new());
    s.add_repo("a".to_string(), "/x/two".to_string(), String::new());
    s.remove_repo("one-0");
    assert_eq!(s.data.repos.len(), 1);
    assert_eq!(s.data.repos[0].id, "two-1");
    s.remove_repo("missing");
    assert_eq!(s.data.repos.len(), 1);
}

#[test]
fn toggle_favorite_twice_restores() {
    let mut s = empty_store();
    s.add_repo("a".to_string(), "/x/one".to_string(), String::new());
    assert!(s.toggle_favorite("one-0"));
    assert!(s.data.repos[0].favorite);
    assert!(!s.toggle_favorite("one-0"));
    assert!(!s.data.repos[0].favorite);
    assert!(!s.toggle_favorite("nope"));
}

#[test]
fn update_description_then_read() {
    let mut s = empty_store();
    s.add_repo("a".to_string(), "/x/one".to_string(), "old".to_string());
    s.update_description("one-0", "new text".to_string());
    assert_eq!(s.data.repos[0].description, "new text");
    s.update_description("missing", "ignored".to_string());
    assert_eq!(s.data.repos[0].description, "new text");
}

#[test]
fn last_fetched_is_recorded() {
    let mut s = empty_store();
    s.add_repo("a".to_string(), "/x/one".to_string(), String::new());
    s.set_last_fetched("/x/one", "2024-01-02T03:04:05+00:00".to_string());
    assert_eq!(s.data.repos[0].last_fetched.as_deref(), Some("2024-01-02T03:04:05+00:00"));
    s.update_last_fetched("/x/one");
    let when = s.data.repos[0].last_fetched.clone().unwrap();
    assert!(when.len() >= 20);
    assert_ne!(when, "2024-01-02T03:04:05+00:00");
}

#[test]
fn remove_editor_undoes_add() {
    let mut s = empty_store();
    s.add_editor(editor("custom_zed"));
    assert_eq!(s.data.custom_editors.len(), 1);
    s.remove_editor("custom_zed");
    assert!(s.data.custom_editors.is_empty());
}
