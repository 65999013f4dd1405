//! The editors and tools a repository can be opened in.

use vstd::prelude::*;
use crate::models::Editor;
use crate::text::{
    char_is_uppercase, chars_of, first_chars, is_uppercase, lemma_words_not_empty, prefix_chars,
    push_all, split_words, str_lowercase, str_uppercase, string_from, string_of, to_lowercase,
    to_uppercase, words_of, words_view, Separator,
};

verus! {

/// The editors looked for: id, display name, application bundle (under
/// "/Applications" unless absolute), accent color and command.
pub open spec fn known_editors() -> Seq<(Seq<char>, Seq<char>, Seq<char>, Seq<char>, Seq<char>)> {
    seq![
        ("vscode"@, "Visual Studio Code"@, "Visual Studio Code.app"@, "#2D9CDB"@, "code"@),
        ("cursor"@, "Cursor"@, "Cursor.app"@, "#E5E7EB"@, "cursor"@),
        ("xcode"@, "Xcode"@, "Xcode.app"@, "#1C7BFE"@, "xed"@),
        ("zed"@, "Zed"@, "Zed.app"@, "#0E7FE0"@, "zed"@),
        ("jetbrains"@, "IntelliJ IDEA"@, "IntelliJ IDEA.app"@, "#FE315D"@, "idea"@),
        ("terminal"@, "Terminal"@, "/System/Applications/Utilities/Terminal.app"@, "#3FB950"@, "open -a Terminal"@),
        ("finder"@, "Finder"@, "/System/Library/CoreServices/Finder.app"@, "#1C9CF6"@, "open"@),
        ("sublime"@, "Sublime Text"@, "Sublime Text.app"@, "#FF9800"@, "subl"@),
    ]
}

pub open spec fn rows_view(
    s: Seq<(&str, &str, &str, &str, &str)>,
) -> Seq<(Seq<char>, Seq<char>, Seq<char>, Seq<char>, Seq<char>)> {
    s.map_values(|r: (&str, &str, &str, &str, &str)| (r.0@, r.1@, r.2@, r.3@, r.4@))
}

fn known_editor_rows() -> (r: Vec<(&'static str, &'static str, &'static str, &'static str, &'static str)>)
    ensures
        rows_view(r@) == known_editors(),
{
    let mut r: Vec<(&'static str, &'static str, &'static str, &'static str, &'static str)> = Vec::new();
    r.push(("vscode", "Visual Studio Code", "Visual Studio Code.app", "#2D9CDB", "code"));
    r.push(("cursor", "Cursor", "Cursor.app", "#E5E7EB", "cursor"));
    r.push(("xcode", "Xcode", "Xcode.app", "#1C7BFE", "xed"));
    r.push(("zed", "Zed", "Zed.app", "#0E7FE0", "zed"));
    r.push(("jetbrains", "IntelliJ IDEA", "IntelliJ IDEA.app", "#FE315D", "idea"));
    r.push(("terminal", "Terminal", "/System/Applications/Utilities/Terminal.app", "#3FB950", "open -a Terminal"));
    r.push(("finder", "Finder", "/System/Library/CoreServices/Finder.app", "#1C9CF6", "open"));
    r.push(("sublime", "Sublime Text", "Sublime Text.app", "#FF9800", "subl"));
    assert(rows_view(r@) =~= known_editors());
    r
}

/// Where an application bundle lives: as given if absolute, else under
/// "/Applications".
pub open spec fn bundle_path(app: Seq<char>) -> Seq<char> {
    if app.len() > 0 && app[0] == '/' {
        app
    } else {
        "/Applications/"@ + app
    }
}

fn bundle_path_exec(app: &str) -> (r: String)
    ensures
        r@ == bundle_path(app@),
{
    let cs = chars_of(app);
    if cs.len() > 0 && cs[0] == '/' {
        string_of(&cs)
    } else {
        let mut p = string_from("/Applications/");
        push_all(&mut p, app);
        p
    }
}

/// The two-letter mark of an editor: the first letters of its first two
/// words, or the first two letters of its only word, upper-cased; "??" for a
/// name without words.
pub open spec fn mark_spec(name: Seq<char>) -> Seq<char> {
    let ws = words_of(name, Separator::Whitespace);
    if ws.len() == 0 {
        "??"@
    } else if ws.len() == 1 {
        str_uppercase(prefix_chars(ws[0], 2))
    } else {
        str_uppercase(seq![ws[0][0], ws[1][0]])
    }
}

/// The mark shown for an editor.
pub fn make_mark(name: &str) -> (r: String)
    ensures
        r@ == mark_spec(name@),
{
    let words = split_words(name, Separator::Whitespace);
    proof {
        lemma_words_not_empty(name@, Separator::Whitespace);
    }
    if words.len() == 0 {
        string_from("??")
    } else if words.len() == 1 {
        assert(words_view(words@)[0] == words@[0]@);
        let two = first_chars(&words[0], 2);
        to_uppercase(two.as_str())
    } else {
        assert(words_view(words@)[0] == words@[0]@);
        assert(words_view(words@)[1] == words@[1]@);
        let mut pair = String::new();
        pair.push(words[0][0]);
        pair.push(words[1][0]);
        assert(pair@ == seq![words@[0]@[0], words@[1]@[0]]);
        to_uppercase(pair.as_str())
    }
}

/// The bundle paths of the known editors, in order, to be checked for
/// existence.
pub fn known_editor_paths() -> (r: Vec<String>)
    ensures
        r.len() == known_editors().len(),
        forall|i: int| 0 <= i < r.len() ==> (#[trigger] r@[i])@ == bundle_path(known_editors()[i].2),
{
    let rows = known_editor_rows();
    let mut r: Vec<String> = Vec::new();
    let mut i: usize = 0;
    while i < rows.len()
        invariant
            i <= rows.len(),
            rows_view(rows@) == known_editors(),
            r.len() == i,
            forall|k: int| 0 <= k < i ==> (#[trigger] r@[k])@ == bundle_path(known_editors()[k].2),
        decreases rows.len() - i,
    {
        assert(rows_view(rows@)[i as int] == (rows@[i as int].0@, rows@[i as int].1@, rows@[i as int].2@, rows@[i as int].3@, rows@[i as int].4@));
        r.push(bundle_path_exec(rows[i].2));
        i += 1;
    }
    r
}

/// `e` is the entry for known editor `k`, found or not.
pub open spec fn describes_known_editor(e: Editor, k: (Seq<char>, Seq<char>, Seq<char>, Seq<char>, Seq<char>), installed: bool) -> bool {
    &&& e.id@ == k.0
    &&& e.name@ == k.1
    &&& e.detected == installed
    &&& e.path@ == (if installed { bundle_path(k.2) } else { Seq::empty() })
    &&& e.accent@ == k.3
    &&& e.mark@ == mark_spec(k.1)
    &&& e.cmd@ == k.4
}

/// The known editors, each marked detected exactly when its bundle was found
/// (`installed[i]` for the `i`-th of `known_editor_paths`), with its path only
/// then.
pub fn detect_ides(installed: &Vec<bool>) -> (r: Vec<Editor>)
    requires
        installed.len() == known_editors().len(),
    ensures
        r.len() == known_editors().len(),
        forall|i: int| 0 <= i < r.len() ==> describes_known_editor(#[trigger] r@[i], known_editors()[i], installed@[i]),
{
    let rows = known_editor_rows();
    let mut r: Vec<Editor> = Vec::new();
    let mut i: usize = 0;
    while i < rows.len()
        invariant
            i <= rows.len(),
            rows_view(rows@) == known_editors(),
            installed.len() == known_editors().len(),
            r.len() == i,
            forall|k: int| 0 <= k < i ==> describes_known_editor(#[trigger] r@[k], known_editors()[k], installed@[k]),
        decreases rows.len() - i,
    {
        assert(rows_view(rows@)[i as int] == (rows@[i as int].0@, rows@[i as int].1@, rows@[i as int].2@, rows@[i as int].3@, rows@[i as int].4@));
        let row = rows[i];
        let detected = installed[i];
        let path = if detected { bundle_path_exec(row.2) } else { String::new() };
        r.push(Editor {
            id: string_from(row.0),
            name: string_from(row.1),
            detected,
            path,
            accent: string_from(row.3),
            mark: make_mark(row.1),
            cmd: string_from(row.4),
        });
        i += 1;
    }
    r
}

pub open spec fn uppercase() -> spec_fn(char) -> bool {
    |c: char| char_is_uppercase(c)
}

/// The mark of a custom editor: the first two upper-case letters of its name,
/// or, if it has none, its first two characters upper-cased.
pub open spec fn custom_mark_spec(name: Seq<char>) -> Seq<char> {
    let upper = name.filter(uppercase());
    if upper.len() == 0 {
        str_uppercase(prefix_chars(name, 2))
    } else {
        prefix_chars(upper, 2)
    }
}

/// The mark of a custom editor.
pub fn custom_mark(name: &str) -> (r: String)
    ensures
        r@ == custom_mark_spec(name@),
{
    let cs = chars_of(name);
    let mut upper: Vec<char> = Vec::new();
    let mut i: usize = 0;
    while i < cs.len()
        invariant
            i <= cs.len(),
            upper@ == cs@.take(i as int).filter(uppercase()),
        decreases cs.len() - i,
    {
        assert(cs@.take(i + 1) == cs@.take(i as int).push(cs@[i as int]));
        proof {
            cs@.take(i as int).lemma_filter_push(cs@[i as int], uppercase());
        }
        if is_uppercase(cs[i]) {
            upper.push(cs[i]);
        }
        i += 1;
    }
    assert(cs@.take(cs.len() as int) == cs@);
    if upper.len() == 0 {
        let two = first_chars(&cs, 2);
        to_uppercase(two.as_str())
    } else {
        first_chars(&upper, 2)
    }
}

/// The accent color given to custom editors.
pub open spec fn custom_accent() -> Seq<char> {
    "#7C6BFF"@
}

/// A custom editor as the settings add it: detected, with the custom accent
/// and a mark derived from its name.
pub fn custom_editor(id: String, name: String, path: String, cmd: String) -> (r: Editor)
    ensures
        r.id == id,
        r.name == name,
        r.detected,
        r.path == path,
        r.accent@ == custom_accent(),
        r.mark@ == custom_mark_spec(name@),
        r.cmd == cmd,
{
    let mark = custom_mark(name.as_str());
    Editor { id, name, detected: true, path, accent: string_from("#7C6BFF"), mark, cmd }
}

/// Every ' ' replaced by `to`.
pub open spec fn spaces_to(s: Seq<char>, to: char) -> Seq<char> {
    s.map_values(|c: char| if c == ' ' { to } else { c })
}

fn replace_spaces(s: &str, to: char) -> (r: String)
    ensures
        r@ == spaces_to(s@, to),
{
    let cs = chars_of(s);
    let mut out: Vec<char> = Vec::new();
    let mut i: usize = 0;
    while i < cs.len()
        invariant
            i <= cs.len(),
            out@ == spaces_to(cs@.take(i as int), to),
        decreases cs.len() - i,
    {
        let c = cs[i];
        out.push(if c == ' ' { to } else { c });
        assert(cs@.take(i + 1) == cs@.take(i as int).push(c));
        i += 1;
    }
    assert(cs@.take(cs.len() as int) == cs@);
    string_of(&out)
}

/// The id of a custom editor: "custom_" and its lower-cased name with spaces
/// as underscores.
pub fn custom_editor_id(name: &str) -> (r: String)
    ensures
        r@ == "custom_"@ + spaces_to(str_lowercase(name@), '_'),
{
    let lower = to_lowercase(name);
    let tail = replace_spaces(lower.as_str(), '_');
    let mut r = string_from("custom_");
    push_all(&mut r, tail.as_str());
    r
}

/// What `Path::file_stem` gives for a path, as a string.
pub uninterp spec fn path_file_stem(path: Seq<char>) -> Option<Seq<char>>;

/// Calls `std::path::Path::file_stem` and converts the stem to a string.
#[verifier::external_body]
fn file_stem(path: &str) -> (r: Option<String>)
    ensures
        crate::models::opt_chars(r) == path_file_stem(path@),
{
    match std::path::Path::new(path).file_stem() {
        Some(s) => match s.to_str() {
            Some(t) => Some(t.to_string()),
            None => None,
        },
        None => None,
    }
}

/// The command of a custom editor: the stem of its bundle path (or its name),
/// lower-cased, with spaces as hyphens.
pub open spec fn custom_cmd_spec(name: Seq<char>, path: Seq<char>) -> Seq<char> {
    let base = match path_file_stem(path) {
        Some(s) => s,
        None => name,
    };
    spaces_to(str_lowercase(base), '-')
}

/// The command of a custom editor.
pub fn custom_editor_cmd(name: &str, path: &str) -> (r: String)
    ensures
        r@ == custom_cmd_spec(name@, path@),
{
    let base = match file_stem(path) {
        Some(s) => s,
        None => string_from(name),
    };
    let lower = to_lowercase(base.as_str());
    replace_spaces(lower.as_str(), '-')
}

} // verus!
