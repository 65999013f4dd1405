//! What the screens show: the navigation selection, repository glyphs and
//! status pills, relative times, and which repositories each view lists.

use vstd::prelude::*;
use pulldown_cmark::{html, Event, Options, Parser};
use crate::models::{opt_chars, ActivityItem, Contributor, Editor, Folder, RepoSummary, WorkingTreeStatus};
use crate::order::{chars_le, chars_le_exec, is_stable_order, opt_chars_le, opt_vec_chars, stable_order, SortKey};
use crate::git::{at_most, commits_total, texts_view};
use crate::search::{first_index, lemma_first_index_is, lemma_first_index_none};
use crate::text::{
    chars_of, contains_chars, decimal, str_contains, str_lowercase, to_lowercase, decimal_string, first_chars, prefix_chars, push_all, push_decimal, split_words,
    str_uppercase, string_from, to_uppercase, words_of, Separator,
};

verus! {

// ── Navigation ──────────────────────────────────────────────────────────────

/// The kind of thing the navigation has selected.
#[derive(PartialEq, Eq, Structural, Clone, Copy, Debug)]
pub enum NavKind {
    /// A built-in view: "dashboard", "all", "activity", "uncommitted", "stale".
    Smart,
    Folder,
    Repo,
}

/// What the navigation has selected: a kind and an id.
pub struct Selection {
    pub kind: NavKind,
    pub id: String,
}

impl Selection {
    /// Selects the built-in view `id`.
    pub fn smart(id: &str) -> (r: Self)
        ensures
            r.kind == NavKind::Smart,
            r.id@ == id@,
    {
        Selection { kind: NavKind::Smart, id: string_from(id) }
    }

    /// Selects folder `id`.
    pub fn folder(id: &str) -> (r: Self)
        ensures
            r.kind == NavKind::Folder,
            r.id@ == id@,
    {
        Selection { kind: NavKind::Folder, id: string_from(id) }
    }

    /// Selects repository `id`.
    pub fn repo(id: &str) -> (r: Self)
        ensures
            r.kind == NavKind::Repo,
            r.id@ == id@,
    {
        Selection { kind: NavKind::Repo, id: string_from(id) }
    }

    /// This selection is the built-in view `id`.
    pub fn is_smart(&self, id: &str) -> (r: bool)
        ensures
            r == (self.kind == NavKind::Smart && self.id@ == id@),
    {
        self.kind == NavKind::Smart && crate::text::str_eq(self.id.as_str(), id)
    }
}

impl Clone for Selection {
    fn clone(&self) -> (r: Self)
        ensures
            r.kind == self.kind,
            r.id@ == self.id@,
    {
        Selection { kind: self.kind, id: self.id.clone() }
    }
}

// ── Glyphs ──────────────────────────────────────────────────────────────────

/// The two-letter glyph of a repository name: the initials of its first two
/// alphanumeric parts if it has more than one, else its first two
/// characters; upper-cased.
pub open spec fn glyph_spec(name: Seq<char>) -> Seq<char> {
    let parts = words_of(name, Separator::NonAlphanumeric);
    str_uppercase(
        if parts.len() > 1 {
            seq![parts[0][0], parts[1][0]]
        } else {
            prefix_chars(name, 2)
        },
    )
}

/// The glyph shown for a repository called `name`.
pub fn glyph_for(name: &str) -> (r: String)
    ensures
        r@ == glyph_spec(name@),
{
    let parts = split_words(name, Separator::NonAlphanumeric);
    proof {
        crate::text::lemma_words_not_empty(name@, Separator::NonAlphanumeric);
    }
    let m = if parts.len() > 1 {
        assert(parts@[0]@ == words_of(name@, Separator::NonAlphanumeric)[0]);
        assert(parts@[1]@ == words_of(name@, Separator::NonAlphanumeric)[1]);
        let mut m = String::new();
        m.push(parts[0][0]);
        m.push(parts[1][0]);
        assert(m@ =~= seq![parts@[0]@[0], parts@[1]@[0]]);
        m
    } else {
        let cs = chars_of(name);
        first_chars(&cs, 2)
    };
    to_uppercase(m.as_str())
}

// ── Status pills ────────────────────────────────────────────────────────────

/// "`n` change" or "`n` changes".
pub open spec fn change_label_spec(n: nat) -> Seq<char> {
    decimal(n) + " change"@ + (if n == 1 { ""@ } else { "s"@ })
}

/// The count of changes, as the dashboard and the status pill print it.
pub fn change_label(n: u64) -> (r: String)
    ensures
        r@ == change_label_spec(n as nat),
{
    let mut r = decimal_string(n);
    push_all(&mut r, " change");
    if n != 1 {
        push_all(&mut r, "s");
    } else {
        proof {
            reveal_strlit("");
        }
        assert(r@ =~= r@ + ""@);
    }
    r
}

/// The number of changed files of a working tree.
pub open spec fn change_count(s: WorkingTreeStatus) -> nat {
    (s.staged + s.modified + s.untracked) as nat
}

/// The status of a repository as a kind and a label: "dirty" with its change
/// count when the working tree is not clean, else "ahead" or "behind" with
/// the commit count, else "clean".
pub open spec fn status_kind_spec(s: WorkingTreeStatus) -> (Seq<char>, Seq<char>) {
    if !s.clean {
        ("dirty"@, change_label_spec(change_count(s)))
    } else if s.ahead > 0 {
        ("ahead"@, decimal(s.ahead as nat) + " ahead"@)
    } else if s.behind > 0 {
        ("behind"@, decimal(s.behind as nat) + " behind"@)
    } else {
        ("clean"@, "clean"@)
    }
}

/// The number of changed files of a working tree (`staged + modified + untracked`).
pub fn changes_of(s: &WorkingTreeStatus) -> (r: u64)
    ensures
        r == change_count(*s),
{
    s.staged as u64 + s.modified as u64 + s.untracked as u64
}

/// The pill says "dirty" exactly when the working tree is not clean, with the
/// count of staged, modified and untracked files; "ahead" or "behind" only for
/// a clean tree with commits to push or pull (ahead first); "clean" otherwise.
pub proof fn law_status_pill(s: WorkingTreeStatus)
    ensures
        (status_kind_spec(s).0 == "dirty"@) <==> !s.clean,
        !s.clean ==> status_kind_spec(s).1.len() > 0 && status_kind_spec(s).1 == decimal(
            (s.staged + s.modified + s.untracked) as nat,
        ) + " change"@ + (if s.staged + s.modified + s.untracked == 1 { ""@ } else { "s"@ }),
        (status_kind_spec(s).0 == "ahead"@) <==> (s.clean && s.ahead > 0),
        (status_kind_spec(s).0 == "behind"@) <==> (s.clean && s.ahead == 0 && s.behind > 0),
        (status_kind_spec(s).0 == "clean"@) <==> (s.clean && s.ahead == 0 && s.behind == 0),
{
    reveal_strlit("dirty");
    reveal_strlit("ahead");
    reveal_strlit("behind");
    reveal_strlit("clean");
    assert("dirty"@ != "ahead"@) by {
        assert("dirty"@[0] != "ahead"@[0]);
    }
    assert("dirty"@.len() != "behind"@.len());
    assert("dirty"@ != "clean"@) by {
        assert("dirty"@[0] != "clean"@[0]);
    }
    assert("ahead"@.len() != "behind"@.len());
    assert("ahead"@ != "clean"@) by {
        assert("ahead"@[0] != "clean"@[0]);
    }
    assert("behind"@.len() != "clean"@.len());
    assert(decimal((s.staged + s.modified + s.untracked) as nat).len() > 0);
}

/// The kind and label of a repository's status pill.
pub fn status_kind(repo: &RepoSummary) -> (r: (&'static str, String))
    ensures
        (r.0@, r.1@) == status_kind_spec(repo.status),
        (r.0@ == "dirty"@) <==> !repo.status.clean,
        (r.0@ == "clean"@) <==> (repo.status.clean && repo.status.ahead == 0 && repo.status.behind == 0),
{
    proof {
        law_status_pill(repo.status);
    }
    let s = &repo.status;
    if !s.clean {
        return ("dirty", change_label(changes_of(s)));
    }
    if s.ahead > 0 {
        let mut label = decimal_string(s.ahead as u64);
        push_all(&mut label, " ahead");
        return ("ahead", label);
    }
    if s.behind > 0 {
        let mut label = decimal_string(s.behind as u64);
        push_all(&mut label, " behind");
        return ("behind", label);
    }
    ("clean", string_from("clean"))
}

/// The icon of a status pill of kind `kind`.
pub open spec fn pill_icon_spec(kind: Seq<char>) -> Seq<char> {
    if kind == "clean"@ {
        "check"@
    } else if kind == "dirty"@ {
        "diff"@
    } else if kind == "ahead"@ {
        "arrowUp"@
    } else {
        "arrowDown"@
    }
}

/// The icon of a status pill of kind `kind`.
pub fn pill_icon(kind: &str) -> (r: &'static str)
    ensures
        r@ == pill_icon_spec(kind@),
{
    if crate::text::str_eq(kind, "clean") {
        "check"
    } else if crate::text::str_eq(kind, "dirty") {
        "diff"
    } else if crate::text::str_eq(kind, "ahead") {
        "arrowUp"
    } else {
        "arrowDown"
    }
}


// ── Relative times ──────────────────────────────────────────────────────────

/// Milliseconds in a minute, an hour and a day.
pub const MINUTE_MS: i128 = 60_000;
pub const HOUR_MS: i128 = 3_600_000;
pub const DAY_MS: i128 = 86_400_000;

/// The UNIX time in milliseconds of an RFC 3339 date-time text, if chrono
/// parses it.
pub uninterp spec fn rfc3339_millis(text: Seq<char>) -> Option<i64>;

/// Calls `chrono::DateTime::parse_from_rfc3339` and `timestamp_millis`: the
/// result is the named parse of `text`.
#[verifier::external_body]
fn parse_millis(text: &str) -> (r: Option<i64>)
    ensures
        r == rfc3339_millis(text@),
{
    match chrono::DateTime::parse_from_rfc3339(text) {
        Ok(t) => Some(t.timestamp_millis()),
        Err(_) => None,
    }
}

/// The UNIX time in milliseconds of midnight UTC on the calendar date
/// `text` ("YYYY-MM-DD"), if chrono parses it.
pub uninterp spec fn utc_midnight_millis(text: Seq<char>) -> Option<i64>;

/// Calls `chrono::NaiveDate::parse_from_str` with "%Y-%m-%d", takes midnight
/// (`and_hms_opt(0, 0, 0)`) in UTC (`and_utc`) and its `timestamp_millis`:
/// the result is the named time of `text`.
#[verifier::external_body]
fn midnight_millis(text: &str) -> (r: Option<i64>)
    ensures
        r == utc_midnight_millis(text@),
{
    match chrono::NaiveDate::parse_from_str(text, "%Y-%m-%d") {
        Ok(d) => match d.and_hms_opt(0, 0, 0) {
            Some(t) => Some(t.and_utc().timestamp_millis()),
            None => None,
        },
        Err(_) => None,
    }
}

/// A decimal digit.
pub open spec fn is_digit(c: char) -> bool {
    0x30 <= c as u32 <= 0x39
}

/// `t[from..to]` are digits.
pub open spec fn digits_between(t: Seq<char>, from: int, to: int) -> bool {
    forall|i: int| from <= i < to ==> is_digit(#[trigger] t[i])
}

/// The calendar date a date-only text names, as "YYYY-MM-DD": the text itself
/// for "YYYY-MM-DD", the first of the month for "YYYY-MM", the first of
/// January for "YYYY" (date-only forms stand for midnight UTC).
pub open spec fn iso_date_text(t: Seq<char>) -> Option<Seq<char>> {
    if t.len() == 10 && digits_between(t, 0, 4) && t[4] == '-' && digits_between(t, 5, 7) && t[7] == '-'
        && digits_between(t, 8, 10) {
        Some(t)
    } else if t.len() == 7 && digits_between(t, 0, 4) && t[4] == '-' && digits_between(t, 5, 7) {
        Some(t + "-01"@)
    } else if t.len() == 4 && digits_between(t, 0, 4) {
        Some(t + "-01-01"@)
    } else {
        None
    }
}

/// Whether `cs[from..to]` are digits.
fn digits_in(cs: &Vec<char>, from: usize, to: usize) -> (r: bool)
    requires
        from <= to <= cs.len(),
    ensures
        r == digits_between(cs@, from as int, to as int),
{
    let mut i = from;
    while i < to
        invariant
            from <= i <= to <= cs.len(),
            digits_between(cs@, from as int, i as int),
        decreases to - i,
    {
        let n = cs[i] as u32;
        if !(0x30 <= n && n <= 0x39) {
            return false;
        }
        i += 1;
    }
    true
}

/// The calendar date a date-only text names (see `iso_date_text`).
pub fn iso_date_form(text: &str) -> (r: Option<String>)
    ensures
        opt_chars(r) == iso_date_text(text@),
{
    let cs = chars_of(text);
    let n = cs.len();
    if n == 10 && digits_in(&cs, 0, 4) && cs[4] == '-' && digits_in(&cs, 5, 7) && cs[7] == '-' && digits_in(&cs, 8, 10) {
        Some(string_from(text))
    } else if n == 7 && digits_in(&cs, 0, 4) && cs[4] == '-' && digits_in(&cs, 5, 7) {
        let mut d = string_from(text);
        push_all(&mut d, "-01");
        Some(d)
    } else if n == 4 && digits_in(&cs, 0, 4) {
        let mut d = string_from(text);
        push_all(&mut d, "-01-01");
        Some(d)
    } else {
        None
    }
}

/// The UNIX time in milliseconds a date text names: an RFC 3339 date-time,
/// or a date-only form at midnight UTC.
pub open spec fn date_millis_spec(text: Seq<char>) -> Option<i64> {
    match rfc3339_millis(text) {
        Some(t) => Some(t),
        None => match iso_date_text(text) {
            Some(d) => utc_midnight_millis(d),
            None => None,
        },
    }
}

/// The UNIX time in milliseconds a date text names, if it names one.
pub fn date_millis(text: &str) -> (r: Option<i64>)
    ensures
        r == date_millis_spec(text@),
{
    match parse_millis(text) {
        Some(t) => Some(t),
        None => match iso_date_form(text) {
            Some(d) => midnight_millis(d.as_str()),
            None => None,
        },
    }
}

/// The milliseconds from the date `text` to `now_ms`, or `None` if the text
/// is no date.
pub open spec fn elapsed_spec(text: Seq<char>, now_ms: i64) -> Option<int> {
    match date_millis_spec(text) {
        Some(t) => Some(now_ms - t),
        None => None,
    }
}

/// The milliseconds from the date `text` to `now_ms`, or `None` if the text
/// is no date.
pub fn elapsed_ms(text: &str, now_ms: i64) -> (r: Option<i128>)
    ensures
        match r {
            Some(d) => elapsed_spec(text@, now_ms) == Some(d as int),
            None => elapsed_spec(text@, now_ms) is None,
        },
{
    match date_millis(text) {
        Some(t) => Some(now_ms as i128 - t as i128),
        None => None,
    }
}

/// How long ago something happened, in the largest whole unit below the next:
/// "just now" under a minute (and for times ahead), then minutes, hours,
/// days, weeks (under 35 days), months of 30 days (under 360 days), years of
/// 365 days. A text that is no date reads "0y ago".
pub open spec fn age_label_spec(elapsed: Option<int>) -> Seq<char> {
    match elapsed {
        None => "0y ago"@,
        Some(d) => if d < 60_000 {
            "just now"@
        } else if d < 3_600_000 {
            decimal((d / 60_000) as nat) + "m ago"@
        } else if d < 86_400_000 {
            decimal((d / 3_600_000) as nat) + "h ago"@
        } else if d < 604_800_000 {
            decimal((d / 86_400_000) as nat) + "d ago"@
        } else if d < 3_024_000_000 {
            decimal((d / 604_800_000) as nat) + "w ago"@
        } else if d < 31_104_000_000 {
            decimal((d / 2_592_000_000) as nat) + "mo ago"@
        } else {
            decimal((d / 31_536_000_000) as nat) + "y ago"@
        },
    }
}

/// A whole count of `unit` in `d`, followed by `suffix`.
fn count_of_units(d: i128, unit: i128, suffix: &str) -> (r: String)
    requires
        0 <= d < 0x4_0000_0000_0000_0000,
        unit >= 60_000,
    ensures
        r@ == decimal((d / unit) as nat) + suffix@,
{
    let q = d / unit;
    assert(0 <= q < 0x1_0000_0000_0000_0000) by (nonlinear_arith)
        requires
            0 <= d < 0x4_0000_0000_0000_0000,
            unit >= 60_000,
            q == d / unit,
    ;
    let mut r = String::new();
    push_decimal(&mut r, q as u64);
    push_all(&mut r, suffix);
    assert(r@ == decimal((d / unit) as nat) + suffix@);
    r
}

/// How an age is told: under a minute (or ahead) as "just now"; then in
/// whole minutes (1 to 59), hours (1 to 23), days (1 to 6), weeks (1 to 4,
/// from seven days to under five weeks), months of 30 days (1 to 11, from 35
/// days to under 360) and years of 365 days. Only the years can read 0, for
/// ages from 360 to 364 days, as months stop at twelve.
pub proof fn law_age_units(d: int)
    ensures
        d < 60_000 ==> age_label_spec(Some(d)) == "just now"@,
        60_000 <= d < 3_600_000 ==> age_label_spec(Some(d)) == decimal((d / 60_000) as nat) + "m ago"@
            && 1 <= d / 60_000 <= 59,
        3_600_000 <= d < 86_400_000 ==> age_label_spec(Some(d)) == decimal((d / 3_600_000) as nat) + "h ago"@
            && 1 <= d / 3_600_000 <= 23,
        86_400_000 <= d < 604_800_000 ==> age_label_spec(Some(d)) == decimal((d / 86_400_000) as nat) + "d ago"@
            && 1 <= d / 86_400_000 <= 6,
        604_800_000 <= d < 3_024_000_000 ==> age_label_spec(Some(d)) == decimal((d / 604_800_000) as nat)
            + "w ago"@ && 1 <= d / 604_800_000 <= 4,
        3_024_000_000 <= d < 31_104_000_000 ==> age_label_spec(Some(d)) == decimal((d / 2_592_000_000) as nat)
            + "mo ago"@ && 1 <= d / 2_592_000_000 <= 11,
        31_104_000_000 <= d ==> age_label_spec(Some(d)) == decimal((d / 31_536_000_000) as nat) + "y ago"@,
{
}

/// The label of an elapsed time (see `age_label_spec`).
pub fn age_label(elapsed: Option<i128>) -> (r: String)
    requires
        match elapsed {
            Some(d) => d < 0x4_0000_0000_0000_0000,
            None => true,
        },
    ensures
        r@ == age_label_spec(match elapsed {
            Some(d) => Some(d as int),
            None => None,
        }),
        elapsed matches Some(d) ==> (604_800_000 <= d < 3_024_000_000 ==> r@ == decimal((d / 604_800_000) as nat)
            + "w ago"@),
{
    proof {
        if let Some(d) = elapsed {
            law_age_units(d as int);
        }
    }
    match elapsed {
        None => string_from("0y ago"),
        Some(d) => if d < MINUTE_MS {
            string_from("just now")
        } else if d < HOUR_MS {
            count_of_units(d, MINUTE_MS, "m ago")
        } else if d < DAY_MS {
            count_of_units(d, HOUR_MS, "h ago")
        } else if d < 7 * DAY_MS {
            count_of_units(d, DAY_MS, "d ago")
        } else if d < 35 * DAY_MS {
            count_of_units(d, 7 * DAY_MS, "w ago")
        } else if d < 360 * DAY_MS {
            count_of_units(d, 30 * DAY_MS, "mo ago")
        } else {
            count_of_units(d, 365 * DAY_MS, "y ago")
        },
    }
}

/// How long ago `date` was, as of `now_ms`: nothing for a missing or empty
/// date, else its age label.
pub open spec fn from_now_spec(date: Option<Seq<char>>, now_ms: i64) -> Seq<char> {
    match date {
        None => ""@,
        Some(s) => if s.len() == 0 {
            ""@
        } else {
            age_label_spec(elapsed_spec(s, now_ms))
        },
    }
}

/// How long ago `date` was, as of `now_ms` (milliseconds since the epoch).
pub fn from_now(date: &Option<String>, now_ms: i64) -> (r: String)
    ensures
        r@ == from_now_spec(opt_chars(*date), now_ms),
{
    proof {
        reveal_strlit("");
    }
    match date {
        None => String::new(),
        Some(s) => if s.as_str().is_empty() {
            String::new()
        } else {
            age_label(elapsed_ms(s.as_str(), now_ms))
        },
    }
}

/// Thirty days have passed since the elapsed time started; a text that is no
/// date is never stale.
pub open spec fn stale_age_spec(elapsed: Option<int>) -> bool {
    match elapsed {
        Some(d) => d > 30 * 86_400_000,
        None => false,
    }
}

/// Whether an elapsed time counts as stale.
pub fn stale_age(elapsed: Option<i128>) -> (r: bool)
    ensures
        r == stale_age_spec(match elapsed {
            Some(d) => Some(d as int),
            None => None,
        }),
{
    match elapsed {
        Some(d) => d > 30 * DAY_MS,
        None => false,
    }
}

/// A repository whose last commit is unknown, or more than thirty days old.
pub open spec fn is_stale_spec(last_commit_at: Option<Seq<char>>, now_ms: i64) -> bool {
    match last_commit_at {
        None => true,
        Some(s) => stale_age_spec(elapsed_spec(s, now_ms)),
    }
}

/// A repository is stale exactly when it has no last commit, or its last
/// commit's date is more than thirty days (2 592 000 000 ms) before now; a
/// text that is no date is never stale. The activity groups split at one,
/// two and seven days.
pub proof fn law_staleness_and_groups(text: Seq<char>, now_ms: i64)
    ensures
        is_stale_spec(None, now_ms),
        is_stale_spec(Some(text), now_ms) <==> (date_millis_spec(text) matches Some(t) && now_ms - t > 2_592_000_000),
        text.len() > 0 ==> time_bucket_spec(Some(text), now_ms) == match date_millis_spec(text) {
            Some(t) => if now_ms - t < 86_400_000 {
                0u8
            } else if now_ms - t < 172_800_000 {
                1u8
            } else if now_ms - t < 604_800_000 {
                2u8
            } else {
                3u8
            },
            None => 3u8,
        },
        time_bucket_spec(None, now_ms) == 3,
{
}

/// Whether a repository with last commit `last_commit_at` is stale at `now_ms`.
pub fn is_stale(last_commit_at: &Option<String>, now_ms: i64) -> (r: bool)
    ensures
        r == is_stale_spec(opt_chars(*last_commit_at), now_ms),
        r <==> match *last_commit_at {
            None => true,
            Some(s) => date_millis_spec(s@) matches Some(t) && now_ms - t > 2_592_000_000,
        },
{
    proof {
        if let Some(s) = last_commit_at {
            law_staleness_and_groups(s@, now_ms);
        }
    }
    match last_commit_at {
        None => true,
        Some(s) => stale_age(elapsed_ms(s.as_str(), now_ms)),
    }
}

/// The group of the activity feed for an elapsed time: 0 for under a day,
/// 1 for under two days, 2 for under a week, 3 for older ones and for
/// texts that are no date.
pub open spec fn age_bucket_spec(elapsed: Option<int>) -> u8 {
    match elapsed {
        Some(d) => if d < 86_400_000 {
            0
        } else if d < 2 * 86_400_000 {
            1
        } else if d < 7 * 86_400_000 {
            2
        } else {
            3
        },
        None => 3,
    }
}

/// The activity group of an elapsed time.
pub fn age_bucket(elapsed: Option<i128>) -> (r: u8)
    ensures
        r == age_bucket_spec(match elapsed {
            Some(d) => Some(d as int),
            None => None,
        }),
{
    match elapsed {
        Some(d) => if d < DAY_MS {
            0
        } else if d < 2 * DAY_MS {
            1
        } else if d < 7 * DAY_MS {
            2
        } else {
            3
        },
        None => 3,
    }
}

/// The activity group of a commit date (3 when missing or empty).
pub open spec fn time_bucket_spec(date: Option<Seq<char>>, now_ms: i64) -> u8 {
    match date {
        Some(s) => if s.len() == 0 {
            3
        } else {
            age_bucket_spec(elapsed_spec(s, now_ms))
        },
        None => 3,
    }
}

/// The activity group ("Today", "Yesterday", "This Week", "Older") of a
/// commit date, as 0 to 3.
pub fn time_bucket(date: &Option<String>, now_ms: i64) -> (r: u8)
    ensures
        r == time_bucket_spec(opt_chars(*date), now_ms),
{
    match date {
        None => 3,
        Some(s) => if s.as_str().is_empty() {
            3
        } else {
            age_bucket(elapsed_ms(s.as_str(), now_ms))
        },
    }
}


// ── Which repositories a view lists ─────────────────────────────────────────

/// The positions below `n` that satisfy `p`, in increasing order.
pub open spec fn positions_where(n: nat, p: spec_fn(int) -> bool) -> Seq<usize>
    decreases n,
{
    if n == 0 {
        seq![]
    } else {
        let earlier = positions_where((n - 1) as nat, p);
        if p(n - 1) {
            earlier.push((n - 1) as usize)
        } else {
            earlier
        }
    }
}

/// Every position.
pub open spec fn any_position() -> spec_fn(int) -> bool {
    |i: int| true
}

/// Repositories whose working tree is not clean.
pub open spec fn dirty_at(repos: Seq<RepoSummary>) -> spec_fn(int) -> bool {
    |i: int| !repos[i].status.clean
}

/// Repositories that are stale at `now_ms`.
pub open spec fn stale_at(repos: Seq<RepoSummary>, now_ms: i64) -> spec_fn(int) -> bool {
    |i: int| is_stale_spec(opt_chars(repos[i].last_commit_at), now_ms)
}

/// Favorite repositories.
pub open spec fn favorite_at(repos: Seq<RepoSummary>) -> spec_fn(int) -> bool {
    |i: int| repos[i].favorite
}

/// Repositories in folder `id`.
pub open spec fn in_folder_at(repos: Seq<RepoSummary>, id: Seq<char>) -> spec_fn(int) -> bool {
    |i: int| repos[i].folder_id@ == id
}

/// Repositories in folder `id` whose working tree is not clean.
pub open spec fn dirty_in_folder_at(repos: Seq<RepoSummary>, id: Seq<char>) -> spec_fn(int) -> bool {
    |i: int| repos[i].folder_id@ == id && !repos[i].status.clean
}

/// `out` lists, in increasing order, exactly the positions below `n` that
/// satisfy `p`.
pub open spec fn lists_exactly(out: Seq<usize>, n: nat, p: spec_fn(int) -> bool) -> bool {
    &&& forall|k: int| 0 <= k < out.len() ==> (#[trigger] out[k]) < n && p(out[k] as int)
    &&& forall|k: int, l: int| 0 <= k < l < out.len() ==> out[k] < out[l]
    &&& forall|i: int| 0 <= i < n && #[trigger] p(i) ==> out.contains(i as usize)
}

/// `positions_where` lists exactly the positions that satisfy its predicate.
pub proof fn lemma_positions_where_exact(n: nat, p: spec_fn(int) -> bool)
    requires
        n <= usize::MAX,
    ensures
        lists_exactly(positions_where(n, p), n, p),
    decreases n,
{
    lemma_positions_below(n, p);
    if n > 0 {
        lemma_positions_where_exact((n - 1) as nat, p);
        let earlier = positions_where((n - 1) as nat, p);
        let all = positions_where(n, p);
        assert forall|i: int| 0 <= i < n && #[trigger] p(i) implies all.contains(i as usize) by {
            if i < n - 1 {
                assert(earlier.contains(i as usize));
                let k = choose|k: int| 0 <= k < earlier.len() && earlier[k] == i as usize;
                if p(n - 1) {
                    assert(all[k] == earlier[k]);
                }
            } else {
                assert(all[all.len() - 1] == (n - 1) as usize);
            }
        }
    }
}

/// The "uncommitted" view and the dashboard's attention list hold exactly the
/// repositories whose working tree is not clean, in list order.
pub proof fn law_uncommitted_lists_unclean(repos: Seq<RepoSummary>, now_ms: i64)
    requires
        repos.len() <= usize::MAX,
    ensures
        lists_exactly(visible_spec(NavKind::Smart, "uncommitted"@, repos, now_ms), repos.len(), |i: int| !repos[i].status.clean),
        lists_exactly(positions_where(repos.len(), dirty_at(repos)), repos.len(), |i: int| !repos[i].status.clean),
{
    lemma_positions_where_exact(repos.len(), dirty_at(repos));
    assert(dirty_at(repos) =~= |i: int| !repos[i].status.clean);
}

/// All positions of `repos`.
pub fn all_positions(repos: &Vec<RepoSummary>) -> (r: Vec<usize>)
    ensures
        r@ == positions_where(repos.len() as nat, any_position()),
{
    let mut r: Vec<usize> = Vec::new();
    let mut i: usize = 0;
    while i < repos.len()
        invariant
            i <= repos.len(),
            r@ == positions_where(i as nat, any_position()),
        decreases repos.len() - i,
    {
        r.push(i);
        i += 1;
    }
    r
}

/// The positions of the repositories whose working tree is not clean.
pub fn dirty_positions(repos: &Vec<RepoSummary>) -> (r: Vec<usize>)
    ensures
        r@ == positions_where(repos.len() as nat, dirty_at(repos@)),
        lists_exactly(r@, repos.len() as nat, |i: int| !repos@[i].status.clean),
{
    let mut r: Vec<usize> = Vec::new();
    let mut i: usize = 0;
    while i < repos.len()
        invariant
            i <= repos.len(),
            r@ == positions_where(i as nat, dirty_at(repos@)),
        decreases repos.len() - i,
    {
        if !repos[i].status.clean {
            r.push(i);
        }
        i += 1;
    }
    proof {
        law_uncommitted_lists_unclean(repos@, 0);
    }
    r
}

/// The positions of the repositories that are stale at `now_ms`.
pub fn stale_positions(repos: &Vec<RepoSummary>, now_ms: i64) -> (r: Vec<usize>)
    ensures
        r@ == positions_where(repos.len() as nat, stale_at(repos@, now_ms)),
{
    let mut r: Vec<usize> = Vec::new();
    let mut i: usize = 0;
    while i < repos.len()
        invariant
            i <= repos.len(),
            r@ == positions_where(i as nat, stale_at(repos@, now_ms)),
        decreases repos.len() - i,
    {
        if is_stale(&repos[i].last_commit_at, now_ms) {
            r.push(i);
        }
        i += 1;
    }
    r
}

/// The positions of the favorite repositories.
pub fn favorite_positions(repos: &Vec<RepoSummary>) -> (r: Vec<usize>)
    ensures
        r@ == positions_where(repos.len() as nat, favorite_at(repos@)),
{
    let mut r: Vec<usize> = Vec::new();
    let mut i: usize = 0;
    while i < repos.len()
        invariant
            i <= repos.len(),
            r@ == positions_where(i as nat, favorite_at(repos@)),
        decreases repos.len() - i,
    {
        if repos[i].favorite {
            r.push(i);
        }
        i += 1;
    }
    r
}

/// The positions of the repositories in folder `folder_id`.
pub fn folder_positions(repos: &Vec<RepoSummary>, folder_id: &str) -> (r: Vec<usize>)
    ensures
        r@ == positions_where(repos.len() as nat, in_folder_at(repos@, folder_id@)),
{
    let mut r: Vec<usize> = Vec::new();
    let mut i: usize = 0;
    while i < repos.len()
        invariant
            i <= repos.len(),
            r@ == positions_where(i as nat, in_folder_at(repos@, folder_id@)),
        decreases repos.len() - i,
    {
        if crate::text::str_eq(repos[i].folder_id.as_str(), folder_id) {
            r.push(i);
        }
        i += 1;
    }
    r
}

/// The number of repositories in folder `folder_id`, and how many of them
/// have a working tree that is not clean (the sidebar's count and badge).
pub fn folder_counts(repos: &Vec<RepoSummary>, folder_id: &str) -> (r: (usize, usize))
    ensures
        r.0 == positions_where(repos.len() as nat, in_folder_at(repos@, folder_id@)).len(),
        r.1 == positions_where(repos.len() as nat, dirty_in_folder_at(repos@, folder_id@)).len(),
{
    let mut count: usize = 0;
    let mut dirty: usize = 0;
    let mut i: usize = 0;
    while i < repos.len()
        invariant
            i <= repos.len(),
            count == positions_where(i as nat, in_folder_at(repos@, folder_id@)).len(),
            dirty == positions_where(i as nat, dirty_in_folder_at(repos@, folder_id@)).len(),
            count <= i,
            dirty <= i,
        decreases repos.len() - i,
    {
        if crate::text::str_eq(repos[i].folder_id.as_str(), folder_id) {
            count += 1;
            if !repos[i].status.clean {
                dirty += 1;
            }
        }
        i += 1;
    }
    (count, dirty)
}

/// The repositories the list shows for a selection: for the built-in views
/// "uncommitted" and "stale" those that are dirty or stale, for a folder
/// those in it, and otherwise all of them.
pub open spec fn visible_spec(kind: NavKind, id: Seq<char>, repos: Seq<RepoSummary>, now_ms: i64) -> Seq<usize> {
    let n = repos.len();
    match kind {
        NavKind::Smart => if id == "uncommitted"@ {
            positions_where(n, dirty_at(repos))
        } else if id == "stale"@ {
            positions_where(n, stale_at(repos, now_ms))
        } else {
            positions_where(n, any_position())
        },
        NavKind::Folder => positions_where(n, in_folder_at(repos, id)),
        NavKind::Repo => positions_where(n, any_position()),
    }
}

/// The positions of the repositories the list shows for `sel` at `now_ms`.
pub fn visible_repos(sel: &Selection, repos: &Vec<RepoSummary>, now_ms: i64) -> (r: Vec<usize>)
    ensures
        r@ == visible_spec(sel.kind, sel.id@, repos@, now_ms),
        sel.kind == NavKind::Smart && sel.id@ == "uncommitted"@ ==> lists_exactly(r@, repos.len() as nat, |i: int|
            !repos@[i].status.clean),
{
    match sel.kind {
        NavKind::Smart => if crate::text::str_eq(sel.id.as_str(), "uncommitted") {
            dirty_positions(repos)
        } else if crate::text::str_eq(sel.id.as_str(), "stale") {
            stale_positions(repos, now_ms)
        } else {
            all_positions(repos)
        },
        NavKind::Folder => folder_positions(repos, sel.id.as_str()),
        NavKind::Repo => all_positions(repos),
    }
}

/// Selects repositories with id `id`.
pub open spec fn repo_has_id(id: Seq<char>) -> spec_fn(RepoSummary) -> bool {
    |r: RepoSummary| r.id@ == id
}

/// The position of the selected repository: the first with the selected id
/// when a repository is selected.
pub open spec fn selected_spec(kind: NavKind, id: Seq<char>, repos: Seq<RepoSummary>) -> Option<int> {
    if kind == NavKind::Repo {
        first_index(repos, repo_has_id(id))
    } else {
        None
    }
}

/// The position of the repository that `sel` selects, if any.
pub fn selected_repo(sel: &Selection, repos: &Vec<RepoSummary>) -> (r: Option<usize>)
    ensures
        match r {
            Some(i) => i < repos.len() && selected_spec(sel.kind, sel.id@, repos@) == Some(i as int),
            None => selected_spec(sel.kind, sel.id@, repos@) is None,
        },
{
    if sel.kind != NavKind::Repo {
        return None;
    }
    let ghost p = repo_has_id(sel.id@);
    let mut i: usize = 0;
    while i < repos.len()
        invariant
            i <= repos.len(),
            sel.kind == NavKind::Repo,
            p == repo_has_id(sel.id@),
            forall|k: int| 0 <= k < i ==> !p(#[trigger] repos@[k]),
        decreases repos.len() - i,
    {
        if crate::text::str_eq(repos[i].id.as_str(), sel.id.as_str()) {
            proof {
                lemma_first_index_is(repos@, p, i as int);
            }
            return Some(i);
        }
        i += 1;
    }
    proof {
        lemma_first_index_none(repos@, p);
    }
    None
}

/// The color shown for folder `folder_id`: that of the first folder with the
/// id, or the default accent.
pub open spec fn folder_color_spec(folders: Seq<Folder>, folder_id: Seq<char>) -> Seq<char> {
    match first_index(folders, |f: Folder| f.id@ == folder_id) {
        Some(i) => folders[i].color@,
        None => "#7C6BFF"@,
    }
}

/// The color of folder `folder_id`.
pub fn folder_color(folders: &Vec<Folder>, folder_id: &str) -> (r: String)
    ensures
        r@ == folder_color_spec(folders@, folder_id@),
{
    let ghost p = |f: Folder| f.id@ == folder_id@;
    let mut i: usize = 0;
    while i < folders.len()
        invariant
            i <= folders.len(),
            p == (|f: Folder| f.id@ == folder_id@),
            forall|k: int| 0 <= k < i ==> !p(#[trigger] folders@[k]),
        decreases folders.len() - i,
    {
        if crate::text::str_eq(folders[i].id.as_str(), folder_id) {
            proof {
                lemma_first_index_is(folders@, p, i as int);
            }
            return folders[i].color.clone();
        }
        i += 1;
    }
    proof {
        lemma_first_index_none(folders@, p);
    }
    string_from("#7C6BFF")
}


// ── Searching and ordering the list ─────────────────────────────────────────

/// A repository matches the lower-cased query `q` when `q` is empty or occurs
/// in its lower-cased name or path.
pub open spec fn matches_query(q: Seq<char>, r: RepoSummary) -> bool {
    q.len() == 0 || contains_chars(str_lowercase(r.name@), q) || contains_chars(str_lowercase(r.path@), q)
}

/// Repositories that match the lower-cased query `q`.
pub open spec fn matching_at(repos: Seq<RepoSummary>, q: Seq<char>) -> spec_fn(int) -> bool {
    |i: int| matches_query(q, repos[i])
}

/// A search lists, in list order, exactly the repositories whose lower-cased
/// name or path contains the lower-cased query, and all of them for an empty
/// query.
pub proof fn law_search_lists_matches(repos: Seq<RepoSummary>, q: Seq<char>)
    requires
        repos.len() <= usize::MAX,
    ensures
        lists_exactly(positions_where(repos.len(), matching_at(repos, q)), repos.len(), |i: int| q.len() == 0
            || contains_chars(str_lowercase(repos[i].name@), q) || contains_chars(str_lowercase(repos[i].path@), q)),
{
    lemma_positions_where_exact(repos.len(), matching_at(repos, q));
    assert(matching_at(repos, q) =~= |i: int| q.len() == 0 || contains_chars(str_lowercase(repos[i].name@), q)
        || contains_chars(str_lowercase(repos[i].path@), q));
}

/// The positions of the repositories that match `query`, ignoring case.
pub fn search_positions(repos: &Vec<RepoSummary>, query: &str) -> (r: Vec<usize>)
    ensures
        r@ == positions_where(repos.len() as nat, matching_at(repos@, str_lowercase(query@))),
        lists_exactly(r@, repos.len() as nat, |i: int| str_lowercase(query@).len() == 0
            || contains_chars(str_lowercase(repos@[i].name@), str_lowercase(query@))
            || contains_chars(str_lowercase(repos@[i].path@), str_lowercase(query@))),
{

    let q = to_lowercase(query);
    let mut r: Vec<usize> = Vec::new();
    let mut i: usize = 0;
    while i < repos.len()
        invariant
            i <= repos.len(),
            q@ == str_lowercase(query@),
            r@ == positions_where(i as nat, matching_at(repos@, q@)),
        decreases repos.len() - i,
    {
        let hit = q.as_str().is_empty() || {
            let name = to_lowercase(repos[i].name.as_str());
            str_contains(name.as_str(), q.as_str())
        } || {
            let path = to_lowercase(repos[i].path.as_str());
            str_contains(path.as_str(), q.as_str())
        };
        if hit {
            r.push(i);
        }
        i += 1;
    }
    proof {
        law_search_lists_matches(repos@, str_lowercase(query@));
    }
    r
}

/// How the repository list is ordered.
#[derive(PartialEq, Eq, Structural, Clone, Copy, Debug)]
pub enum SortMode {
    /// By lower-cased name.
    Name,
    /// Latest commit first, repositories without commits last.
    Recent,
    /// Repositories with changes first, then by name.
    Status,
}

/// The order named by a sort selector: "recent", "status", or by name.
pub open spec fn sort_mode_spec(name: Seq<char>) -> SortMode {
    if name == "recent"@ {
        SortMode::Recent
    } else if name == "status"@ {
        SortMode::Status
    } else {
        SortMode::Name
    }
}

/// The order named by a sort selector.
pub fn sort_mode(name: &str) -> (r: SortMode)
    ensures
        r == sort_mode_spec(name@),
{
    if crate::text::str_eq(name, "recent") {
        SortMode::Recent
    } else if crate::text::str_eq(name, "status") {
        SortMode::Status
    } else {
        SortMode::Name
    }
}

/// The key a repository is ordered by.
pub enum RepoOrderKey {
    /// The lower-cased name.
    Name(Vec<char>),
    /// The date of the latest commit.
    Recent(Option<Vec<char>>),
    /// 0 for a repository with changes, 1 for a clean one; then the name.
    Status(u8, Vec<char>),
}

/// The position of a key's variant, which orders keys of different variants.
pub open spec fn key_variant(k: RepoOrderKey) -> int {
    match k {
        RepoOrderKey::Name(_) => 0,
        RepoOrderKey::Recent(_) => 1,
        RepoOrderKey::Status(_, _) => 2,
    }
}

impl SortKey for RepoOrderKey {
    open spec fn key_le(&self, other: &Self) -> bool {
        match (*self, *other) {
            (RepoOrderKey::Name(a), RepoOrderKey::Name(b)) => chars_le(a@, b@),
            (RepoOrderKey::Recent(a), RepoOrderKey::Recent(b)) => opt_chars_le(opt_vec_chars(b), opt_vec_chars(a)),
            (RepoOrderKey::Status(ra, a), RepoOrderKey::Status(rb, b)) => ra < rb || (ra == rb && chars_le(a@, b@)),
            _ => key_variant(*self) < key_variant(*other),
        }
    }

    proof fn lemma_key_total(a: &Self, b: &Self) {
        match (*a, *b) {
            (RepoOrderKey::Name(x), RepoOrderKey::Name(y)) => crate::order::lemma_chars_le_total(x@, y@),
            (RepoOrderKey::Recent(Some(x)), RepoOrderKey::Recent(Some(y))) => crate::order::lemma_chars_le_total(x@, y@),
            (RepoOrderKey::Status(_, x), RepoOrderKey::Status(_, y)) => crate::order::lemma_chars_le_total(x@, y@),
            _ => {},
        }
    }

    proof fn lemma_key_trans(a: &Self, b: &Self, c: &Self) {
        match (*a, *b, *c) {
            (RepoOrderKey::Name(x), RepoOrderKey::Name(y), RepoOrderKey::Name(z)) => {
                crate::order::lemma_chars_le_trans(x@, y@, z@);
            },
            (RepoOrderKey::Recent(Some(x)), RepoOrderKey::Recent(Some(y)), RepoOrderKey::Recent(Some(z))) => {
                crate::order::lemma_chars_le_trans(z@, y@, x@);
            },
            (RepoOrderKey::Status(rx, x), RepoOrderKey::Status(ry, y), RepoOrderKey::Status(rz, z)) => {
                if rx == ry && ry == rz {
                    crate::order::lemma_chars_le_trans(x@, y@, z@);
                }
            },
            _ => {},
        }
    }

    fn le(&self, other: &Self) -> (r: bool) {
        match (self, other) {
            (RepoOrderKey::Name(a), RepoOrderKey::Name(b)) => chars_le_exec(a, b),
            (RepoOrderKey::Recent(a), RepoOrderKey::Recent(b)) => match (b, a) {
                (None, _) => true,
                (Some(_), None) => false,
                (Some(x), Some(y)) => chars_le_exec(x, y),
            },
            (RepoOrderKey::Status(ra, a), RepoOrderKey::Status(rb, b)) => *ra < *rb || (*ra == *rb
                && chars_le_exec(a, b)),
            (RepoOrderKey::Name(_), _) => true,
            (RepoOrderKey::Recent(_), RepoOrderKey::Status(_, _)) => true,
            _ => false,
        }
    }
}

/// `k` is the key of repository `r` in order `mode`.
pub open spec fn key_describes(mode: SortMode, r: RepoSummary, k: RepoOrderKey) -> bool {
    match mode {
        SortMode::Name => k matches RepoOrderKey::Name(t) && t@ == str_lowercase(r.name@),
        SortMode::Recent => k matches RepoOrderKey::Recent(d) && opt_vec_chars(d) == opt_chars(r.last_commit_at),
        SortMode::Status => k matches RepoOrderKey::Status(rank, t) && rank == (if r.status.clean { 1u8 } else { 0u8 })
            && t@ == r.name@,
    }
}

/// The key of `r` in order `mode`.
pub fn order_key(mode: SortMode, r: &RepoSummary) -> (k: RepoOrderKey)
    ensures
        key_describes(mode, *r, k),
{
    match mode {
        SortMode::Name => {
            let lower = to_lowercase(r.name.as_str());
            RepoOrderKey::Name(chars_of(lower.as_str()))
        },
        SortMode::Recent => {
            let d = crate::order::newest_first_key(&r.last_commit_at);
            RepoOrderKey::Recent(d.text)
        },
        SortMode::Status => RepoOrderKey::Status(if r.status.clean { 1 } else { 0 }, chars_of(r.name.as_str())),
    }
}

/// `out` lists the repositories at `positions` in order `mode`: `keys` are
/// their keys and `perm` the stable order of the keys (equal keys keep the
/// order of `positions`).
pub open spec fn is_repo_order(
    out: Seq<usize>,
    repos: Seq<RepoSummary>,
    positions: Seq<usize>,
    mode: SortMode,
    keys: Seq<RepoOrderKey>,
    perm: Seq<usize>,
) -> bool {
    &&& keys.len() == positions.len()
    &&& forall|i: int| 0 <= i < keys.len() ==> key_describes(mode, repos[positions[i] as int], #[trigger] keys[i])
    &&& is_stable_order(keys, perm)
    &&& out == Seq::new(perm.len(), |k: int| positions[perm[k] as int])
}

/// The repositories at `positions`, in order `mode`.
fn order_positions(repos: &Vec<RepoSummary>, positions: &Vec<usize>, mode: SortMode) -> (r: Vec<usize>)
    requires
        forall|i: int| 0 <= i < positions.len() ==> #[trigger] positions@[i] < repos.len(),
    ensures
        exists|keys: Seq<RepoOrderKey>, perm: Seq<usize>| #[trigger] is_repo_order(r@, repos@, positions@, mode, keys, perm),
{
    let mut keys: Vec<RepoOrderKey> = Vec::new();
    let mut i: usize = 0;
    while i < positions.len()
        invariant
            i <= positions.len(),
            forall|j: int| 0 <= j < positions.len() ==> #[trigger] positions@[j] < repos.len(),
            keys.len() == i,
            forall|j: int| 0 <= j < i ==> key_describes(mode, repos@[positions@[j] as int], #[trigger] keys@[j]),
        decreases positions.len() - i,
    {
        let k = order_key(mode, &repos[positions[i]]);
        keys.push(k);
        i += 1;
    }
    let perm = stable_order(&keys);
    let mut out: Vec<usize> = Vec::new();
    let mut k: usize = 0;
    while k < perm.len()
        invariant
            k <= perm.len(),
            perm.len() == positions.len(),
            forall|j: int| 0 <= j < perm.len() ==> #[trigger] perm@[j] < positions.len(),
            out@ == Seq::new(k as nat, |m: int| positions@[perm@[m] as int]),
        decreases perm.len() - k,
    {
        out.push(positions[perm[k]]);
        assert(out@ =~= Seq::new((k + 1) as nat, |m: int| positions@[perm@[m] as int]));
        k += 1;
    }
    assert(is_repo_order(out@, repos@, positions@, mode, keys@, perm@));
    out
}

/// Repository `a` may come before `b` in order `mode`: by the whole
/// lower-cased name, lexicographically; by the full date of the latest commit,
/// later first and undated last; or with changes before clean, then by name.
pub open spec fn comes_before(mode: SortMode, a: RepoSummary, b: RepoSummary) -> bool {
    match mode {
        SortMode::Name => chars_le(str_lowercase(a.name@), str_lowercase(b.name@)),
        SortMode::Recent => opt_chars_le(opt_chars(b.last_commit_at), opt_chars(a.last_commit_at)),
        SortMode::Status => (!a.status.clean && b.status.clean) || (a.status.clean == b.status.clean
            && chars_le(a.name@, b.name@)),
    }
}

/// Whatever the order, a listed repository never comes after one it should
/// follow: for every two positions of the result, the earlier may come before
/// the later.
pub proof fn law_repo_order_sorted(
    out: Seq<usize>,
    repos: Seq<RepoSummary>,
    positions: Seq<usize>,
    mode: SortMode,
    keys: Seq<RepoOrderKey>,
    perm: Seq<usize>,
)
    requires
        is_repo_order(out, repos, positions, mode, keys, perm),
    ensures
        forall|k: int, l: int| #![trigger out[k], out[l]] 0 <= k < l < out.len() ==> comes_before(
            mode,
            repos[out[k] as int],
            repos[out[l] as int],
        ),
{
    assert forall|k: int, l: int| #![trigger out[k], out[l]] 0 <= k < l < out.len() implies comes_before(
        mode,
        repos[out[k] as int],
        repos[out[l] as int],
    ) by {
        let a = perm[k] as int;
        let b = perm[l] as int;
        assert(keys[a].key_le(&keys[b]));
        assert(key_describes(mode, repos[positions[a] as int], keys[a]));
        assert(key_describes(mode, repos[positions[b] as int], keys[b]));
        assert(out[k] == positions[a]);
        assert(out[l] == positions[b]);
    }
}

/// The repository list: the repositories matching `query` (ignoring case),
/// in order `mode`.
pub fn repo_list(repos: &Vec<RepoSummary>, query: &str, mode: SortMode) -> (r: Vec<usize>)
    ensures
        exists|keys: Seq<RepoOrderKey>, perm: Seq<usize>| #[trigger] is_repo_order(
            r@,
            repos@,
            positions_where(repos.len() as nat, matching_at(repos@, str_lowercase(query@))),
            mode,
            keys,
            perm,
        ),
        forall|k: int, l: int| #![trigger r@[k], r@[l]] 0 <= k < l < r.len() ==> comes_before(
            mode,
            repos@[r@[k] as int],
            repos@[r@[l] as int],
        ),
{
    let found = search_positions(repos, query);
    proof {
        lemma_positions_below(repos.len() as nat, matching_at(repos@, str_lowercase(query@)));
    }
    let r = order_positions(repos, &found, mode);
    proof {
        let (keys, perm) = choose|keys: Seq<RepoOrderKey>, perm: Seq<usize>| is_repo_order(r@, repos@, found@, mode, keys, perm);
        law_repo_order_sorted(r@, repos@, found@, mode, keys, perm);
    }
    r
}

/// Every position `positions_where` gives is below `n`, and they increase.
pub proof fn lemma_positions_below(n: nat, p: spec_fn(int) -> bool)
    requires
        n <= usize::MAX,
    ensures
        forall|i: int| 0 <= i < positions_where(n, p).len() ==> #[trigger] positions_where(n, p)[i] < n,
        forall|i: int, j: int| 0 <= i < j < positions_where(n, p).len() ==> positions_where(n, p)[i] < positions_where(n, p)[j],
        forall|i: int| 0 <= i < positions_where(n, p).len() ==> p(#[trigger] positions_where(n, p)[i] as int),
    decreases n,
{
    if n > 0 {
        lemma_positions_below((n - 1) as nat, p);
        let earlier = positions_where((n - 1) as nat, p);
        let all = positions_where(n, p);
        if p(n - 1) {
            assert forall|i: int| 0 <= i < all.len() implies #[trigger] all[i] < n && p(all[i] as int) by {
                if i < earlier.len() {
                    assert(all[i] == earlier[i]);
                }
            }
            assert forall|i: int, j: int| 0 <= i < j < all.len() implies all[i] < all[j] by {
                assert(all[i] == earlier[i]);
                if j < earlier.len() {
                    assert(all[j] == earlier[j]);
                }
            }
        }
    }
}

/// "1 repo" or "`n` repos".
pub open spec fn repo_count_label_spec(n: nat) -> Seq<char> {
    decimal(n) + (if n == 1 { " repo"@ } else { " repos"@ })
}

/// The count line of the repository list.
pub fn repo_count_label(n: usize) -> (r: String)
    ensures
        r@ == repo_count_label_spec(n as nat),
{
    let mut r = decimal_string(n as u64);
    if n == 1 {
        push_all(&mut r, " repo");
    } else {
        push_all(&mut r, " repos");
    }
    r
}


/// The first `n` entries of `list`, or all of them if there are fewer.
pub fn first_rows(list: &Vec<usize>, n: usize) -> (r: Vec<usize>)
    ensures
        r@ == at_most(list@, n as nat),
{
    let m = if list.len() < n { list.len() } else { n };
    let mut r: Vec<usize> = Vec::new();
    let mut i: usize = 0;
    while i < m
        invariant
            i <= m <= list.len(),
            r@ == list@.take(i as int),
        decreases m - i,
    {
        r.push(list[i]);
        assert(list@.take(i + 1) == list@.take(i as int).push(list@[i as int]));
        i += 1;
    }
    assert(list@.take(list.len() as int) == list@);
    r
}

// ── Dashboard ───────────────────────────────────────────────────────────────

/// How many repositories each attention list of the dashboard shows.
pub const ATTENTION_ROWS: usize = 6;

/// How many repositories the dashboard's recent activity shows.
pub const RECENT_ROWS: usize = 8;

/// What the dashboard shows, as positions in the repository list.
pub struct DashboardView {
    pub total: usize,
    /// Repositories with uncommitted changes.
    pub dirty: Vec<usize>,
    /// Repositories without a commit in thirty days.
    pub stale: Vec<usize>,
    pub favorites: Vec<usize>,
    /// The repositories with the latest commits, newest first.
    pub recent: Vec<usize>,
}

/// `recent` lists at most eight repositories, latest commit first (ties in
/// list order, repositories without commits last).
pub open spec fn is_recent_list(recent: Seq<usize>, repos: Seq<RepoSummary>, order: Seq<usize>, keys: Seq<RepoOrderKey>, perm: Seq<usize>) -> bool {
    &&& is_repo_order(order, repos, positions_where(repos.len() as nat, any_position()), SortMode::Recent, keys, perm)
    &&& recent == at_most(order, RECENT_ROWS as nat)
}

/// The dashboard of `repos` at `now_ms`.
pub fn dashboard(repos: &Vec<RepoSummary>, now_ms: i64) -> (r: DashboardView)
    ensures
        r.total == repos.len(),
        r.dirty@ == positions_where(repos.len() as nat, dirty_at(repos@)),
        lists_exactly(r.dirty@, repos.len() as nat, |i: int| !repos@[i].status.clean),
        r.stale@ == positions_where(repos.len() as nat, stale_at(repos@, now_ms)),
        r.favorites@ == positions_where(repos.len() as nat, favorite_at(repos@)),
        exists|order: Seq<usize>, keys: Seq<RepoOrderKey>, perm: Seq<usize>| #[trigger] is_recent_list(r.recent@, repos@, order, keys, perm),
        forall|k: int, l: int| #![trigger r.recent@[k], r.recent@[l]] 0 <= k < l < r.recent.len() ==> comes_before(
            SortMode::Recent,
            repos@[r.recent@[k] as int],
            repos@[r.recent@[l] as int],
        ),
{
    let all = all_positions(repos);
    proof {
        lemma_positions_below(repos.len() as nat, any_position());
    }
    let order = order_positions(repos, &all, SortMode::Recent);
    let recent = first_rows(&order, RECENT_ROWS);
    let ghost (keys, perm) = choose|keys: Seq<RepoOrderKey>, perm: Seq<usize>| is_repo_order(order@, repos@, all@, SortMode::Recent, keys, perm);
    assert(is_repo_order(order@, repos@, all@, SortMode::Recent, keys, perm));
    let r = DashboardView {
        total: repos.len(),
        dirty: dirty_positions(repos),
        stale: stale_positions(repos, now_ms),
        favorites: favorite_positions(repos),
        recent,
    };
    assert(is_recent_list(r.recent@, repos@, order@, keys, perm));
    proof {
        law_repo_order_sorted(order@, repos@, all@, SortMode::Recent, keys, perm);
        assert forall|k: int, l: int| #![trigger r.recent@[k], r.recent@[l]] 0 <= k < l < r.recent.len() implies comes_before(
            SortMode::Recent,
            repos@[r.recent@[k] as int],
            repos@[r.recent@[l] as int],
        ) by {
            assert(r.recent@[k] == order@[k]);
            assert(r.recent@[l] == order@[l]);
        }
    }
    r
}

// ── Command palette ─────────────────────────────────────────────────────────

/// The palette's commands: label, id and icon. The first seven are the
/// documented ones; adding a repository and scanning a directory follow.
pub open spec fn palette_commands() -> Seq<(Seq<char>, Seq<char>, Seq<char>)> {
    seq![
        ("Go to Dashboard"@, "go-dashboard"@, "dashboard"@),
        ("Go to Activity"@, "go-activity"@, "activity"@),
        ("Go to Uncommitted"@, "go-uncommitted"@, "diff"@),
        ("Fetch all repositories"@, "fetch-all"@, "refresh"@),
        ("Toggle theme"@, "toggle-theme"@, "sun"@),
        ("New folder…"@, "new-folder"@, "folder"@),
        ("Manage editors…"@, "manage-editors"@, "settings"@),
        ("Add repo to folder…"@, "add-repo"@, "plus"@),
        ("Scan directory for repos…"@, "scan"@, "search"@)
    ]
}

/// The characters of each command row.
pub open spec fn command_rows_view(s: Seq<(&str, &str, &str)>) -> Seq<(Seq<char>, Seq<char>, Seq<char>)> {
    s.map_values(|c: (&str, &str, &str)| (c.0@, c.1@, c.2@))
}

/// The palette's commands.
pub fn palette_command_rows() -> (r: Vec<(&'static str, &'static str, &'static str)>)
    ensures
        command_rows_view(r@) == palette_commands(),
{
    let mut r: Vec<(&'static str, &'static str, &'static str)> = Vec::new();
    r.push(("Go to Dashboard", "go-dashboard", "dashboard"));
    r.push(("Go to Activity", "go-activity", "activity"));
    r.push(("Go to Uncommitted", "go-uncommitted", "diff"));
    r.push(("Fetch all repositories", "fetch-all", "refresh"));
    r.push(("Toggle theme", "toggle-theme", "sun"));
    r.push(("New folder…", "new-folder", "folder"));
    r.push(("Manage editors…", "manage-editors", "settings"));
    r.push(("Add repo to folder…", "add-repo", "plus"));
    r.push(("Scan directory for repos…", "scan", "search"));
    assert(command_rows_view(r@) =~= palette_commands());
    r
}

/// Commands whose lower-cased label contains the lower-cased query `q`
/// (all of them for an empty query).
pub open spec fn command_matches(q: Seq<char>) -> spec_fn(int) -> bool {
    |i: int| q.len() == 0 || contains_chars(str_lowercase(palette_commands()[i].0), q)
}

/// The positions of the palette commands that match `query`.
pub fn palette_command_positions(query: &str) -> (r: Vec<usize>)
    ensures
        r@ == positions_where(9, command_matches(str_lowercase(query@))),
{
    let rows = palette_command_rows();
    assert(rows.len() == command_rows_view(rows@).len());
    let q = to_lowercase(query);
    let mut r: Vec<usize> = Vec::new();
    let mut i: usize = 0;
    while i < rows.len()
        invariant
            i <= rows.len(),
            command_rows_view(rows@) == palette_commands(),
            rows.len() == 9,
            q@ == str_lowercase(query@),
            r@ == positions_where(i as nat, command_matches(q@)),
        decreases rows.len() - i,
    {
        assert(command_rows_view(rows@)[i as int].0 == rows@[i as int].0@);
        let hit = q.as_str().is_empty() || {
            let label = to_lowercase(rows[i].0);
            str_contains(label.as_str(), q.as_str())
        };
        if hit {
            r.push(i);
        }
        i += 1;
    }
    r
}

/// How many repositories the palette lists.
pub const PALETTE_REPO_ROWS: usize = 8;

/// The repositories the palette lists for `query`: the first eight that match.
pub fn palette_repos(repos: &Vec<RepoSummary>, query: &str) -> (r: Vec<usize>)
    ensures
        r@ == at_most(positions_where(repos.len() as nat, matching_at(repos@, str_lowercase(query@))), PALETTE_REPO_ROWS as nat),
{
    let found = search_positions(repos, query);
    first_rows(&found, PALETTE_REPO_ROWS)
}

/// What the palette is doing.
pub enum PaletteMode {
    Search,
    NewFolder,
    /// Adding a repository to the folder with this id.
    AddRepo(String),
    ScanDir,
}

/// The id of the first folder, or nothing without folders.
pub fn first_folder_id(folders: &Vec<Folder>) -> (r: String)
    ensures
        folders.len() > 0 ==> r@ == folders@[0].id@,
        folders.len() == 0 ==> r@ == Seq::<char>::empty(),
{
    if folders.len() > 0 {
        folders[0].id.clone()
    } else {
        String::new()
    }
}

/// What running a palette command does.
pub enum PaletteAction {
    /// Switches the palette to another mode.
    Mode(PaletteMode),
    /// Selects a view.
    Open(Selection),
    /// Fetches every tracked repository.
    FetchAll,
    ToggleTheme,
    /// Opens the editor settings.
    ManageEditors,
}

/// `r` is what palette command `id` does: the "go-" commands select the
/// dashboard, the activity feed and the uncommitted repositories; "add-repo"
/// adds to folder `first_folder_id`; unknown ids do nothing.
pub open spec fn is_palette_action(r: Option<PaletteAction>, id: Seq<char>, first_folder_id: Seq<char>) -> bool {
    if id == "go-dashboard"@ {
        r matches Some(PaletteAction::Open(s)) && s.kind == NavKind::Smart && s.id@ == "dashboard"@
    } else if id == "go-activity"@ {
        r matches Some(PaletteAction::Open(s)) && s.kind == NavKind::Smart && s.id@ == "activity"@
    } else if id == "go-uncommitted"@ {
        r matches Some(PaletteAction::Open(s)) && s.kind == NavKind::Smart && s.id@ == "uncommitted"@
    } else if id == "fetch-all"@ {
        r matches Some(PaletteAction::FetchAll)
    } else if id == "toggle-theme"@ {
        r matches Some(PaletteAction::ToggleTheme)
    } else if id == "new-folder"@ {
        r matches Some(PaletteAction::Mode(PaletteMode::NewFolder))
    } else if id == "manage-editors"@ {
        r matches Some(PaletteAction::ManageEditors)
    } else if id == "add-repo"@ {
        r matches Some(PaletteAction::Mode(PaletteMode::AddRepo(f))) && f@ == first_folder_id
    } else if id == "scan"@ {
        r matches Some(PaletteAction::Mode(PaletteMode::ScanDir))
    } else {
        r is None
    }
}

/// What palette command `cmd_id` does.
pub fn palette_action(cmd_id: &str, first_folder_id: &str) -> (r: Option<PaletteAction>)
    ensures
        is_palette_action(r, cmd_id@, first_folder_id@),
{
    if crate::text::str_eq(cmd_id, "go-dashboard") {
        Some(PaletteAction::Open(Selection::smart("dashboard")))
    } else if crate::text::str_eq(cmd_id, "go-activity") {
        Some(PaletteAction::Open(Selection::smart("activity")))
    } else if crate::text::str_eq(cmd_id, "go-uncommitted") {
        Some(PaletteAction::Open(Selection::smart("uncommitted")))
    } else if crate::text::str_eq(cmd_id, "fetch-all") {
        Some(PaletteAction::FetchAll)
    } else if crate::text::str_eq(cmd_id, "toggle-theme") {
        Some(PaletteAction::ToggleTheme)
    } else if crate::text::str_eq(cmd_id, "new-folder") {
        Some(PaletteAction::Mode(PaletteMode::NewFolder))
    } else if crate::text::str_eq(cmd_id, "manage-editors") {
        Some(PaletteAction::ManageEditors)
    } else if crate::text::str_eq(cmd_id, "add-repo") {
        Some(PaletteAction::Mode(PaletteMode::AddRepo(string_from(first_folder_id))))
    } else if crate::text::str_eq(cmd_id, "scan") {
        Some(PaletteAction::Mode(PaletteMode::ScanDir))
    } else {
        None
    }
}

/// A typed entry, trimmed; `None` when nothing but whitespace was typed.
pub fn entered_text(s: &str) -> (r: Option<String>)
    ensures
        crate::text::trim_spec(s@).len() == 0 ==> r is None,
        crate::text::trim_spec(s@).len() > 0 ==> (r matches Some(t) && t@ == crate::text::trim_spec(s@)),
{
    let t = crate::text::trim(s);
    if t.as_str().is_empty() {
        None
    } else {
        Some(t)
    }
}

// ── Activity feed ───────────────────────────────────────────────────────────

/// Items in activity group `k` at `now_ms`.
pub open spec fn bucket_at(items: Seq<ActivityItem>, now_ms: i64, k: u8) -> spec_fn(int) -> bool {
    |i: int| time_bucket_spec(opt_chars(items[i].date), now_ms) == k
}

/// The activity feed split into its groups ("Today", "Yesterday", "This
/// Week", "Older"), each in feed order, as positions in `items`.
pub fn activity_groups(items: &Vec<ActivityItem>, now_ms: i64) -> (r: (Vec<usize>, Vec<usize>, Vec<usize>, Vec<usize>))
    ensures
        r.0@ == positions_where(items.len() as nat, bucket_at(items@, now_ms, 0)),
        r.1@ == positions_where(items.len() as nat, bucket_at(items@, now_ms, 1)),
        r.2@ == positions_where(items.len() as nat, bucket_at(items@, now_ms, 2)),
        r.3@ == positions_where(items.len() as nat, bucket_at(items@, now_ms, 3)),
{
    let mut today: Vec<usize> = Vec::new();
    let mut yesterday: Vec<usize> = Vec::new();
    let mut week: Vec<usize> = Vec::new();
    let mut older: Vec<usize> = Vec::new();
    let mut i: usize = 0;
    while i < items.len()
        invariant
            i <= items.len(),
            today@ == positions_where(i as nat, bucket_at(items@, now_ms, 0)),
            yesterday@ == positions_where(i as nat, bucket_at(items@, now_ms, 1)),
            week@ == positions_where(i as nat, bucket_at(items@, now_ms, 2)),
            older@ == positions_where(i as nat, bucket_at(items@, now_ms, 3)),
        decreases items.len() - i,
    {
        let b = time_bucket(&items[i].date, now_ms);
        if b == 0 {
            today.push(i);
        } else if b == 1 {
            yesterday.push(i);
        } else if b == 2 {
            week.push(i);
        } else {
            older.push(i);
        }
        i += 1;
    }
    (today, yesterday, week, older)
}


// ── Avatars ─────────────────────────────────────────────────────────────────

/// The first characters of the first `n` words (or of all, if fewer).
pub open spec fn first_letters(words: Seq<Seq<char>>, n: nat) -> Seq<char> {
    Seq::new(if words.len() < n { words.len() } else { n }, |i: int| words[i][0])
}

/// The initials of a name: the first characters of its first two
/// whitespace-separated words, upper-cased.
pub open spec fn initials_spec(name: Seq<char>) -> Seq<char> {
    str_uppercase(first_letters(words_of(name, Separator::Whitespace), 2))
}

/// The initials of `name`.
pub fn initials_of(name: &str) -> (r: String)
    ensures
        r@ == initials_spec(name@),
{
    let words = split_words(name, Separator::Whitespace);
    proof {
        crate::text::lemma_words_not_empty(name@, Separator::Whitespace);
    }
    let ghost ws = words_of(name@, Separator::Whitespace);
    let n = if words.len() < 2 { words.len() } else { 2 };
    let mut m = String::new();
    let mut i: usize = 0;
    while i < n
        invariant
            i <= n <= words.len(),
            n == (if words.len() < 2 { words.len() } else { 2 }),
            ws == words_of(name@, Separator::Whitespace),
            crate::text::words_view(words@) == ws,
            forall|k: int| 0 <= k < ws.len() ==> (#[trigger] ws[k]).len() > 0,
            m@ == first_letters(ws, i as nat),
        decreases n - i,
    {
        assert(words@[i as int]@ == ws[i as int]);
        m.push(words[i][0]);
        assert(m@ =~= first_letters(ws, (i + 1) as nat));
        i += 1;
    }
    to_uppercase(m.as_str())
}

/// Initials of a person, as avatars show them.
pub trait Initials {
    fn initials(&self) -> String;
}

impl Initials for Contributor {
    fn initials(&self) -> (r: String)
        ensures
            r@ == initials_spec(self.name@),
    {
        initials_of(self.name.as_str())
    }
}

/// The sum of `bytes` in `usize` arithmetic that wraps around.
pub open spec fn wrapping_byte_sum(bytes: Seq<u8>) -> usize
    decreases bytes.len(),
{
    if bytes.len() == 0 {
        0
    } else {
        vstd::wrapping::usize_specs::wrapping_add(wrapping_byte_sum(bytes.drop_last()), bytes.last() as usize)
    }
}

/// The wrapping sum of the UTF-8 bytes of `text`.
fn byte_sum(text: &str) -> (r: usize)
    ensures
        r == wrapping_byte_sum(vstd::utf8::encode_utf8(text@)),
{
    let bytes = text.as_bytes();
    let mut h: usize = 0;
    let mut i: usize = 0;
    while i < bytes.len()
        invariant
            i <= bytes.len(),
            bytes@ == vstd::utf8::encode_utf8(text@),
            h == wrapping_byte_sum(bytes@.take(i as int)),
        decreases bytes.len() - i,
    {
        assert(bytes@.take(i + 1).drop_last() == bytes@.take(i as int));
        h = h.wrapping_add(bytes[i] as usize);
        i += 1;
    }
    assert(bytes@.take(bytes.len() as int) == bytes@);
    h
}

/// The eight colors of avatars derived from a text.
pub open spec fn avatar_colors() -> Seq<Seq<char>> {
    seq!["#6366F1"@, "#EC4899"@, "#14B8A6"@, "#F59E0B"@, "#8B5CF6"@, "#06B6D4"@, "#F43F5E"@, "#22C55E"@]
}

fn avatar_color_rows() -> (r: Vec<&'static str>)
    ensures
        texts_view(r@) == avatar_colors(),
{
    let mut r: Vec<&'static str> = Vec::new();
    r.push("#6366F1");
    r.push("#EC4899");
    r.push("#14B8A6");
    r.push("#F59E0B");
    r.push("#8B5CF6");
    r.push("#06B6D4");
    r.push("#F43F5E");
    r.push("#22C55E");
    assert(texts_view(r@) =~= avatar_colors());
    r
}

/// The avatar color of a text: chosen by the wrapping sum of its UTF-8 bytes.
pub open spec fn avatar_color_spec(text: Seq<char>) -> Seq<char> {
    avatar_colors()[(wrapping_byte_sum(vstd::utf8::encode_utf8(text)) % 8) as int]
}

/// The avatar color of a contributor's handle or a commit's author.
pub fn avatar_color(text: &str) -> (r: String)
    ensures
        r@ == avatar_color_spec(text@),
{
    let rows = avatar_color_rows();
    assert(rows.len() == texts_view(rows@).len());
    let i = byte_sum(text) % 8;
    assert(texts_view(rows@)[i as int] == rows@[i as int]@);
    string_from(rows[i])
}

impl Contributor {
    /// The avatar color of this contributor, derived from the handle.
    pub fn color(&self) -> (r: String)
        ensures
            r@ == avatar_color_spec(self.handle@),
    {
        avatar_color(self.handle.as_str())
    }
}

/// The twelve colors of commit authors in the activity feed.
pub open spec fn author_colors() -> Seq<Seq<char>> {
    seq![
        "#7C6BFF"@, "#FF6B6B"@, "#4ECDC4"@, "#45B7D1"@,
        "#96CEB4"@, "#E17055"@, "#A29BFE"@, "#FD79A8"@,
        "#FECA57"@, "#54A0FF"@, "#5F27CD"@, "#48DBFB"@
    ]
}

fn author_color_rows() -> (r: Vec<&'static str>)
    ensures
        texts_view(r@) == author_colors(),
{
    let mut r: Vec<&'static str> = Vec::new();
    r.push("#7C6BFF");
    r.push("#FF6B6B");
    r.push("#4ECDC4");
    r.push("#45B7D1");
    r.push("#96CEB4");
    r.push("#E17055");
    r.push("#A29BFE");
    r.push("#FD79A8");
    r.push("#FECA57");
    r.push("#54A0FF");
    r.push("#5F27CD");
    r.push("#48DBFB");
    assert(texts_view(r@) =~= author_colors());
    r
}

/// The color of a commit author in the activity feed.
pub open spec fn author_color_spec(name: Seq<char>) -> Seq<char> {
    author_colors()[(wrapping_byte_sum(vstd::utf8::encode_utf8(name)) % 12) as int]
}

/// The color of commit author `name` in the activity feed.
pub fn author_color(name: &str) -> (r: &'static str)
    ensures
        r@ == author_color_spec(name@),
{
    let rows = author_color_rows();
    assert(rows.len() == texts_view(rows@).len());
    let i = byte_sum(name) % 12;
    assert(texts_view(rows@)[i as int] == rows@[i as int]@);
    rows[i]
}

/// The initials of a commit author in the activity feed: "?" for a blank
/// name, the first two characters of a one-word name, else the first
/// characters of the first and last words; upper-cased.
pub open spec fn author_initials_spec(name: Seq<char>) -> Seq<char> {
    let parts = words_of(name, Separator::Whitespace);
    if parts.len() == 0 {
        "?"@
    } else if parts.len() == 1 {
        str_uppercase(prefix_chars(name, 2))
    } else {
        str_uppercase(seq![parts[0][0], parts.last()[0]])
    }
}

/// The initials of commit author `name`.
pub fn author_initials(name: &str) -> (r: String)
    ensures
        r@ == author_initials_spec(name@),
{
    let parts = split_words(name, Separator::Whitespace);
    proof {
        crate::text::lemma_words_not_empty(name@, Separator::Whitespace);
    }
    let ghost ws = words_of(name@, Separator::Whitespace);
    assert(parts.len() == ws.len());
    if parts.len() == 0 {
        string_from("?")
    } else if parts.len() == 1 {
        let cs = chars_of(name);
        let m = first_chars(&cs, 2);
        to_uppercase(m.as_str())
    } else {
        let last = parts.len() - 1;
        assert(parts@[0]@ == ws[0]);
        assert(parts@[last as int]@ == ws.last());
        let mut m = String::new();
        m.push(parts[0][0]);
        m.push(parts[last][0]);
        assert(m@ =~= seq![ws[0][0], ws.last()[0]]);
        to_uppercase(m.as_str())
    }
}

// ── Repository overview ─────────────────────────────────────────────────────

/// How many changed files the overview does not list (it lists five).
pub fn more_files(listed: usize) -> (r: usize)
    ensures
        r == (if listed > 5 { listed - 5 } else { 0 }),
{
    if listed > 5 {
        listed - 5
    } else {
        0
    }
}

/// The number of commits of all contributors together.
pub fn total_commits(contributors: &Vec<Contributor>) -> (r: u32)
    requires
        commits_total(contributors@) <= u32::MAX,
    ensures
        r == commits_total(contributors@),
{
    let mut t: u32 = 0;
    let mut i: usize = 0;
    while i < contributors.len()
        invariant
            i <= contributors.len(),
            commits_total(contributors@) <= u32::MAX,
            t == commits_total(contributors@.take(i as int)),
        decreases contributors.len() - i,
    {
        assert(contributors@.take(i + 1).drop_last() == contributors@.take(i as int));
        proof {
            lemma_commits_total_prefix(contributors@, i + 1);
        }
        t = t + contributors[i].commits;
        i += 1;
    }
    assert(contributors@.take(contributors.len() as int) == contributors@);
    t
}

/// A prefix has no more commits than the whole.
proof fn lemma_commits_total_prefix(cs: Seq<Contributor>, k: int)
    requires
        0 <= k <= cs.len(),
    ensures
        commits_total(cs.take(k)) <= commits_total(cs),
    decreases cs.len() - k,
{
    if k < cs.len() {
        lemma_commits_total_prefix(cs, k + 1);
        assert(cs.take(k + 1).drop_last() == cs.take(k));
    } else {
        assert(cs.take(k) == cs);
    }
}

/// When the repository was last fetched, or "Never".
pub open spec fn fetched_text_spec(last_fetched: Option<Seq<char>>, now_ms: i64) -> Seq<char> {
    let t = from_now_spec(last_fetched, now_ms);
    if t.len() == 0 {
        "Never"@
    } else {
        t
    }
}

/// When the repository was last fetched, as the overview shows it.
pub fn fetched_text(last_fetched: &Option<String>, now_ms: i64) -> (r: String)
    ensures
        r@ == fetched_text_spec(opt_chars(*last_fetched), now_ms),
{
    let t = from_now(last_fetched, now_ms);
    if t.as_str().is_empty() {
        string_from("Never")
    } else {
        t
    }
}


/// How many avatars a stack of `count` does not show when it shows `max`.
pub fn avatar_overflow(count: usize, max: usize) -> (r: usize)
    ensures
        r == (if count > max { count - max } else { 0 }),
{
    if count > max {
        count - max
    } else {
        0
    }
}

// ── Settings, theme and notifications ───────────────────────────────────────

/// Where the settings say an editor is: its path, or a hint to add it when it
/// was not found.
pub open spec fn editor_location_spec(e: Editor) -> Seq<char> {
    if e.path@.len() == 0 || !e.detected {
        "Not installed — add manually"@
    } else {
        e.path@
    }
}

/// The location line of an editor in the settings.
pub fn editor_location(e: &Editor) -> (r: String)
    ensures
        r@ == editor_location_spec(*e),
{
    if e.path.as_str().is_empty() || !e.detected {
        string_from("Not installed — add manually")
    } else {
        e.path.clone()
    }
}

/// The other theme: "light" after "dark", "dark" after anything else.
pub fn toggled_theme(theme: &str) -> (r: String)
    ensures
        r@ == (if theme@ == "dark"@ { "light"@ } else { "dark"@ }),
{
    if crate::text::str_eq(theme, "dark") {
        string_from("light")
    } else {
        string_from("dark")
    }
}

/// The icon of the theme switch: the sun in the dark theme, else the moon.
pub fn theme_icon(theme: &str) -> (r: &'static str)
    ensures
        r@ == (if theme@ == "dark"@ { "sun"@ } else { "moon"@ }),
{
    if crate::text::str_eq(theme, "dark") {
        "sun"
    } else {
        "moon"
    }
}

/// A notification: an id, a message and a detail shown in monospace.
pub struct Toast {
    pub id: String,
    pub msg: String,
    pub mono: String,
}

impl Toast {
    /// A notification created at `now_ms`, which is also its id.
    pub fn new(msg: &str, mono: &str, now_ms: u64) -> (r: Toast)
        ensures
            r.id@ == decimal(now_ms as nat),
            r.msg@ == msg@,
            r.mono@ == mono@,
    {
        Toast { id: decimal_string(now_ms), msg: string_from(msg), mono: string_from(mono) }
    }
}

/// Keeps notifications whose id is not `id`.
pub open spec fn toast_id_is_not(id: Seq<char>) -> spec_fn(Toast) -> bool {
    |t: Toast| t.id@ != id
}

/// Dismisses every notification with id `id`, keeping the others in order.
pub fn dismiss_toast(toasts: &mut Vec<Toast>, id: &str)
    ensures
        final(toasts)@ == old(toasts)@.filter(toast_id_is_not(id@)),
{
    let ghost p = toast_id_is_not(id@);
    let ghost original = toasts@;
    let mut kept: Vec<Toast> = Vec::new();
    let n = toasts.len();
    let mut i: usize = 0;
    while i < n
        invariant
            i <= n,
            n == toasts.len(),
            toasts@ == original,
            p == toast_id_is_not(id@),
            kept@ == original.take(i as int).filter(p),
        decreases n - i,
    {
        assert(original.take(i + 1) == original.take(i as int).push(original[i as int]));
        proof {
            original.take(i as int).lemma_filter_push(original[i as int], p);
        }
        if !crate::text::str_eq(toasts[i].id.as_str(), id) {
            let t = Toast {
                id: toasts[i].id.clone(),
                msg: toasts[i].msg.clone(),
                mono: toasts[i].mono.clone(),
            };
            kept.push(t);
        }
        i += 1;
    }
    assert(original.take(n as int) == original);
    *toasts = kept;
}


// ── Markdown and notifications ──────────────────────────────────────────────

/// The kinds of Markdown events that rendering tells apart.
pub enum MarkdownEventKind {
    /// A block of raw HTML.
    Html,
    /// Raw HTML inside a paragraph.
    InlineHtml,
    /// Anything else.
    Other,
}

/// Whether a README event is rendered: raw HTML, block or inline, never is,
/// so that an untrusted README cannot inject markup; everything else is.
pub fn renders_event(kind: &MarkdownEventKind) -> (r: bool)
    ensures
        r == !(*kind is Html || *kind is InlineHtml),
{
    match kind {
        MarkdownEventKind::Html => false,
        MarkdownEventKind::InlineHtml => false,
        MarkdownEventKind::Other => true,
    }
}

/// The HTML that pulldown-cmark renders from Markdown `src`, with tables and
/// strikethrough enabled, from the events `renders_event` keeps.
pub uninterp spec fn markdown_html(src: Seq<char>) -> Seq<char>;

/// Renders a README: calls `Parser::new_ext` (tables and
/// strikethrough on), keeps the events `renders_event` accepts, so raw HTML
/// is dropped, and writes them with `html::push_html`. The result is the
/// named rendering of `src`.
#[verifier::external_body]
pub fn md_to_html(src: &str) -> (r: String)
    ensures
        r@ == markdown_html(src@),
{
    let mut opts = Options::empty();
    opts.insert(Options::ENABLE_TABLES);
    opts.insert(Options::ENABLE_STRIKETHROUGH);
    let parser = Parser::new_ext(src, opts).filter(|e| renders_event(&match e {
        Event::Html(_) => MarkdownEventKind::Html,
        Event::InlineHtml(_) => MarkdownEventKind::InlineHtml,
        _ => MarkdownEventKind::Other,
    }));
    let mut out = String::new();
    html::push_html(&mut out, parser);
    out
}

/// A Git action that reports back with a notification.
#[derive(PartialEq, Eq, Structural, Clone, Copy, Debug)]
pub enum SyncAction {
    Fetch,
    Pull,
    Checkout,
}

/// The title of the notification after `action`.
pub open spec fn sync_title_spec(action: SyncAction, success: bool) -> Seq<char> {
    match action {
        SyncAction::Fetch => if success { "Fetched"@ } else { "Fetch failed"@ },
        SyncAction::Pull => if success { "Pulled"@ } else { "Pull failed"@ },
        SyncAction::Checkout => if success { "Checked out"@ } else { "Checkout failed"@ },
    }
}

/// The title of the notification after `action`, by its success.
pub fn sync_title(action: SyncAction, success: bool) -> (r: &'static str)
    ensures
        r@ == sync_title_spec(action, success),
{
    match action {
        SyncAction::Fetch => if success { "Fetched" } else { "Fetch failed" },
        SyncAction::Pull => if success { "Pulled" } else { "Pull failed" },
        SyncAction::Checkout => if success { "Checked out" } else { "Checkout failed" },
    }
}

} // verus!
