//! What the commands derive from a repository's Git data: contributors,
//! working-tree counts, remotes, branches and languages.

use chrono::TimeZone;
use vstd::prelude::*;
use crate::models::{clone_opt, opt_chars, Branch, Commit, Contributor, Language, StatusFile, WorkingTreeStatus};
use crate::order::{is_stable_order, lists, stable_order, Descending};
use crate::search::{first_index, lemma_first_index_is, lemma_first_index_none};
use crate::text::{
    char_is_alphanumeric, chars_of, contains_chars, contains_exec, is_alphanumeric, push_all, str_eq,
    str_lowercase, string_from, string_of, strip_prefixes, strip_prefixes_exec, strip_suffixes,
    strip_suffixes_exec, to_lowercase,
};

verus! {

broadcast use {Seq::lemma_filter_push};

/// Calls `chrono::Utc::now()` and formats it with `to_rfc3339`; the result
/// depends on the clock, so nothing is stated of it.
#[verifier::external_body]
pub(crate) fn now_rfc3339() -> String {
    chrono::Utc::now().to_rfc3339()
}

// ── Contributors ────────────────────────────────────────────────────────────

pub open spec fn alphanumeric() -> spec_fn(char) -> bool {
    |c: char| char_is_alphanumeric(c)
}

/// At most the first `n` elements of `s`.
pub open spec fn at_most<A>(s: Seq<A>, n: nat) -> Seq<A> {
    if s.len() <= n {
        s
    } else {
        s.take(n as int)
    }
}

/// A contributor's handle: the alphanumeric characters of the lower-cased
/// name, at most twelve of them.
pub open spec fn handle_spec(name: Seq<char>) -> Seq<char> {
    at_most(str_lowercase(name).filter(alphanumeric()), 12)
}

/// Lower-cases `name`, keeps its alphanumeric characters and stops after twelve.
pub fn make_handle(name: &str) -> (r: String)
    ensures
        r@ == handle_spec(name@),
{
    let lower = to_lowercase(name);
    let cs = chars_of(lower.as_str());
    let mut out: Vec<char> = Vec::new();
    let mut i: usize = 0;
    while i < cs.len()
        invariant
            i <= cs.len(),
            out@ == at_most(cs@.take(i as int).filter(alphanumeric()), 12),
        decreases cs.len() - i,
    {
        let c = cs[i];
        assert(cs@.take(i + 1) == cs@.take(i as int).push(c));
        if is_alphanumeric(c) && out.len() < 12 {
            out.push(c);
        }
        i += 1;
    }
    assert(cs@.take(cs.len() as int) == cs@);
    string_of(&out)
}

/// Selects the commits whose author is `name`.
pub open spec fn by_author(name: Seq<char>) -> spec_fn(Commit) -> bool {
    |c: Commit| c.author@ == name
}

/// The lines added over `s`.
pub open spec fn total_additions(s: Seq<Commit>) -> nat
    decreases s.len(),
{
    if s.len() == 0 {
        0
    } else {
        total_additions(s.drop_last()) + s.last().additions as nat
    }
}

/// The lines deleted over `s`.
pub open spec fn total_deletions(s: Seq<Commit>) -> nat
    decreases s.len(),
{
    if s.len() == 0 {
        0
    } else {
        total_deletions(s.drop_last()) + s.last().deletions as nat
    }
}

/// `ct` sums up the commits by its author in `commits` (newest first): how
/// many there are, the lines they add and delete, and the date of the first.
pub open spec fn describes_author(ct: Contributor, commits: Seq<Commit>) -> bool {
    let mine = commits.filter(by_author(ct.name@));
    &&& mine.len() > 0
    &&& ct.commits == mine.len()
    &&& ct.additions == total_additions(mine)
    &&& ct.deletions == total_deletions(mine)
    &&& ct.last_active == mine[0].date
}

/// Totals over a prefix never exceed totals over the whole sequence.
proof fn lemma_totals_of_prefix(s: Seq<Commit>, i: int, p: spec_fn(Commit) -> bool)
    requires
        0 <= i <= s.len(),
    ensures
        total_additions(s.take(i).filter(p)) <= total_additions(s.filter(p)),
        total_deletions(s.take(i).filter(p)) <= total_deletions(s.filter(p)),
    decreases s.len(),
{
    if i < s.len() {
        let t = s.drop_last();
        assert(s == t.push(s.last()));
        assert(t.take(i) == s.take(i));
        lemma_totals_of_prefix(t, i, p);
        if p(s.last()) {
            assert(s.filter(p) == t.filter(p).push(s.last()));
            assert(s.filter(p).drop_last() == t.filter(p));
        } else {
            assert(s.filter(p) == t.filter(p));
        }
    } else {
        assert(s.take(i) == s);
    }
}

/// The commits of all contributors together.
pub open spec fn commits_total(cs: Seq<Contributor>) -> nat
    decreases cs.len(),
{
    if cs.len() == 0 {
        0
    } else {
        commits_total(cs.drop_last()) + cs.last().commits as nat
    }
}

/// The number of commits in `s` by the authors of `cs`, author by author.
pub open spec fn authored_total(cs: Seq<Contributor>, s: Seq<Commit>) -> nat
    decreases cs.len(),
{
    if cs.len() == 0 {
        0
    } else {
        authored_total(cs.drop_last(), s) + s.filter(by_author(cs.last().name@)).len()
    }
}

/// How many of `cs` are named `a`.
pub open spec fn name_count(cs: Seq<Contributor>, a: Seq<char>) -> nat
    decreases cs.len(),
{
    if cs.len() == 0 {
        0
    } else {
        name_count(cs.drop_last(), a) + (if cs.last().name@ == a { 1nat } else { 0nat })
    }
}

/// Contributors whose commit counts are those of their authors in `s` add up
/// to the authored total.
proof fn lemma_commits_total_is_authored(cs: Seq<Contributor>, s: Seq<Commit>)
    requires
        forall|i: int| 0 <= i < cs.len() ==> (#[trigger] cs[i]).commits == s.filter(by_author(cs[i].name@)).len(),
    ensures
        commits_total(cs) == authored_total(cs, s),
    decreases cs.len(),
{
    if cs.len() > 0 {
        let t = cs.drop_last();
        assert forall|i: int| 0 <= i < t.len() implies (#[trigger] t[i]).commits == s.filter(by_author(t[i].name@)).len() by {
            assert(t[i] == cs[i]);
        }
        lemma_commits_total_is_authored(t, s);
        assert(cs.last() == cs[cs.len() - 1]);
    }
}

/// No commits, no authored commits.
proof fn lemma_authored_total_empty(cs: Seq<Contributor>)
    ensures
        authored_total(cs, Seq::<Commit>::empty()) == 0,
    decreases cs.len(),
{
    if cs.len() > 0 {
        lemma_authored_total_empty(cs.drop_last());
        assert(Seq::<Commit>::empty().filter(by_author(cs.last().name@)) =~= Seq::<Commit>::empty());
    }
}

/// One more commit adds one for each contributor named after its author.
proof fn lemma_authored_total_push(cs: Seq<Contributor>, s: Seq<Commit>, c: Commit)
    ensures
        authored_total(cs, s.push(c)) == authored_total(cs, s) + name_count(cs, c.author@),
    decreases cs.len(),
{
    if cs.len() > 0 {
        lemma_authored_total_push(cs.drop_last(), s, c);
        let p = by_author(cs.last().name@);
        s.lemma_filter_push(c, p);
    }
}

/// Among contributors with distinct names, a name occurs once if at all.
proof fn lemma_name_count_distinct(cs: Seq<Contributor>, a: Seq<char>, j: int)
    requires
        forall|i: int, k: int| 0 <= i < k < cs.len() ==> cs[i].name@ != cs[k].name@,
        0 <= j < cs.len(),
        cs[j].name@ == a,
    ensures
        name_count(cs, a) == 1,
    decreases cs.len(),
{
    let t = cs.drop_last();
    if j == cs.len() - 1 {
        lemma_name_count_absent(t, a);
    } else {
        assert(cs.last().name@ != a) by {
            assert(cs[j].name@ != cs[cs.len() - 1].name@);
        }
        assert(t[j] == cs[j]);
        lemma_name_count_distinct(t, a, j);
    }
}

/// A name that no contributor has occurs zero times.
proof fn lemma_name_count_absent(cs: Seq<Contributor>, a: Seq<char>)
    requires
        forall|i: int| 0 <= i < cs.len() ==> (#[trigger] cs[i]).name@ != a,
    ensures
        name_count(cs, a) == 0,
    decreases cs.len(),
{
    if cs.len() > 0 {
        let t = cs.drop_last();
        assert forall|i: int| 0 <= i < t.len() implies (#[trigger] t[i]).name@ != a by {
            assert(t[i] == cs[i]);
        }
        lemma_name_count_absent(t, a);
        assert(cs.last() == cs[cs.len() - 1]);
    }
}

/// Contributors with distinct names that cover every author of `s` account
/// for each commit of `s` exactly once.
proof fn lemma_authored_total_covers(cs: Seq<Contributor>, s: Seq<Commit>)
    requires
        forall|i: int, k: int| 0 <= i < k < cs.len() ==> cs[i].name@ != cs[k].name@,
        forall|k: int| 0 <= k < s.len() ==> exists|i: int| 0 <= i < cs.len() && (#[trigger] cs[i]).name@ == (#[trigger] s[k]).author@,
    ensures
        authored_total(cs, s) == s.len(),
    decreases s.len(),
{
    if s.len() == 0 {
        lemma_authored_total_empty(cs);
        assert(s =~= Seq::<Commit>::empty());
    } else {
        let t = s.drop_last();
        let c = s.last();
        assert forall|k: int| 0 <= k < t.len() implies exists|i: int| 0 <= i < cs.len() && (#[trigger] cs[i]).name@ == (#[trigger] t[k]).author@ by {
            assert(t[k] == s[k]);
            let i0 = choose|i: int| 0 <= i < cs.len() && (#[trigger] cs[i]).name@ == (#[trigger] s[k]).author@;
            assert(cs[i0].name@ == t[k].author@);
        }
        lemma_authored_total_covers(cs, t);
        lemma_authored_total_push(cs, t, c);
        assert(s == t.push(c));
        assert(s[s.len() - 1] == c);
        let j = choose|i: int| 0 <= i < cs.len() && (#[trigger] cs[i]).name@ == (#[trigger] s[s.len() - 1]).author@;
        lemma_name_count_distinct(cs, c.author@, j);
    }
}

/// The lines added by all contributors together.
pub open spec fn additions_total(cs: Seq<Contributor>) -> nat
    decreases cs.len(),
{
    if cs.len() == 0 {
        0
    } else {
        additions_total(cs.drop_last()) + cs.last().additions as nat
    }
}

/// The lines deleted by all contributors together.
pub open spec fn deletions_total(cs: Seq<Contributor>) -> nat
    decreases cs.len(),
{
    if cs.len() == 0 {
        0
    } else {
        deletions_total(cs.drop_last()) + cs.last().deletions as nat
    }
}

/// The lines added in `s` by the authors of `cs`, author by author.
pub open spec fn authored_additions(cs: Seq<Contributor>, s: Seq<Commit>) -> nat
    decreases cs.len(),
{
    if cs.len() == 0 {
        0
    } else {
        authored_additions(cs.drop_last(), s) + total_additions(s.filter(by_author(cs.last().name@)))
    }
}

/// The lines deleted in `s` by the authors of `cs`, author by author.
pub open spec fn authored_deletions(cs: Seq<Contributor>, s: Seq<Commit>) -> nat
    decreases cs.len(),
{
    if cs.len() == 0 {
        0
    } else {
        authored_deletions(cs.drop_last(), s) + total_deletions(s.filter(by_author(cs.last().name@)))
    }
}

/// Contributors whose totals are those of their authors in `s` add up to the
/// authored totals.
proof fn lemma_line_totals_are_authored(cs: Seq<Contributor>, s: Seq<Commit>)
    requires
        forall|i: int| 0 <= i < cs.len() ==> (#[trigger] cs[i]).additions == total_additions(s.filter(by_author(cs[i].name@))),
        forall|i: int| 0 <= i < cs.len() ==> (#[trigger] cs[i]).deletions == total_deletions(s.filter(by_author(cs[i].name@))),
    ensures
        additions_total(cs) == authored_additions(cs, s),
        deletions_total(cs) == authored_deletions(cs, s),
    decreases cs.len(),
{
    if cs.len() > 0 {
        let t = cs.drop_last();
        assert forall|i: int| 0 <= i < t.len() implies (#[trigger] t[i]).additions == total_additions(s.filter(by_author(t[i].name@)))
            && t[i].deletions == total_deletions(s.filter(by_author(t[i].name@))) by {
            assert(t[i] == cs[i]);
        }
        lemma_line_totals_are_authored(t, s);
        assert(cs.last() == cs[cs.len() - 1]);
    }
}

/// No commits, no authored lines.
proof fn lemma_authored_lines_empty(cs: Seq<Contributor>)
    ensures
        authored_additions(cs, Seq::<Commit>::empty()) == 0,
        authored_deletions(cs, Seq::<Commit>::empty()) == 0,
    decreases cs.len(),
{
    if cs.len() > 0 {
        lemma_authored_lines_empty(cs.drop_last());
        assert(Seq::<Commit>::empty().filter(by_author(cs.last().name@)) =~= Seq::<Commit>::empty());
    }
}

/// One more commit adds its lines once for each contributor named after its
/// author.
proof fn lemma_authored_lines_push(cs: Seq<Contributor>, s: Seq<Commit>, c: Commit)
    ensures
        authored_additions(cs, s.push(c)) == authored_additions(cs, s) + name_count(cs, c.author@) * c.additions,
        authored_deletions(cs, s.push(c)) == authored_deletions(cs, s) + name_count(cs, c.author@) * c.deletions,
    decreases cs.len(),
{
    if cs.len() == 0 {
        assert(name_count(cs, c.author@) == 0);
        assert(0nat * c.additions == 0) by (nonlinear_arith);
        assert(0nat * c.deletions == 0) by (nonlinear_arith);
    } else {
        let t = cs.drop_last();
        lemma_authored_lines_push(t, s, c);
        let p = by_author(cs.last().name@);
        s.lemma_filter_push(c, p);
        let k = name_count(t, c.author@);
        if p(c) {
            let f = s.filter(p);
            assert(s.push(c).filter(p) == f.push(c));
            assert(f.push(c).drop_last() == f);
            assert(total_additions(f.push(c)) == total_additions(f) + c.additions);
            assert(total_deletions(f.push(c)) == total_deletions(f) + c.deletions);
            assert(name_count(cs, c.author@) == k + 1);
            assert((k + 1) * c.additions == k * c.additions + c.additions) by (nonlinear_arith);
            assert((k + 1) * c.deletions == k * c.deletions + c.deletions) by (nonlinear_arith);
        } else {
            assert(s.push(c).filter(p) == s.filter(p));
            assert(name_count(cs, c.author@) == k);
        }
    }
}

/// Contributors with distinct names that cover every author of `s` account
/// for every added and deleted line of `s` exactly once.
proof fn lemma_authored_lines_cover(cs: Seq<Contributor>, s: Seq<Commit>)
    requires
        forall|i: int, k: int| 0 <= i < k < cs.len() ==> cs[i].name@ != cs[k].name@,
        forall|k: int| 0 <= k < s.len() ==> exists|i: int| 0 <= i < cs.len() && (#[trigger] cs[i]).name@ == (#[trigger] s[k]).author@,
    ensures
        authored_additions(cs, s) == total_additions(s),
        authored_deletions(cs, s) == total_deletions(s),
    decreases s.len(),
{
    if s.len() == 0 {
        lemma_authored_lines_empty(cs);
        assert(s =~= Seq::<Commit>::empty());
    } else {
        let t = s.drop_last();
        let c = s.last();
        assert forall|k: int| 0 <= k < t.len() implies exists|i: int| 0 <= i < cs.len() && (#[trigger] cs[i]).name@ == (#[trigger] t[k]).author@ by {
            assert(t[k] == s[k]);
            let i0 = choose|i: int| 0 <= i < cs.len() && (#[trigger] cs[i]).name@ == (#[trigger] s[k]).author@;
            assert(cs[i0].name@ == t[k].author@);
        }
        lemma_authored_lines_cover(cs, t);
        lemma_authored_lines_push(cs, t, c);
        assert(s == t.push(c));
        assert(s[s.len() - 1] == c);
        let j = choose|i: int| 0 <= i < cs.len() && (#[trigger] cs[i]).name@ == (#[trigger] s[s.len() - 1]).author@;
        lemma_name_count_distinct(cs, c.author@, j);
    }
}

/// The contributors of a commit list (newest first): one per distinct author
/// with the number of their commits, the lines they added and deleted and the
/// date of their newest commit, ordered by number of commits, most first.
/// Authors with equally many commits come in no stated order.
pub fn get_contributors(commits: &Vec<Commit>) -> (r: Vec<Contributor>)
    requires
        commits.len() <= u32::MAX,
        forall|a: Seq<char>| total_additions(#[trigger] commits@.filter(by_author(a))) <= u32::MAX,
        forall|a: Seq<char>| total_deletions(#[trigger] commits@.filter(by_author(a))) <= u32::MAX,
    ensures
        forall|i: int| 0 <= i < r.len() ==> describes_author(#[trigger] r@[i], commits@),
        forall|i: int| 0 <= i < r.len() ==> (#[trigger] r@[i]).handle@ == handle_spec(r@[i].name@),
        forall|i: int, j: int| 0 <= i < j < r.len() ==> r@[i].name@ != r@[j].name@,
        forall|k: int|
            0 <= k < commits.len() ==> exists|i: int|
                0 <= i < r.len() && (#[trigger] r@[i]).name@ == (#[trigger] commits@[k]).author@,
        forall|i: int, j: int| 0 <= i < j < r.len() ==> r@[i].commits >= r@[j].commits,
        commits_total(r@) == commits.len(),
        additions_total(r@) == total_additions(commits@),
        deletions_total(r@) == total_deletions(commits@),
{
    let mut groups: Vec<Contributor> = Vec::new();
    let n = commits.len();
    let mut i: usize = 0;
    while i < n
        invariant
            i <= n,
            n == commits.len(),
            n <= u32::MAX,
            forall|a: Seq<char>| total_additions(#[trigger] commits@.filter(by_author(a))) <= u32::MAX,
            forall|a: Seq<char>| total_deletions(#[trigger] commits@.filter(by_author(a))) <= u32::MAX,
            forall|j: int| 0 <= j < groups.len() ==> describes_author(#[trigger] groups@[j], commits@.take(i as int)),
            forall|j: int, l: int| 0 <= j < l < groups.len() ==> groups@[j].name@ != groups@[l].name@,
            forall|k: int|
                0 <= k < i ==> exists|j: int|
                    0 <= j < groups.len() && (#[trigger] groups@[j]).name@ == (#[trigger] commits@[k]).author@,
        decreases n - i,
    {
        let c = &commits[i];
        let ghost pre = commits@.take(i as int);
        let ghost post = commits@.take(i + 1);
        assert(post == pre.push(*c));
        let mut j: usize = 0;
        while j < groups.len() && !str_eq(groups[j].name.as_str(), c.author.as_str())
            invariant
                j <= groups.len(),
                forall|l: int| 0 <= l < j ==> (#[trigger] groups@[l]).name@ != c.author@,
            decreases groups.len() - j,
        {
            j += 1;
        }
        if j < groups.len() {
            let ghost a = c.author@;
            let ghost g = groups@[j as int];
            proof {
                assert(describes_author(g, pre));
                assert(post.filter(by_author(a)) == pre.filter(by_author(a)).push(*c));
                lemma_totals_of_prefix(commits@, i + 1, by_author(a));
                assert(total_additions(pre.filter(by_author(a)).push(*c)) == total_additions(
                    pre.filter(by_author(a)),
                ) + c.additions) by {
                    assert(pre.filter(by_author(a)).push(*c).drop_last() == pre.filter(by_author(a)));
                }
                assert(total_deletions(pre.filter(by_author(a)).push(*c)) == total_deletions(
                    pre.filter(by_author(a)),
                ) + c.deletions) by {
                    assert(pre.filter(by_author(a)).push(*c).drop_last() == pre.filter(by_author(a)));
                }
                assert(pre.filter(by_author(a)).len() <= pre.len()) by {
                    pre.lemma_filter_len(by_author(a));
                }
            }
            let updated = Contributor {
                name: groups[j].name.clone(),
                handle: groups[j].handle.clone(),
                commits: groups[j].commits + 1,
                additions: groups[j].additions + c.additions,
                deletions: groups[j].deletions + c.deletions,
                last_active: clone_opt(&groups[j].last_active),
            };
            let ghost old_groups = groups@;
            groups.set(j, updated);
            proof {
                assert(g.name@ == a);
                {
                    let mine = pre.filter(by_author(a));
                    assert(by_author(a)(*c));
                    assert(post.filter(by_author(a)) == mine.push(*c));
                    assert(mine.push(*c)[0] == mine[0]);
                    assert(groups@[j as int].name@ == a);
                    assert(describes_author(groups@[j as int], post));
                }
                assert forall|l: int| 0 <= l < groups.len() && l != j implies describes_author(#[trigger] groups@[l], post) by {
                    assert(groups@[l] == old_groups[l]);
                    assert(old_groups[l].name@ != a);
                    assert(!by_author(old_groups[l].name@)(*c));
                    assert(post.filter(by_author(groups@[l].name@)) == pre.filter(by_author(groups@[l].name@)));
                    assert(describes_author(old_groups[l], pre));
                }
                assert forall|k: int| 0 <= k < i + 1 implies exists|l: int|
                    0 <= l < groups.len() && (#[trigger] groups@[l]).name@ == (#[trigger] commits@[k]).author@ by {
                    if k == i {
                        assert(groups@[j as int].name@ == commits@[k].author@);
                    } else {
                        let l0 = choose|l: int| 0 <= l < old_groups.len() && (#[trigger] old_groups[l]).name@ == commits@[k].author@;
                        assert(groups@[l0].name@ == old_groups[l0].name@);
                    }
                }
            }
        } else {
            let ghost a = c.author@;
            proof {
                assert forall|k: int| 0 <= k < pre.len() implies !by_author(a)(#[trigger] pre[k]) by {
                    if pre[k].author@ == a {
                        assert(commits@[k] == pre[k]);
                        let l0 = choose|l: int| 0 <= l < groups.len() && (#[trigger] groups@[l]).name@ == (#[trigger] commits@[k]).author@;
                    }
                }
                pre.lemma_all_neg_filter_empty(by_author(a));
                assert(post.filter(by_author(a)) == seq![*c]);
                assert(seq![*c].drop_last() == Seq::<Commit>::empty());
                assert(total_additions(Seq::<Commit>::empty()) == 0);
                lemma_totals_of_prefix(commits@, i + 1, by_author(a));
            }
            let fresh = Contributor {
                name: c.author.clone(),
                handle: String::new(),
                commits: 1,
                additions: c.additions,
                deletions: c.deletions,
                last_active: clone_opt(&c.date),
            };
            let ghost old_groups = groups@;
            groups.push(fresh);
            proof {
                assert(describes_author(groups@[old_groups.len() as int], post)) by {
                    assert(groups@[old_groups.len() as int].name@ == a);
                    assert(seq![*c][0] == *c);
                    assert(total_additions(seq![*c]) == c.additions);
                    assert(total_deletions(Seq::<Commit>::empty()) == 0);
                    assert(total_deletions(seq![*c]) == c.deletions);
                }
                assert forall|l: int| 0 <= l < old_groups.len() implies describes_author(#[trigger] groups@[l], post) by {
                    assert(groups@[l] == old_groups[l]);
                    assert(old_groups[l].name@ != a);
                    assert(!by_author(old_groups[l].name@)(*c));
                    assert(post.filter(by_author(groups@[l].name@)) == pre.filter(by_author(groups@[l].name@)));
                    assert(describes_author(old_groups[l], pre));
                }
                assert forall|l: int| 0 <= l < groups.len() implies describes_author(#[trigger] groups@[l], post) by {
                    if l < old_groups.len() {
                        assert(describes_author(groups@[l], post));
                    }
                }
                assert forall|k: int| 0 <= k < i + 1 implies exists|l: int|
                    0 <= l < groups.len() && (#[trigger] groups@[l]).name@ == (#[trigger] commits@[k]).author@ by {
                    if k == i {
                        assert(groups@[old_groups.len() as int].name@ == commits@[k].author@);
                    } else {
                        let l0 = choose|l: int| 0 <= l < old_groups.len() && (#[trigger] old_groups[l]).name@ == commits@[k].author@;
                        assert(groups@[l0] == old_groups[l0]);
                    }
                }
            }
        }
        i += 1;
    }
    assert(commits@.take(n as int) == commits@);

    // Handles, then the order by number of commits.
    let m = groups.len();
    let mut keys: Vec<Descending> = Vec::new();
    let mut named: Vec<Contributor> = Vec::new();
    let mut k: usize = 0;
    while k < m
        invariant
            k <= m,
            m == groups.len(),
            keys.len() == k,
            named.len() == k,
            forall|l: int| 0 <= l < k ==> (#[trigger] keys@[l]).value == groups@[l].commits,
            forall|l: int| 0 <= l < k ==> {
                &&& (#[trigger] named@[l]).name == groups@[l].name
                &&& named@[l].commits == groups@[l].commits
                &&& named@[l].additions == groups@[l].additions
                &&& named@[l].deletions == groups@[l].deletions
                &&& named@[l].last_active == groups@[l].last_active
                &&& named@[l].handle@ == handle_spec(groups@[l].name@)
            },
        decreases m - k,
    {
        let g = &groups[k];
        keys.push(Descending { value: g.commits as u64 });
        named.push(Contributor {
            name: g.name.clone(),
            handle: make_handle(g.name.as_str()),
            commits: g.commits,
            additions: g.additions,
            deletions: g.deletions,
            last_active: clone_opt(&g.last_active),
        });
        k += 1;
    }
    let perm = stable_order(&keys);
    let mut result: Vec<Contributor> = Vec::new();
    let mut q: usize = 0;
    while q < m
        invariant
            q <= m,
            m == named.len(),
            m == keys.len(),
            is_stable_order(keys@, perm@),
            result.len() == q,
            forall|l: int| 0 <= l < q ==> #[trigger] result@[l] == named@[perm@[l] as int],
        decreases m - q,
    {
        result.push(named[perm[q]].clone());
        q += 1;
    }
    proof {
        assert forall|a: int, b: int| 0 <= a < b < result.len() implies result@[a].commits >= result@[b].commits by {
            assert(perm@[a] != perm@[b]);
            assert(keys@[perm@[a] as int].value >= keys@[perm@[b] as int].value);
        }
        assert forall|a: int, b: int| 0 <= a < b < result.len() implies result@[a].name@ != result@[b].name@ by {
            assert(perm@[a] != perm@[b]);
        }
        assert forall|kk: int| 0 <= kk < commits.len() implies exists|l: int|
            0 <= l < result.len() && (#[trigger] result@[l]).name@ == (#[trigger] commits@[kk]).author@ by {
            let g0 = choose|l: int| 0 <= l < groups.len() && (#[trigger] groups@[l]).name@ == (#[trigger] commits@[kk]).author@;
            assert(lists(perm@, g0));
            let l0 = choose|l: int| 0 <= l < perm@.len() && #[trigger] perm@[l] == g0;
            assert(result@[l0].name@ == commits@[kk].author@);
        }
        assert forall|i: int| 0 <= i < result.len() implies (#[trigger] result@[i]).commits == commits@.filter(by_author(result@[i].name@)).len() by {
            assert(describes_author(result@[i], commits@));
        }
        lemma_commits_total_is_authored(result@, commits@);
        lemma_authored_total_covers(result@, commits@);
        lemma_line_totals_are_authored(result@, commits@);
        lemma_authored_lines_cover(result@, commits@);
    }
    result
}


// ── Working tree ────────────────────────────────────────────────────────────

/// Status bits of a file, as libgit2 numbers them (`git_status_t`).
pub const INDEX_NEW: u32 = 1;
pub const INDEX_MODIFIED: u32 = 2;
pub const INDEX_DELETED: u32 = 4;
pub const INDEX_RENAMED: u32 = 8;
pub const WT_NEW: u32 = 128;
pub const WT_MODIFIED: u32 = 256;
pub const WT_DELETED: u32 = 512;
pub const WT_RENAMED: u32 = 2048;

/// The bits that make a file count as staged.
pub const STAGED_BITS: u32 = INDEX_NEW | INDEX_MODIFIED | INDEX_DELETED | INDEX_RENAMED;

/// The bits that make a file count as modified in the working tree.
pub const MODIFIED_BITS: u32 = WT_MODIFIED | WT_DELETED | WT_RENAMED;

/// One entry of a repository's status list: its path, if it has one, and its
/// status bits.
pub struct StatusEntry {
    pub path: Option<String>,
    pub bits: u32,
}

/// How a changed file is counted.
pub enum Change {
    Staged,
    Untracked,
    Modified,
}

/// How a file with status `bits` is counted: staged takes precedence over
/// untracked, untracked over modified; other files are not counted.
pub open spec fn change_of(bits: u32) -> Option<Change> {
    if bits & STAGED_BITS != 0 {
        Some(Change::Staged)
    } else if bits & WT_NEW == WT_NEW {
        Some(Change::Untracked)
    } else if bits & MODIFIED_BITS != 0 {
        Some(Change::Modified)
    } else {
        None
    }
}

/// The word the file list uses for a change.
pub open spec fn change_word(c: Change) -> Seq<char> {
    match c {
        Change::Staged => "staged"@,
        Change::Untracked => "untracked"@,
        Change::Modified => "modified"@,
    }
}

/// Selects entries counted as `c`.
pub open spec fn counted_as(c: Change) -> spec_fn(StatusEntry) -> bool {
    |e: StatusEntry| change_of(e.bits) == Some(c)
}

/// The path of an entry, or nothing.
pub open spec fn entry_path(e: StatusEntry) -> Seq<char> {
    match e.path {
        Some(p) => p@,
        None => Seq::empty(),
    }
}

/// The changed files of `entries`, in order, each with the word for its change.
pub open spec fn changed_files(entries: Seq<StatusEntry>) -> Seq<(Seq<char>, Seq<char>)>
    decreases entries.len(),
{
    if entries.len() == 0 {
        seq![]
    } else {
        let prev = changed_files(entries.drop_last());
        match change_of(entries.last().bits) {
            Some(c) => prev.push((entry_path(entries.last()), change_word(c))),
            None => prev,
        }
    }
}

/// The path and kind of each listed file.
pub open spec fn files_view(files: Seq<StatusFile>) -> Seq<(Seq<char>, Seq<char>)> {
    files.map_values(|f: StatusFile| (f.path@, f.kind@))
}

/// How libgit2's status bits sort a file: staged exactly when it has an index
/// bit (new, modified, deleted or renamed in the index); otherwise untracked
/// exactly when it is new in the working tree; otherwise modified exactly when
/// it is modified, deleted or renamed in the working tree; and not counted
/// exactly when it has none of these bits.
pub proof fn law_status_bits(bits: u32)
    ensures
        (change_of(bits) == Some(Change::Staged)) <==> bits & (INDEX_NEW | INDEX_MODIFIED | INDEX_DELETED | INDEX_RENAMED) != 0,
        (change_of(bits) == Some(Change::Untracked)) <==> (bits & (INDEX_NEW | INDEX_MODIFIED | INDEX_DELETED | INDEX_RENAMED) == 0
            && bits & WT_NEW != 0),
        (change_of(bits) == Some(Change::Modified)) <==> (bits & (INDEX_NEW | INDEX_MODIFIED | INDEX_DELETED | INDEX_RENAMED) == 0
            && bits & WT_NEW == 0 && bits & (WT_MODIFIED | WT_DELETED | WT_RENAMED) != 0),
        (change_of(bits) is None) <==> bits & (INDEX_NEW | INDEX_MODIFIED | INDEX_DELETED | INDEX_RENAMED | WT_NEW | WT_MODIFIED
            | WT_DELETED | WT_RENAMED) == 0,
{
    assert(bits & 128u32 == 128u32 <==> bits & 128u32 != 0) by (bit_vector);
    assert((1u32 | 2u32 | 4u32 | 8u32) == 15u32) by (bit_vector);
    assert((256u32 | 512u32 | 2048u32) == 2816u32) by (bit_vector);
    assert((1u32 | 2u32 | 4u32 | 8u32 | 128u32 | 256u32 | 512u32 | 2048u32) == 2959u32) by (bit_vector);
    assert((bits & 15u32 == 0 && bits & 128u32 == 0 && bits & 2816u32 == 0) <==> bits & 2959u32 == 0) by (bit_vector);
}

/// Entries staged by their bits.
pub open spec fn staged_by_bits() -> spec_fn(StatusEntry) -> bool {
    |e: StatusEntry| e.bits & (INDEX_NEW | INDEX_MODIFIED | INDEX_DELETED | INDEX_RENAMED) != 0
}

/// Entries untracked by their bits.
pub open spec fn untracked_by_bits() -> spec_fn(StatusEntry) -> bool {
    |e: StatusEntry| e.bits & (INDEX_NEW | INDEX_MODIFIED | INDEX_DELETED | INDEX_RENAMED) == 0 && e.bits & WT_NEW != 0
}

/// Entries modified by their bits.
pub open spec fn modified_by_bits() -> spec_fn(StatusEntry) -> bool {
    |e: StatusEntry| e.bits & (INDEX_NEW | INDEX_MODIFIED | INDEX_DELETED | INDEX_RENAMED) == 0 && e.bits & WT_NEW == 0
        && e.bits & (WT_MODIFIED | WT_DELETED | WT_RENAMED) != 0
}

/// The tally of a repository's status counts, by their libgit2 bits, the
/// staged, untracked and modified entries, and calls it clean exactly when no
/// entry has any of the counted bits.
pub proof fn law_tally_by_bits(entries: Seq<StatusEntry>)
    ensures
        entries.filter(counted_as(Change::Staged)) == entries.filter(staged_by_bits()),
        entries.filter(counted_as(Change::Untracked)) == entries.filter(untracked_by_bits()),
        entries.filter(counted_as(Change::Modified)) == entries.filter(modified_by_bits()),
        (entries.filter(counted_as(Change::Staged)).len() == 0 && entries.filter(counted_as(Change::Untracked)).len() == 0
            && entries.filter(counted_as(Change::Modified)).len() == 0) <==> forall|k: int| 0 <= k < entries.len()
            ==> (#[trigger] entries[k]).bits & (INDEX_NEW | INDEX_MODIFIED | INDEX_DELETED | INDEX_RENAMED | WT_NEW
            | WT_MODIFIED | WT_DELETED | WT_RENAMED) == 0,
{
    assert forall|e: StatusEntry| #[trigger] counted_as(Change::Staged)(e) == staged_by_bits()(e) by {
        law_status_bits(e.bits);
    }
    assert forall|e: StatusEntry| #[trigger] counted_as(Change::Untracked)(e) == untracked_by_bits()(e) by {
        law_status_bits(e.bits);
    }
    assert forall|e: StatusEntry| #[trigger] counted_as(Change::Modified)(e) == modified_by_bits()(e) by {
        law_status_bits(e.bits);
    }
    assert(counted_as(Change::Staged) =~= staged_by_bits());
    assert(counted_as(Change::Untracked) =~= untracked_by_bits());
    assert(counted_as(Change::Modified) =~= modified_by_bits());
    let all = INDEX_NEW | INDEX_MODIFIED | INDEX_DELETED | INDEX_RENAMED | WT_NEW | WT_MODIFIED | WT_DELETED | WT_RENAMED;
    if forall|k: int| 0 <= k < entries.len() ==> (#[trigger] entries[k]).bits & all == 0 {
        assert forall|k: int| 0 <= k < entries.len() implies change_of((#[trigger] entries[k]).bits) is None by {
            law_status_bits(entries[k].bits);
        }
        entries.lemma_all_neg_filter_empty(counted_as(Change::Staged));
        entries.lemma_all_neg_filter_empty(counted_as(Change::Untracked));
        entries.lemma_all_neg_filter_empty(counted_as(Change::Modified));
    } else {
        let k = choose|k: int| 0 <= k < entries.len() && (#[trigger] entries[k]).bits & all != 0;
        law_status_bits(entries[k].bits);
        match change_of(entries[k].bits) {
            Some(c) => {
                entries.lemma_filter_contains(counted_as(c), k);
            },
            None => {},
        }
    }
}

/// Entries with any bit that counts a file.
pub open spec fn counted_by_bits() -> spec_fn(StatusEntry) -> bool {
    |e: StatusEntry| e.bits & (INDEX_NEW | INDEX_MODIFIED | INDEX_DELETED | INDEX_RENAMED | WT_NEW | WT_MODIFIED
        | WT_DELETED | WT_RENAMED) != 0
}

/// A counted entry as the file list shows it: its path (or nothing) and
/// "staged" for an index bit, else "untracked" for a new working-tree file,
/// else "modified".
pub open spec fn listed_by_bits(e: StatusEntry) -> (Seq<char>, Seq<char>) {
    (
        match e.path {
            Some(p) => p@,
            None => Seq::empty(),
        },
        if e.bits & (INDEX_NEW | INDEX_MODIFIED | INDEX_DELETED | INDEX_RENAMED) != 0 {
            "staged"@
        } else if e.bits & WT_NEW != 0 {
            "untracked"@
        } else {
            "modified"@
        },
    )
}

/// The file list holds every entry with a counted bit, in order, with its
/// path and the word for its bits.
pub proof fn law_changed_files_by_bits(entries: Seq<StatusEntry>)
    ensures
        changed_files(entries) == entries.filter(counted_by_bits()).map_values(|e: StatusEntry| listed_by_bits(e)),
    decreases entries.len(),
{
    if entries.len() > 0 {
        let t = entries.drop_last();
        let e = entries.last();
        law_changed_files_by_bits(t);
        law_status_bits(e.bits);
        assert(entries == t.push(e));
        t.lemma_filter_push(e, counted_by_bits());
        let f = |x: StatusEntry| listed_by_bits(x);
        if counted_by_bits()(e) {
            assert(t.filter(counted_by_bits()).push(e).map_values(f) =~= t.filter(counted_by_bits()).map_values(f).push(
                listed_by_bits(e),
            ));
        }
    } else {
        assert(entries.filter(counted_by_bits()) =~= Seq::<StatusEntry>::empty());
    }
}

/// Counts a repository's status entries: how many files are staged, modified
/// and untracked (each file counted once, by precedence), the list of those
/// files, and `clean` exactly when there are none.
pub fn tally_status(entries: &Vec<StatusEntry>, ahead: u32, behind: u32) -> (r: WorkingTreeStatus)
    requires
        entries.len() <= u32::MAX,
    ensures
        r.staged == entries@.filter(counted_as(Change::Staged)).len(),
        r.untracked == entries@.filter(counted_as(Change::Untracked)).len(),
        r.modified == entries@.filter(counted_as(Change::Modified)).len(),
        r.clean == (r.staged == 0 && r.modified == 0 && r.untracked == 0),
        r.ahead == ahead,
        r.behind == behind,
        files_view(r.files@) == changed_files(entries@),
        r.staged == entries@.filter(staged_by_bits()).len(),
        r.untracked == entries@.filter(untracked_by_bits()).len(),
        r.modified == entries@.filter(modified_by_bits()).len(),
        r.clean <==> forall|k: int| 0 <= k < entries.len() ==> (#[trigger] entries@[k]).bits & (INDEX_NEW | INDEX_MODIFIED
            | INDEX_DELETED | INDEX_RENAMED | WT_NEW | WT_MODIFIED | WT_DELETED | WT_RENAMED) == 0,
        files_view(r.files@) == entries@.filter(counted_by_bits()).map_values(|e: StatusEntry| listed_by_bits(e)),
{
    proof {
        law_tally_by_bits(entries@);
        law_changed_files_by_bits(entries@);
    }
    let mut staged: u32 = 0;
    let mut modified: u32 = 0;
    let mut untracked: u32 = 0;
    let mut files: Vec<StatusFile> = Vec::new();
    let n = entries.len();
    let mut i: usize = 0;
    while i < n
        invariant
            i <= n,
            n == entries.len(),
            n <= u32::MAX,
            staged == entries@.take(i as int).filter(counted_as(Change::Staged)).len(),
            untracked == entries@.take(i as int).filter(counted_as(Change::Untracked)).len(),
            modified == entries@.take(i as int).filter(counted_as(Change::Modified)).len(),
            staged + untracked + modified <= i,
            files_view(files@) == changed_files(entries@.take(i as int)),
        decreases n - i,
    {
        let e = &entries[i];
        let ghost pre = entries@.take(i as int);
        assert(entries@.take(i + 1) == pre.push(*e));
        assert(entries@.take(i + 1).drop_last() == pre);
        let path = match &e.path {
            Some(p) => p.clone(),
            None => String::new(),
        };
        let bits = e.bits;
        if bits & STAGED_BITS != 0 {
            staged += 1;
            files.push(StatusFile { path, kind: string_from("staged") });
        } else if bits & WT_NEW == WT_NEW {
            untracked += 1;
            files.push(StatusFile { path, kind: string_from("untracked") });
        } else if bits & MODIFIED_BITS != 0 {
            modified += 1;
            files.push(StatusFile { path, kind: string_from("modified") });
        }
        i += 1;
    }
    assert(entries@.take(n as int) == entries@);
    let clean = staged == 0 && modified == 0 && untracked == 0;
    WorkingTreeStatus { clean, staged, modified, untracked, ahead, behind, files }
}


// ── Remotes ─────────────────────────────────────────────────────────────────

/// The hosting service a remote URL points at.
pub open spec fn remote_host_spec(url: Seq<char>) -> Seq<char> {
    if contains_chars(url, "github.com"@) {
        "github"@
    } else if contains_chars(url, "gitlab.com"@) {
        "gitlab"@
    } else if contains_chars(url, "bitbucket.org"@) {
        "bitbucket"@
    } else {
        "git"@
    }
}

/// Every ':' replaced by '/'.
pub open spec fn colons_to_slashes(s: Seq<char>) -> Seq<char> {
    s.map_values(|c: char| if c == ':' { '/' } else { c })
}

/// A remote URL as shown: without leading "https://", "http://" and "git@",
/// with ':' turned into '/', and without trailing ".git".
pub open spec fn remote_display_spec(url: Seq<char>) -> Seq<char> {
    strip_suffixes(
        colons_to_slashes(strip_prefixes(strip_prefixes(strip_prefixes(url, "https://"@), "http://"@), "git@"@)),
        ".git"@,
    )
}

/// The shown form of a remote URL and the name of its host
/// (`"github"`, `"gitlab"`, `"bitbucket"` or `"git"`).
pub fn describe_remote(url: &str) -> (r: (String, String))
    ensures
        r.0@ == remote_display_spec(url@),
        r.1@ == remote_host_spec(url@),
{
    let u = chars_of(url);
    let host = if contains_exec(&u, &chars_of("github.com")) {
        string_from("github")
    } else if contains_exec(&u, &chars_of("gitlab.com")) {
        string_from("gitlab")
    } else if contains_exec(&u, &chars_of("bitbucket.org")) {
        string_from("bitbucket")
    } else {
        string_from("git")
    };
    let a = strip_prefixes_exec(&u, &chars_of("https://"));
    let b = strip_prefixes_exec(&a, &chars_of("http://"));
    let c = strip_prefixes_exec(&b, &chars_of("git@"));
    let mut d: Vec<char> = Vec::new();
    let mut i: usize = 0;
    while i < c.len()
        invariant
            i <= c.len(),
            d@ == colons_to_slashes(c@.take(i as int)),
        decreases c.len() - i,
    {
        let ch = c[i];
        d.push(if ch == ':' { '/' } else { ch });
        assert(c@.take(i + 1) == c@.take(i as int).push(ch));
        i += 1;
    }
    assert(c@.take(c.len() as int) == c@);
    let e = strip_suffixes_exec(&d, &chars_of(".git"));
    (string_of(&e), host)
}

// ── Branches and commits ────────────────────────────────────────────────────

/// The branch the remote's HEAD points at, given its symbolic target, or else
/// "main" or "master", whichever exists, preferring "main".
pub open spec fn default_branch_spec(origin_head: Option<Seq<char>>, has_main: bool, has_master: bool) -> Seq<char> {
    match origin_head {
        Some(t) => strip_prefixes(t, "refs/remotes/origin/"@),
        None => if !has_main && has_master {
            "master"@
        } else {
            "main"@
        },
    }
}

/// Chooses the default branch from the target of `refs/remotes/origin/HEAD`
/// (if it is a symbolic reference) and whether `main` and `master` exist.
pub fn choose_default_branch(origin_head: Option<String>, has_main: bool, has_master: bool) -> (r: String)
    ensures
        r@ == default_branch_spec(crate::models::opt_chars(origin_head), has_main, has_master),
{
    match origin_head {
        Some(t) => {
            let cs = chars_of(t.as_str());
            let stripped = strip_prefixes_exec(&cs, &chars_of("refs/remotes/origin/"));
            string_of(&stripped)
        },
        None => if has_main {
            string_from("main")
        } else if has_master {
            string_from("master")
        } else {
            string_from("main")
        },
    }
}

/// The full name of a local branch, `refs/heads/<branch>`.
pub fn local_branch_ref(branch: &str) -> (r: String)
    ensures
        r@ == "refs/heads/"@ + branch@,
{
    let mut r = string_from("refs/heads/");
    push_all(&mut r, branch);
    r
}

/// The full name of a branch of `origin`, `refs/remotes/origin/<branch>`.
pub fn remote_branch_ref(branch: &str) -> (r: String)
    ensures
        r@ == "refs/remotes/origin/"@ + branch@,
{
    let mut r = string_from("refs/remotes/origin/");
    push_all(&mut r, branch);
    r
}

/// The RFC 3339 text chrono gives for a UNIX time in UTC, if the time is
/// representable.
pub uninterp spec fn utc_rfc3339(secs: i64) -> Option<Seq<char>>;

/// Calls `chrono::Utc.timestamp_opt(secs, 0).single()` and formats the time
/// with `to_rfc3339`; the result is the named text.
#[verifier::external_body]
fn rfc3339_of_timestamp(secs: i64) -> (r: Option<String>)
    ensures
        crate::models::opt_chars(r) == utc_rfc3339(secs),
{
    match chrono::Utc.timestamp_opt(secs, 0).single() {
        Some(dt) => Some(dt.to_rfc3339()),
        None => None,
    }
}

/// The RFC 3339 text of a UNIX time, or nothing if it is out of range.
pub open spec fn iso_time_spec(secs: i64) -> Seq<char> {
    match utc_rfc3339(secs) {
        Some(t) => t,
        None => Seq::empty(),
    }
}

/// A UNIX time (seconds, UTC) as RFC 3339 text; empty when out of range.
pub fn ts_to_iso(secs: i64) -> (r: String)
    ensures
        r@ == iso_time_spec(secs),
{
    match rfc3339_of_timestamp(secs) {
        Some(t) => t,
        None => String::new(),
    }
}

/// How many commits a history lists at most.
pub const COMMIT_LIMIT: usize = 50;

/// How many of the newest commits get diff statistics.
pub const DIFF_STATS_LIMIT: usize = 30;

/// Whether the commit at `position` (0 = newest) is listed.
pub fn lists_commit_at(position: usize) -> (r: bool)
    ensures
        r == (position < COMMIT_LIMIT),
{
    position < COMMIT_LIMIT
}

/// Whether the commit at `position` gets diff statistics.
pub fn wants_diff_stats(position: usize) -> (r: bool)
    ensures
        r == (position < DIFF_STATS_LIMIT),
{
    position < DIFF_STATS_LIMIT
}

/// The short form of a commit hash: its first seven characters.
pub fn short_hash(full: &str) -> (r: String)
    ensures
        r@ == at_most(full@, 7),
{
    let cs = chars_of(full);
    if cs.len() <= 7 {
        string_of(&cs)
    } else {
        let r = crate::text::string_of_range(&cs, 0, 7);
        assert(cs@.subrange(0, 7) == cs@.take(7));
        r
    }
}

/// Builds a commit entry: the short hash, the summary line (or nothing), the
/// author (or "Unknown"), the time as RFC 3339 text and the diff statistics.
pub fn make_commit(
    hash: &str,
    summary: Option<String>,
    author: Option<String>,
    secs: i64,
    additions: u32,
    deletions: u32,
) -> (r: Commit)
    ensures
        r.hash@ == at_most(hash@, 7),
        r.msg@ == (match summary {
            Some(s) => s@,
            None => Seq::empty(),
        }),
        r.author@ == (match author {
            Some(a) => a@,
            None => "Unknown"@,
        }),
        r.date matches Some(d) && d@ == iso_time_spec(secs),
        r.additions == additions,
        r.deletions == deletions,
{
    Commit {
        hash: short_hash(hash),
        msg: match summary {
            Some(s) => s,
            None => String::new(),
        },
        author: match author {
            Some(a) => a,
            None => string_from("Unknown"),
        },
        date: Some(ts_to_iso(secs)),
        additions,
        deletions,
    }
}

/// Builds a branch entry from its tip commit's summary and time (if the tip
/// could be read) and its ahead/behind counts against its upstream (if known;
/// counts are truncated to 32 bits).
pub fn make_branch(
    name: String,
    current: bool,
    tip: Option<(Option<String>, i64)>,
    ahead_behind: Option<(usize, usize)>,
) -> (r: Branch)
    ensures
        r.name == name,
        r.current == current,
        r.last_msg@ == (match tip {
            Some((Some(s), _)) => s@,
            _ => Seq::empty(),
        }),
        r.when matches Some(w) ==> tip matches Some((_, t)) && w@ == iso_time_spec(t),
        r.when is None <==> tip is None,
        r.ahead == (match ahead_behind {
            Some((a, _)) => a as u32,
            None => 0,
        }),
        r.behind == (match ahead_behind {
            Some((_, b)) => b as u32,
            None => 0,
        }),
{
    let (last_msg, when) = match tip {
        Some((summary, secs)) => (
            match summary {
                Some(s) => s,
                None => String::new(),
            },
            Some(ts_to_iso(secs)),
        ),
        None => (String::new(), None),
    };
    let (ahead, behind) = match ahead_behind {
        Some((a, b)) => (#[verifier::truncate] (a as u32), #[verifier::truncate] (b as u32)),
        None => (0, 0),
    };
    Branch { name, current, ahead, behind, last_msg, when }
}


// ── Languages ───────────────────────────────────────────────────────────────

/// The characters of each text pair.
pub open spec fn pairs_view(s: Seq<(&str, &str)>) -> Seq<(Seq<char>, Seq<char>)> {
    s.map_values(|p: (&str, &str)| (p.0@, p.1@))
}

/// The characters of each text.
pub open spec fn texts_view(s: Seq<&str>) -> Seq<Seq<char>> {
    s.map_values(|t: &str| t@)
}

/// The known languages with their display colors.
pub open spec fn language_colors() -> Seq<(Seq<char>, Seq<char>)> {
    seq![
        ("Rust"@, "#DEA584"@),
        ("Go"@, "#00ADD8"@),
        ("TypeScript"@, "#3178C6"@),
        ("JavaScript"@, "#F1E05A"@),
        ("Python"@, "#3572A5"@),
        ("Swift"@, "#F05138"@),
        ("Kotlin"@, "#A97BFF"@),
        ("Java"@, "#B07219"@),
        ("HCL"@, "#844FBA"@),
        ("Shell"@, "#89E051"@),
        ("CSS"@, "#563D7C"@),
        ("SCSS"@, "#C6538C"@),
        ("HTML"@, "#E34C26"@),
        ("Vue"@, "#41B883"@),
        ("Ruby"@, "#701516"@),
        ("YAML"@, "#CB171E"@),
        ("SQL"@, "#E38C00"@),
        ("Markdown"@, "#083FA1"@),
        ("Dockerfile"@, "#384D54"@),
        ("TOML"@, "#9C4221"@),
        ("JSON"@, "#6B7280"@)
    ]
}

/// The file extensions of the known languages, each with its language.
pub open spec fn language_extensions() -> Seq<(Seq<char>, Seq<char>)> {
    seq![
        ("rs"@, "Rust"@),
        ("go"@, "Go"@),
        ("ts"@, "TypeScript"@),
        ("tsx"@, "TypeScript"@),
        ("js"@, "JavaScript"@),
        ("jsx"@, "JavaScript"@),
        ("mjs"@, "JavaScript"@),
        ("cjs"@, "JavaScript"@),
        ("py"@, "Python"@),
        ("swift"@, "Swift"@),
        ("kt"@, "Kotlin"@),
        ("kts"@, "Kotlin"@),
        ("java"@, "Java"@),
        ("tf"@, "HCL"@),
        ("hcl"@, "HCL"@),
        ("sh"@, "Shell"@),
        ("bash"@, "Shell"@),
        ("zsh"@, "Shell"@),
        ("css"@, "CSS"@),
        ("scss"@, "SCSS"@),
        ("sass"@, "SCSS"@),
        ("html"@, "HTML"@),
        ("htm"@, "HTML"@),
        ("vue"@, "Vue"@),
        ("rb"@, "Ruby"@),
        ("yml"@, "YAML"@),
        ("yaml"@, "YAML"@),
        ("sql"@, "SQL"@),
        ("md"@, "Markdown"@),
        ("mdx"@, "Markdown"@),
        ("dockerfile"@, "Dockerfile"@),
        ("toml"@, "TOML"@),
        ("json"@, "JSON"@)
    ]
}

/// The file names a README is looked for under, in order.
pub open spec fn readme_names() -> Seq<Seq<char>> {
    seq!["README.md"@, "readme.md"@, "Readme.md"@, "README.MD"@, "README"@]
}

/// The file names a README is looked for under, in order of preference.
pub fn readme_candidates() -> (r: Vec<&'static str>)
    ensures
        texts_view(r@) == readme_names(),
{
    let mut r: Vec<&'static str> = Vec::new();
    r.push("README.md");
    r.push("readme.md");
    r.push("Readme.md");
    r.push("README.MD");
    r.push("README");
    assert(texts_view(r@) =~= readme_names());
    r
}

/// Directories that language detection does not descend into.
pub open spec fn skipped_dirs() -> Seq<Seq<char>> {
    seq![".git"@, "node_modules"@, "vendor"@, "target"@, "dist"@, "build"@, ".next"@, "__pycache__"@, ".gradle"@, "Pods"@, "DerivedData"@, ".build"@]
}

fn language_color_rows() -> (r: Vec<(&'static str, &'static str)>)
    ensures
        pairs_view(r@) == language_colors(),
{
    let mut r: Vec<(&'static str, &'static str)> = Vec::new();
    r.push(("Rust", "#DEA584"));
    r.push(("Go", "#00ADD8"));
    r.push(("TypeScript", "#3178C6"));
    r.push(("JavaScript", "#F1E05A"));
    r.push(("Python", "#3572A5"));
    r.push(("Swift", "#F05138"));
    r.push(("Kotlin", "#A97BFF"));
    r.push(("Java", "#B07219"));
    r.push(("HCL", "#844FBA"));
    r.push(("Shell", "#89E051"));
    r.push(("CSS", "#563D7C"));
    r.push(("SCSS", "#C6538C"));
    r.push(("HTML", "#E34C26"));
    r.push(("Vue", "#41B883"));
    r.push(("Ruby", "#701516"));
    r.push(("YAML", "#CB171E"));
    r.push(("SQL", "#E38C00"));
    r.push(("Markdown", "#083FA1"));
    r.push(("Dockerfile", "#384D54"));
    r.push(("TOML", "#9C4221"));
    r.push(("JSON", "#6B7280"));
    assert(pairs_view(r@) =~= language_colors());
    r
}

fn language_extension_rows() -> (r: Vec<(&'static str, &'static str)>)
    ensures
        pairs_view(r@) == language_extensions(),
{
    let mut r: Vec<(&'static str, &'static str)> = Vec::new();
    r.push(("rs", "Rust"));
    r.push(("go", "Go"));
    r.push(("ts", "TypeScript"));
    r.push(("tsx", "TypeScript"));
    r.push(("js", "JavaScript"));
    r.push(("jsx", "JavaScript"));
    r.push(("mjs", "JavaScript"));
    r.push(("cjs", "JavaScript"));
    r.push(("py", "Python"));
    r.push(("swift", "Swift"));
    r.push(("kt", "Kotlin"));
    r.push(("kts", "Kotlin"));
    r.push(("java", "Java"));
    r.push(("tf", "HCL"));
    r.push(("hcl", "HCL"));
    r.push(("sh", "Shell"));
    r.push(("bash", "Shell"));
    r.push(("zsh", "Shell"));
    r.push(("css", "CSS"));
    r.push(("scss", "SCSS"));
    r.push(("sass", "SCSS"));
    r.push(("html", "HTML"));
    r.push(("htm", "HTML"));
    r.push(("vue", "Vue"));
    r.push(("rb", "Ruby"));
    r.push(("yml", "YAML"));
    r.push(("yaml", "YAML"));
    r.push(("sql", "SQL"));
    r.push(("md", "Markdown"));
    r.push(("mdx", "Markdown"));
    r.push(("dockerfile", "Dockerfile"));
    r.push(("toml", "TOML"));
    r.push(("json", "JSON"));
    assert(pairs_view(r@) =~= language_extensions());
    r
}

fn skipped_dir_rows() -> (r: Vec<&'static str>)
    ensures
        texts_view(r@) == skipped_dirs(),
{
    let mut r: Vec<&'static str> = Vec::new();
    r.push(".git");
    r.push("node_modules");
    r.push("vendor");
    r.push("target");
    r.push("dist");
    r.push("build");
    r.push(".next");
    r.push("__pycache__");
    r.push(".gradle");
    r.push("Pods");
    r.push("DerivedData");
    r.push(".build");
    assert(texts_view(r@) =~= skipped_dirs());
    r
}

/// Selects rows whose first text is `key`.
pub open spec fn keyed(key: Seq<char>) -> spec_fn((Seq<char>, Seq<char>)) -> bool {
    |p: (Seq<char>, Seq<char>)| p.0 == key
}

/// The second text of the first row keyed `key`, if any.
pub open spec fn lookup(rows: Seq<(Seq<char>, Seq<char>)>, key: Seq<char>) -> Option<Seq<char>> {
    match first_index(rows, keyed(key)) {
        Some(i) => Some(rows[i].1),
        None => None,
    }
}

/// Looks `key` up in a table of text pairs.
pub(crate) fn lookup_exec(rows: &Vec<(&'static str, &'static str)>, key: &str) -> (r: Option<String>)
    ensures
        opt_chars(r) == lookup(pairs_view(rows@), key@),
{
    let n = rows.len();
    let mut i: usize = 0;
    while i < n
        invariant
            i <= n,
            n == rows.len(),
            forall|k: int| 0 <= k < i ==> !keyed(key@)(#[trigger] pairs_view(rows@)[k]),
        decreases n - i,
    {
        if str_eq(rows[i].0, key) {
            proof {
                lemma_first_index_is(pairs_view(rows@), keyed(key@), i as int);
            }
            return Some(string_from(rows[i].1));
        }
        i += 1;
    }
    proof {
        lemma_first_index_none(pairs_view(rows@), keyed(key@));
    }
    None
}

/// What `Path::extension` gives for a path, as a string.
pub uninterp spec fn path_extension(path: Seq<char>) -> Option<Seq<char>>;

/// Calls `std::path::Path::extension` and converts the extension to a string.
#[verifier::external_body]
fn extension(path: &str) -> (r: Option<String>)
    ensures
        opt_chars(r) == path_extension(path@),
{
    match std::path::Path::new(path).extension() {
        Some(e) => match e.to_str() {
            Some(s) => Some(s.to_string()),
            None => None,
        },
        None => None,
    }
}

/// The language of a file: "Dockerfile" for a file named so (in any case),
/// else the language of its lower-cased extension, if known.
pub open spec fn language_for_file_spec(path: Seq<char>, file_name: Seq<char>) -> Option<Seq<char>> {
    if str_lowercase(file_name) == "dockerfile"@ {
        Some("Dockerfile"@)
    } else {
        match path_extension(path) {
            Some(ext) => lookup(language_extensions(), str_lowercase(ext)),
            None => None,
        }
    }
}

/// The language of the file at `path`, whose final component is `file_name`.
pub fn language_for_file(path: &str, file_name: &str) -> (r: Option<String>)
    ensures
        opt_chars(r) == language_for_file_spec(path@, file_name@),
{
    let lower = to_lowercase(file_name);
    if str_eq(lower.as_str(), "dockerfile") {
        return Some(string_from("Dockerfile"));
    }
    match extension(path) {
        Some(ext) => {
            let e = to_lowercase(ext.as_str());
            lookup_exec(&language_extension_rows(), e.as_str())
        },
        None => None,
    }
}

/// The display color of a language ("#888" for an unknown one).
pub open spec fn language_color_spec(name: Seq<char>) -> Seq<char> {
    match lookup(language_colors(), name) {
        Some(c) => c,
        None => "#888"@,
    }
}

/// The display color of a language.
pub fn language_color(name: &str) -> (r: String)
    ensures
        r@ == language_color_spec(name@),
{
    match lookup_exec(&language_color_rows(), name) {
        Some(c) => c,
        None => string_from("#888"),
    }
}

/// Whether language detection descends into an entry: files always, and
/// directories unless their name is one of the skipped ones (a name that is
/// not valid text is not skipped).
pub fn detection_descends(is_file: bool, name: Option<&str>) -> (r: bool)
    ensures
        r == (is_file || match name {
            Some(n) => !skipped_dirs().contains(n@),
            None => true,
        }),
{
    if is_file {
        return true;
    }
    match name {
        Some(n) => {
            let rows = skipped_dir_rows();
            let mut i: usize = 0;
            while i < rows.len()
                invariant
                    i <= rows.len(),
                    !is_file,
                    name == Some(n),
                    texts_view(rows@) == skipped_dirs(),
                    forall|k: int| 0 <= k < i ==> skipped_dirs()[k] != n@,
                decreases rows.len() - i,
            {
                if str_eq(rows[i], n) {
                    assert(texts_view(rows@)[i as int] == rows@[i as int]@);
                    assert(skipped_dirs()[i as int] == n@);
                    return false;
                }
                i += 1;
            }
            true
        },
        None => true,
    }
}

/// Whether a scanned entry marks a repository: a directory named ".git".
/// The scan walks everything under the directory it is given and reports
/// the directory holding each such entry.
pub fn marks_repository(is_dir: bool, name: &str) -> (r: bool)
    ensures
        r == (is_dir && name@ == ".git"@),
{
    is_dir && str_eq(name, ".git")
}


/// The bytes of the files of language `name` in `files` (pairs of language
/// and size).
pub open spec fn bytes_of(files: Seq<(String, u64)>, name: Seq<char>) -> nat
    decreases files.len(),
{
    if files.len() == 0 {
        0
    } else {
        bytes_of(files.drop_last(), name) + (if files.last().0@ == name { files.last().1 as nat } else { 0nat })
    }
}

/// The bytes of all files in `files`.
pub open spec fn total_bytes(files: Seq<(String, u64)>) -> nat
    decreases files.len(),
{
    if files.len() == 0 {
        0
    } else {
        total_bytes(files.drop_last()) + files.last().1 as nat
    }
}

/// One language's bytes are part of all bytes.
proof fn lemma_bytes_of_le_total(files: Seq<(String, u64)>, name: Seq<char>)
    ensures
        bytes_of(files, name) <= total_bytes(files),
    decreases files.len(),
{
    if files.len() > 0 {
        lemma_bytes_of_le_total(files.drop_last(), name);
    }
}

/// A prefix holds no more bytes than the whole.
proof fn lemma_total_bytes_prefix(files: Seq<(String, u64)>, i: int)
    requires
        0 <= i <= files.len(),
    ensures
        total_bytes(files.take(i)) <= total_bytes(files),
    decreases files.len() - i,
{
    if i < files.len() {
        lemma_total_bytes_prefix(files, i + 1);
        assert(files.take(i + 1).drop_last() == files.take(i));
    } else {
        assert(files.take(i) == files);
    }
}

/// A language without files has no bytes.
proof fn lemma_bytes_of_absent(files: Seq<(String, u64)>, name: Seq<char>)
    requires
        forall|k: int| 0 <= k < files.len() ==> (#[trigger] files[k]).0@ != name,
    ensures
        bytes_of(files, name) == 0,
    decreases files.len(),
{
    if files.len() > 0 {
        let t = files.drop_last();
        assert forall|k: int| 0 <= k < t.len() implies (#[trigger] t[k]).0@ != name by {
            assert(t[k] == files[k]);
        }
        lemma_bytes_of_absent(t, name);
        assert(files.last() == files[files.len() - 1]);
    }
}

/// Each entry of `groups` holds the bytes of its language in `files`.
pub open spec fn sums_bytes(groups: Seq<(String, u64)>, files: Seq<(String, u64)>) -> bool {
    forall|j: int| 0 <= j < groups.len() ==> (#[trigger] groups[j]).1 == bytes_of(files, groups[j].0@)
}

/// Some entry of `s` is for language `name`.
pub open spec fn lists_language(s: Seq<(String, u64)>, name: Seq<char>) -> bool {
    exists|k: int| 0 <= k < s.len() && (#[trigger] s[k]).0@ == name
}

/// Each language of `groups` has a file in `files`.
pub open spec fn langs_occur(groups: Seq<(String, u64)>, files: Seq<(String, u64)>) -> bool {
    forall|j: int| 0 <= j < groups.len() ==> lists_language(files, (#[trigger] groups[j]).0@)
}

/// No language is listed twice.
pub open spec fn langs_distinct(groups: Seq<(String, u64)>) -> bool {
    forall|j: int, l: int| 0 <= j < l < groups.len() ==> groups[j].0@ != groups[l].0@
}

/// The language of every file of `files` is listed.
pub open spec fn langs_cover(groups: Seq<(String, u64)>, files: Seq<(String, u64)>) -> bool {
    forall|k: int| 0 <= k < files.len() ==> lists_language(groups, (#[trigger] files[k]).0@)
}

/// `groups` hold, once per language of `files`, the bytes of that language.
pub open spec fn sums_languages(groups: Seq<(String, u64)>, files: Seq<(String, u64)>) -> bool {
    &&& sums_bytes(groups, files)
    &&& langs_occur(groups, files)
    &&& langs_distinct(groups)
    &&& langs_cover(groups, files)
}

/// One more file adds its size to its language.
proof fn lemma_bytes_of_push(pre: Seq<(String, u64)>, f: (String, u64), name: Seq<char>)
    ensures
        bytes_of(pre.push(f), name) == bytes_of(pre, name) + (if f.0@ == name { f.1 as nat } else { 0nat }),
{
    assert(pre.push(f).drop_last() == pre);
    assert(pre.push(f).last() == f);
}

/// A language listed among some entries is listed among more.
proof fn lemma_lists_push(s: Seq<(String, u64)>, f: (String, u64), name: Seq<char>)
    requires
        lists_language(s, name),
    ensures
        lists_language(s.push(f), name),
{
    let k0 = choose|k: int| 0 <= k < s.len() && (#[trigger] s[k]).0@ == name;
    assert(s.push(f)[k0] == s[k0]);
}

/// Adding a file of a language already listed adds its size there.
#[verifier::spinoff_prover]
proof fn lemma_sums_add(old: Seq<(String, u64)>, new: Seq<(String, u64)>, pre: Seq<(String, u64)>, f: (String, u64), j: int)
    requires
        sums_languages(old, pre),
        0 <= j < old.len(),
        old[j].0@ == f.0@,
        new.len() == old.len(),
        new[j].0@ == old[j].0@,
        new[j].1 == old[j].1 + f.1,
        forall|l: int| 0 <= l < old.len() && l != j ==> new[l] == old[l],
    ensures
        sums_languages(new, pre.push(f)),
{
    let post = pre.push(f);
    assert forall|l: int| 0 <= l < new.len() implies (#[trigger] new[l]).1 == bytes_of(post, new[l].0@) by {
        lemma_bytes_of_push(pre, f, new[l].0@);
        if l != j {
            assert(new[l] == old[l]);
            if l < j {
                assert(old[l].0@ != old[j].0@);
            } else {
                assert(old[j].0@ != old[l].0@);
            }
        }
    }
    assert(langs_occur(new, post)) by {
        assert forall|l: int| 0 <= l < new.len() implies lists_language(post, (#[trigger] new[l]).0@) by {
            assert(new[l].0@ == old[l].0@);
            assert(lists_language(pre, old[l].0@));
            lemma_lists_push(pre, f, old[l].0@);
        }
    }
    assert(langs_distinct(new)) by {
        assert forall|a: int, b: int| 0 <= a < b < new.len() implies new[a].0@ != new[b].0@ by {
            assert(new[a].0@ == old[a].0@);
            assert(new[b].0@ == old[b].0@);
        }
    }
    assert(langs_cover(new, post)) by {
        assert forall|k: int| 0 <= k < post.len() implies lists_language(new, (#[trigger] post[k]).0@) by {
            if k == pre.len() {
                assert(post[k] == f);
                assert(new[j].0@ == post[k].0@);
            } else {
                assert(post[k] == pre[k]);
                assert(lists_language(old, pre[k].0@));
                let l0 = choose|l: int| 0 <= l < old.len() && (#[trigger] old[l]).0@ == pre[k].0@;
                assert(new[l0].0@ == old[l0].0@);
            }
        }
    }
}

/// Adding a file of a new language lists the language with its size.
#[verifier::spinoff_prover]
proof fn lemma_sums_new(old: Seq<(String, u64)>, new: Seq<(String, u64)>, pre: Seq<(String, u64)>, f: (String, u64))
    requires
        sums_languages(old, pre),
        forall|l: int| 0 <= l < old.len() ==> (#[trigger] old[l]).0@ != f.0@,
        new.len() == old.len() + 1,
        forall|l: int| 0 <= l < old.len() ==> new[l] == old[l],
        new[old.len() as int].0@ == f.0@,
        new[old.len() as int].1 == f.1,
    ensures
        sums_languages(new, pre.push(f)),
{
    let post = pre.push(f);
    let m = old.len() as int;
    assert forall|k: int| 0 <= k < pre.len() implies (#[trigger] pre[k]).0@ != f.0@ by {
        assert(lists_language(old, pre[k].0@));
        let l0 = choose|l: int| 0 <= l < old.len() && (#[trigger] old[l]).0@ == pre[k].0@;
        assert(old[l0].0@ != f.0@);
    }
    lemma_bytes_of_absent(pre, f.0@);
    assert forall|l: int| 0 <= l < new.len() implies (#[trigger] new[l]).1 == bytes_of(post, new[l].0@) by {
        lemma_bytes_of_push(pre, f, new[l].0@);
        if l < m {
            assert(new[l] == old[l]);
            assert(old[l].0@ != f.0@);
        }
    }
    assert(langs_occur(new, post)) by {
        assert forall|l: int| 0 <= l < new.len() implies lists_language(post, (#[trigger] new[l]).0@) by {
            if l < m {
                assert(new[l] == old[l]);
                assert(lists_language(pre, old[l].0@));
                lemma_lists_push(pre, f, old[l].0@);
            } else {
                assert(post[pre.len() as int] == f);
            }
        }
    }
    assert(langs_distinct(new)) by {
        assert forall|a: int, b: int| 0 <= a < b < new.len() implies new[a].0@ != new[b].0@ by {
            assert(new[a] == old[a]);
            if b < m {
                assert(new[b] == old[b]);
            }
        }
    }
    assert(langs_cover(new, post)) by {
        assert forall|k: int| 0 <= k < post.len() implies lists_language(new, (#[trigger] post[k]).0@) by {
            if k == pre.len() {
                assert(post[k] == f);
                assert(new[m].0@ == post[k].0@);
            } else {
                assert(post[k] == pre[k]);
                assert(lists_language(old, pre[k].0@));
                let l0 = choose|l: int| 0 <= l < old.len() && (#[trigger] old[l]).0@ == pre[k].0@;
                assert(new[l0] == old[l0]);
            }
        }
    }
}

/// The bytes per language of detected files (pairs of language and size), one
/// entry per language that has a file, and the bytes of all of them. Entries
/// come in the order their languages first appear.
pub fn language_bytes(files: &Vec<(String, u64)>) -> (r: (Vec<(String, u64)>, u64))
    requires
        total_bytes(files@) <= u64::MAX,
    ensures
        sums_languages(r.0@, files@),
        r.1 == total_bytes(files@),
{
    let mut groups: Vec<(String, u64)> = Vec::new();
    let mut total: u64 = 0;
    let n = files.len();
    let mut i: usize = 0;
    assert(sums_languages(groups@, files@.take(0)));
    while i < n
        invariant
            i <= n,
            n == files.len(),
            total_bytes(files@) <= u64::MAX,
            total == total_bytes(files@.take(i as int)),
            sums_languages(groups@, files@.take(i as int)),
        decreases n - i,
    {
        let f = &files[i];
        let ghost pre = files@.take(i as int);
        let ghost post = files@.take(i + 1);
        proof {
            assert(post == pre.push(*f));
            assert(post.drop_last() == pre);
            lemma_total_bytes_prefix(files@, i + 1);
            lemma_bytes_of_le_total(post, f.0@);
        }
        let mut j: usize = 0;
        while j < groups.len() && !str_eq(groups[j].0.as_str(), f.0.as_str())
            invariant
                j <= groups.len(),
                forall|l: int| 0 <= l < j ==> (#[trigger] groups@[l]).0@ != f.0@,
            decreases groups.len() - j,
        {
            j += 1;
        }
        let ghost old_groups = groups@;
        if j < groups.len() {
            let updated = (groups[j].0.clone(), groups[j].1 + f.1);
            groups.set(j, updated);
            proof {
                lemma_sums_add(old_groups, groups@, pre, *f, j as int);
            }
        } else {
            groups.push((f.0.clone(), f.1));
            proof {
                lemma_sums_new(old_groups, groups@, pre, *f);
            }
        }
        total = total + f.1;
        i += 1;
    }
    assert(files@.take(n as int) == files@);
    (groups, total)
}

/// The shares with a positive percentage, in their order.
pub open spec fn positive_shares(shares: Seq<(String, u8)>) -> Seq<(String, u8)> {
    shares.filter(|p: (String, u8)| p.1 > 0)
}

/// The keys that order shares, larger percentage first.
pub open spec fn share_keys(shares: Seq<(String, u8)>) -> Seq<Descending> {
    shares.map_values(|p: (String, u8)| Descending { value: p.1 as u64 })
}

/// `r` lists the first six (or fewer) positive shares in the stable order
/// `perm` of their percentages, largest first, each with its display color.
pub open spec fn ranks_shares(r: Seq<Language>, shares: Seq<(String, u8)>, perm: Seq<usize>) -> bool {
    let pos = positive_shares(shares);
    &&& is_stable_order(share_keys(pos), perm)
    &&& r.len() == if pos.len() < 6 { pos.len() } else { 6 }
    &&& forall|i: int| 0 <= i < r.len() ==> {
        &&& (#[trigger] r[i]).name@ == pos[perm[i] as int].0@
        &&& r[i].pct == pos[perm[i] as int].1
        &&& r[i].color@ == language_color_spec(r[i].name@)
    }
}

/// At most six languages: those with a positive share, largest share first
/// (equal shares in their given order), each with its display color.
pub fn rank_languages(shares: &Vec<(String, u8)>) -> (r: Vec<Language>)
    ensures
        exists|perm: Seq<usize>| #[trigger] ranks_shares(r@, shares@, perm),
{
    let ghost pred = |p: (String, u8)| p.1 > 0;
    let mut pos: Vec<(String, u8)> = Vec::new();
    let mut keys: Vec<Descending> = Vec::new();
    let n = shares.len();
    let mut i: usize = 0;
    while i < n
        invariant
            i <= n,
            n == shares.len(),
            pred == (|p: (String, u8)| p.1 > 0),
            pos@ == shares@.take(i as int).filter(pred),
            keys@ == share_keys(pos@),
        decreases n - i,
    {
        assert(shares@.take(i + 1) == shares@.take(i as int).push(shares@[i as int]));
        if shares[i].1 > 0 {
            let entry = (shares[i].0.clone(), shares[i].1);
            assert(entry == shares@[i as int]);
            pos.push(entry);
            keys.push(Descending { value: shares[i].1 as u64 });
            assert(keys@ =~= share_keys(pos@));
        }
        i += 1;
    }
    assert(shares@.take(n as int) == shares@);
    assert(pos@ == positive_shares(shares@));
    let perm = stable_order(&keys);
    let m = if pos.len() < 6 { pos.len() } else { 6 };
    let mut r: Vec<Language> = Vec::new();
    let mut k: usize = 0;
    while k < m
        invariant
            k <= m <= pos.len(),
            m <= 6,
            pos.len() == keys.len(),
            is_stable_order(keys@, perm@),
            r.len() == k,
            forall|j: int| 0 <= j < k ==> {
                &&& (#[trigger] r@[j]).name@ == pos@[perm@[j] as int].0@
                &&& r@[j].pct == pos@[perm@[j] as int].1
                &&& r@[j].color@ == language_color_spec(r@[j].name@)
            },
        decreases m - k,
    {
        let e = &pos[perm[k]];
        r.push(Language { name: e.0.clone(), pct: e.1, color: language_color(e.0.as_str()) });
        k += 1;
    }
    assert(ranks_shares(r@, shares@, perm@));
    r
}

/// The sum of the percentages.
pub open spec fn pct_sum(langs: Seq<Language>) -> nat
    decreases langs.len(),
{
    if langs.len() == 0 {
        0
    } else {
        pct_sum(langs.drop_last()) + langs.last().pct as nat
    }
}

proof fn lemma_pct_sum_prefix(langs: Seq<Language>, i: int)
    requires
        0 <= i <= langs.len(),
    ensures
        pct_sum(langs.take(i)) <= pct_sum(langs),
        i < langs.len() ==> pct_sum(langs.take(i + 1)) == pct_sum(langs.take(i)) + langs[i].pct,
    decreases langs.len(),
{
    if i < langs.len() {
        assert(langs.take(i + 1).drop_last() == langs.take(i));
        let t = langs.drop_last();
        assert(t.take(i) == langs.take(i));
        lemma_pct_sum_prefix(t, i);
    } else {
        assert(langs.take(i) == langs);
    }
}

/// The sum of the percentages is the first one plus the sum of the rest.
proof fn lemma_pct_sum_first(langs: Seq<Language>)
    requires
        langs.len() > 0,
    ensures
        pct_sum(langs) == langs[0].pct + pct_sum(langs.drop_first()),
    decreases langs.len(),
{
    let rest = langs.drop_first();
    if langs.len() > 1 {
        lemma_pct_sum_first(langs.drop_last());
        assert(langs.drop_last().drop_first() == rest.drop_last());
        assert(rest.last() == langs.last());
        assert(langs.drop_last()[0] == langs[0]);
        assert(pct_sum(rest) == pct_sum(rest.drop_last()) + rest.last().pct as nat);
    } else {
        assert(rest.len() == 0);
        assert(langs.drop_last().len() == 0);
        assert(pct_sum(langs) == pct_sum(langs.drop_last()) + langs.last().pct as nat);
    }
}

/// Makes the percentages add up to 100 by adjusting the first (largest) one,
/// which stays at least 1; a list whose percentages sum to 0 is unchanged.
pub fn normalize_shares(langs: Vec<Language>) -> (r: Vec<Language>)
    requires
        pct_sum(langs@) <= 255,
    ensures
        pct_sum(langs@) > 0 && langs.len() > 0 && langs@[0].pct + 100 - pct_sum(langs@) >= 1
            ==> pct_sum(r@) == 100,
        r.len() == langs.len(),
        forall|k: int| 1 <= k < r.len() ==> #[trigger] r@[k] == langs@[k],
        r.len() > 0 ==> {
            &&& r@[0].name == langs@[0].name
            &&& r@[0].color == langs@[0].color
            &&& r@[0].pct == if pct_sum(langs@) > 0 {
                if langs@[0].pct + 100 - pct_sum(langs@) >= 1 {
                    langs@[0].pct + 100 - pct_sum(langs@)
                } else {
                    1
                }
            } else {
                langs@[0].pct as int
            }
        },
{
    let mut sum: u8 = 0;
    let mut i: usize = 0;
    while i < langs.len()
        invariant
            i <= langs.len(),
            pct_sum(langs@) <= 255,
            sum == pct_sum(langs@.take(i as int)),
        decreases langs.len() - i,
    {
        proof {
            lemma_pct_sum_prefix(langs@, i as int);
            lemma_pct_sum_prefix(langs@, i + 1);
        }
        sum = sum + langs[i].pct;
        i += 1;
    }
    assert(langs@.take(langs.len() as int) == langs@);
    let mut r = langs;
    if sum > 0 && r.len() > 0 {
        proof {
            lemma_pct_sum_prefix(r@, 1);
            assert(r@.take(0) == Seq::<Language>::empty());
        }
        let diff: i16 = 100i16 - sum as i16;
        let top: i16 = r[0].pct as i16 + diff;
        let adjusted: u8 = if top >= 1 { top as u8 } else { 1 };
        let first = Language { name: r[0].name.clone(), pct: adjusted, color: r[0].color.clone() };
        let ghost before = r@;
        r.set(0, first);
        proof {
            lemma_pct_sum_first(before);
            lemma_pct_sum_first(r@);
            assert(r@.drop_first() =~= before.drop_first());
        }
    }
    r
}

} // verus!
