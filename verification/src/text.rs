//! Character and string operations with their mathematical meaning.
//!
//! Strings are reasoned about through their view, the sequence of their
//! characters. Unicode case mapping and character classes come from the
//! standard library; each is named here and called through one small wrapper.

use vstd::prelude::*;

verus! {

/// `String::push` appends one character.
pub assume_specification[ String::push ](s: &mut String, ch: char)
    ensures
        final(s)@ == old(s)@.push(ch),
;

/// What `char::is_alphanumeric` answers for a character outside ASCII
/// (Unicode alphabetic or numeric).
pub uninterp spec fn non_ascii_alphanumeric(c: char) -> bool;

/// `c` is alphanumeric, as `char::is_alphanumeric` answers: in ASCII the
/// letters and digits, elsewhere the named Unicode classes.
pub open spec fn char_is_alphanumeric(c: char) -> bool {
    let n = c as u32;
    if n < 0x80 {
        (0x30 <= n <= 0x39) || (0x41 <= n <= 0x5A) || (0x61 <= n <= 0x7A)
    } else {
        non_ascii_alphanumeric(c)
    }
}

/// `c` has the Unicode `White_Space` property, as `char::is_whitespace`
/// answers: tab through carriage return, space, next line, no-break space,
/// ogham space mark, the spaces from en quad to hair space, line and paragraph
/// separators, narrow no-break space, medium mathematical space and
/// ideographic space.
pub open spec fn char_is_whitespace(c: char) -> bool {
    let n = c as u32;
    ||| 0x09 <= n <= 0x0D
    ||| n == 0x20
    ||| n == 0x85
    ||| n == 0xA0
    ||| n == 0x1680
    ||| 0x2000 <= n <= 0x200A
    ||| n == 0x2028
    ||| n == 0x2029
    ||| n == 0x202F
    ||| n == 0x205F
    ||| n == 0x3000
}

/// What `char::is_uppercase` answers for a character outside ASCII (Unicode
/// `Uppercase`).
pub uninterp spec fn non_ascii_uppercase(c: char) -> bool;

/// `c` is upper-case, as `char::is_uppercase` answers: in ASCII the letters
/// 'A' to 'Z', elsewhere the named Unicode property.
pub open spec fn char_is_uppercase(c: char) -> bool {
    let n = c as u32;
    if n < 0x80 {
        0x41 <= n <= 0x5A
    } else {
        non_ascii_uppercase(c)
    }
}

/// Every character of `s` is ASCII.
pub open spec fn is_ascii_text(s: Seq<char>) -> bool {
    forall|i: int| 0 <= i < s.len() ==> (#[trigger] s[i] as u32) < 0x80
}

/// 'A' to 'Z' as 'a' to 'z'; every other character as it is.
pub open spec fn ascii_lower_char(c: char) -> char {
    if 0x41 <= c as u32 <= 0x5A {
        ((c as u32) + 32) as char
    } else {
        c
    }
}

/// 'a' to 'z' as 'A' to 'Z'; every other character as it is.
pub open spec fn ascii_upper_char(c: char) -> char {
    if 0x61 <= c as u32 <= 0x7A {
        ((c as u32) - 32) as char
    } else {
        c
    }
}

/// ASCII letters lower-cased, character by character.
pub open spec fn ascii_lower(s: Seq<char>) -> Seq<char> {
    s.map_values(|c: char| ascii_lower_char(c))
}

/// ASCII letters upper-cased, character by character.
pub open spec fn ascii_upper(s: Seq<char>) -> Seq<char> {
    s.map_values(|c: char| ascii_upper_char(c))
}

/// The characters of `str::to_lowercase` applied to a string with characters `s`.
pub uninterp spec fn str_lowercase(s: Seq<char>) -> Seq<char>;

/// The characters of `str::to_uppercase` applied to a string with characters `s`.
pub uninterp spec fn str_uppercase(s: Seq<char>) -> Seq<char>;

/// Calls `char::is_alphanumeric` on a character outside ASCII; the answer is
/// the named predicate.
#[verifier::external_body]
fn is_non_ascii_alphanumeric(c: char) -> (r: bool)
    requires
        c as u32 >= 0x80,
    ensures
        r == non_ascii_alphanumeric(c),
{
    c.is_alphanumeric()
}

/// Whether `c` is alphanumeric (see `char_is_alphanumeric`).
pub fn is_alphanumeric(c: char) -> (r: bool)
    ensures
        r == char_is_alphanumeric(c),
{
    let n = c as u32;
    if n < 0x80 {
        (0x30 <= n && n <= 0x39) || (0x41 <= n && n <= 0x5A) || (0x61 <= n && n <= 0x7A)
    } else {
        is_non_ascii_alphanumeric(c)
    }
}

/// Whether `c` is whitespace (see `char_is_whitespace`).
pub fn is_whitespace(c: char) -> (r: bool)
    ensures
        r == char_is_whitespace(c),
{
    let n = c as u32;
    (0x09 <= n && n <= 0x0D) || n == 0x20 || n == 0x85 || n == 0xA0 || n == 0x1680
        || (0x2000 <= n && n <= 0x200A) || n == 0x2028 || n == 0x2029 || n == 0x202F
        || n == 0x205F || n == 0x3000
}

/// Calls `char::is_uppercase` on a character outside ASCII; the answer is the
/// named predicate.
#[verifier::external_body]
fn is_non_ascii_uppercase(c: char) -> (r: bool)
    requires
        c as u32 >= 0x80,
    ensures
        r == non_ascii_uppercase(c),
{
    c.is_uppercase()
}

/// Whether `c` is upper-case (see `char_is_uppercase`).
pub fn is_uppercase(c: char) -> (r: bool)
    ensures
        r == char_is_uppercase(c),
{
    let n = c as u32;
    if n < 0x80 {
        0x41 <= n && n <= 0x5A
    } else {
        is_non_ascii_uppercase(c)
    }
}

/// Calls `str::to_lowercase`; the characters of the result are the named
/// mapping, which on ASCII text maps 'A' to 'Z' to 'a' to 'z' and keeps every
/// other character (the Unicode lower-case mapping of ASCII).
#[verifier::external_body]
pub(crate) fn to_lowercase(s: &str) -> (r: String)
    ensures
        r@ == str_lowercase(s@),
        is_ascii_text(s@) ==> r@ == ascii_lower(s@),
{
    s.to_lowercase()
}

/// Calls `str::to_uppercase`; the characters of the result are the named
/// mapping, which on ASCII text maps 'a' to 'z' to 'A' to 'Z' and keeps every
/// other character (the Unicode upper-case mapping of ASCII).
#[verifier::external_body]
pub(crate) fn to_uppercase(s: &str) -> (r: String)
    ensures
        r@ == str_uppercase(s@),
        is_ascii_text(s@) ==> r@ == ascii_upper(s@),
{
    s.to_uppercase()
}

/// The characters of `s`, left to right.
pub fn chars_of(s: &str) -> (r: Vec<char>)
    ensures
        r@ == s@,
{
    let mut r: Vec<char> = Vec::new();
    for c in it: s.chars()
        invariant
            r@ == it.seq().take(it.index() as int),
            it.seq() == s@,
    {
        r.push(c);
    }
    r
}

/// A string holding the characters `cs@[from..to]`.
pub fn string_of_range(cs: &Vec<char>, from: usize, to: usize) -> (r: String)
    requires
        from <= to <= cs.len(),
    ensures
        r@ == cs@.subrange(from as int, to as int),
{
    let mut r = String::new();
    let mut i: usize = from;
    while i < to
        invariant
            from <= i <= to <= cs.len(),
            r@ == cs@.subrange(from as int, i as int),
        decreases to - i,
    {
        r.push(cs[i]);
        assert(cs@.subrange(from as int, i + 1) == cs@.subrange(from as int, i as int).push(
            cs@[i as int],
        ));
        i += 1;
    }
    r
}

/// A string holding the characters `cs`.
pub fn string_of(cs: &Vec<char>) -> (r: String)
    ensures
        r@ == cs@,
{
    let r = string_of_range(cs, 0, cs.len());
    assert(cs@.subrange(0, cs.len() as int) == cs@);
    r
}

/// A string with the characters of `s`.
pub fn string_from(s: &str) -> (r: String)
    ensures
        r@ == s@,
{
    let cs = chars_of(s);
    string_of(&cs)
}

/// Appends the characters of `t` to `s`.
pub fn push_all(s: &mut String, t: &str)
    ensures
        final(s)@ == old(s)@ + t@,
{
    let cs = chars_of(t);
    let mut i: usize = 0;
    while i < cs.len()
        invariant
            i <= cs.len(),
            cs@ == t@,
            s@ == old(s)@ + cs@.take(i as int),
        decreases cs.len() - i,
    {
        s.push(cs[i]);
        assert(cs@.take(i + 1) == cs@.take(i as int).push(cs@[i as int]));
        assert(old(s)@ + cs@.take(i + 1) == (old(s)@ + cs@.take(i as int)).push(cs@[i as int]));
        i += 1;
    }
    assert(cs@.take(cs.len() as int) == cs@);
}

/// Whether two strings hold the same characters.
pub fn str_eq(a: &str, b: &str) -> (r: bool)
    ensures
        r == (a@ == b@),
{
    let x = string_from(a);
    let y = string_from(b);
    x == y
}

/// The decimal digit character for `d < 10`.
pub open spec fn digit_char(d: nat) -> char {
    ((48 + d) as u8) as char
}

/// The decimal notation of `n`, without sign or leading zeros (as `{}` prints it).
pub open spec fn decimal(n: nat) -> Seq<char>
    decreases n,
{
    if n < 10 {
        seq![digit_char(n)]
    } else {
        decimal(n / 10).push(digit_char(n % 10))
    }
}

/// Appends the decimal notation of `n`.
pub fn push_decimal(s: &mut String, n: u64)
    ensures
        final(s)@ == old(s)@ + decimal(n as nat),
    decreases n,
{
    if n >= 10 {
        push_decimal(s, n / 10);
    }
    let d: u8 = (n % 10) as u8;
    s.push((48u8 + d) as char);
    assert(s@ == old(s)@ + decimal(n as nat));
}

/// The decimal notation of `n` (`n.to_string()`).
pub fn decimal_string(n: u64) -> (r: String)
    ensures
        r@ == decimal(n as nat),
{
    let mut r = String::new();
    push_decimal(&mut r, n);
    assert(r@ == Seq::<char>::empty() + decimal(n as nat));
    r
}


// ── Searching and trimming ──────────────────────────────────────────────────

/// `p` occurs in `s` starting at position `i`.
pub open spec fn occurs_at(s: Seq<char>, p: Seq<char>, i: int) -> bool {
    0 <= i && i + p.len() <= s.len() && s.subrange(i, i + p.len()) == p
}

/// `p` occurs somewhere in `s` (`str::contains`).
pub open spec fn contains_chars(s: Seq<char>, p: Seq<char>) -> bool {
    exists|i: int| occurs_at(s, p, i)
}

/// `s` with every leading copy of a non-empty `p` removed (`trim_start_matches`).
pub open spec fn strip_prefixes(s: Seq<char>, p: Seq<char>) -> Seq<char>
    decreases s.len(),
{
    if p.len() > 0 && p.len() <= s.len() && s.take(p.len() as int) == p {
        strip_prefixes(s.skip(p.len() as int), p)
    } else {
        s
    }
}

/// `s` with every trailing copy of a non-empty `p` removed (`trim_end_matches`).
pub open spec fn strip_suffixes(s: Seq<char>, p: Seq<char>) -> Seq<char>
    decreases s.len(),
{
    if p.len() > 0 && p.len() <= s.len() && s.skip(s.len() - p.len()) == p {
        strip_suffixes(s.take(s.len() - p.len()), p)
    } else {
        s
    }
}

/// Whether `p` occurs in `s` at position `i`.
pub fn occurs_at_exec(s: &Vec<char>, p: &Vec<char>, i: usize) -> (r: bool)
    ensures
        r == occurs_at(s@, p@, i as int),
{
    if i > s.len() || p.len() > s.len() - i {
        return false;
    }
    let mut k: usize = 0;
    while k < p.len()
        invariant
            i + p.len() <= s.len(),
            k <= p.len(),
            forall|j: int| 0 <= j < k ==> s@[i + j] == p@[j],
        decreases p.len() - k,
    {
        if s[i + k] != p[k] {
            assert(s@.subrange(i as int, i + p.len())[k as int] != p@[k as int]);
            return false;
        }
        k += 1;
    }
    assert(s@.subrange(i as int, i + p.len()) =~= p@);
    true
}

/// Whether `p` occurs in `s`.
pub fn contains_exec(s: &Vec<char>, p: &Vec<char>) -> (r: bool)
    ensures
        r == contains_chars(s@, p@),
{
    if p.len() > s.len() {
        assert forall|j: int| !occurs_at(s@, p@, j) by {}
        return false;
    }
    let last = s.len() - p.len();
    let mut i: usize = 0;
    while i < last
        invariant
            i <= last,
            last + p.len() == s.len(),
            forall|j: int| 0 <= j < i ==> !occurs_at(s@, p@, j),
        decreases last - i,
    {
        if occurs_at_exec(s, p, i) {
            return true;
        }
        i += 1;
    }
    if occurs_at_exec(s, p, last) {
        return true;
    }
    assert forall|j: int| !occurs_at(s@, p@, j) by {
        if 0 <= j < i {
        }
    }
    false
}

/// Whether the text `s` contains the text `p`.
pub fn str_contains(s: &str, p: &str) -> (r: bool)
    ensures
        r == contains_chars(s@, p@),
{
    let a = chars_of(s);
    let b = chars_of(p);
    contains_exec(&a, &b)
}

/// `s` without its leading copies of `p`.
pub fn strip_prefixes_exec(s: &Vec<char>, p: &Vec<char>) -> (r: Vec<char>)
    ensures
        r@ == strip_prefixes(s@, p@),
{
    let mut start: usize = 0;
    assert(s@.skip(0) == s@);
    while p.len() > 0 && occurs_at_exec(s, p, start)
        invariant
            start <= s.len(),
            strip_prefixes(s@, p@) == strip_prefixes(s@.skip(start as int), p@),
        decreases s.len() - start,
    {
        assert(s@.skip(start as int).take(p.len() as int) == s@.subrange(start as int, start + p.len()));
        assert(s@.skip(start as int).skip(p.len() as int) == s@.skip(start + p.len()));
        start += p.len();
    }
    if p.len() > 0 && p.len() <= s.len() - start {
        assert(s@.skip(start as int).take(p.len() as int) == s@.subrange(start as int, start + p.len()));
    }
    let mut r: Vec<char> = Vec::new();
    let mut k: usize = start;
    while k < s.len()
        invariant
            start <= k <= s.len(),
            r@ == s@.subrange(start as int, k as int),
        decreases s.len() - k,
    {
        r.push(s[k]);
        assert(s@.subrange(start as int, k + 1) == s@.subrange(start as int, k as int).push(s@[k as int]));
        k += 1;
    }
    assert(s@.subrange(start as int, s.len() as int) == s@.skip(start as int));
    r
}

/// `s` without its trailing copies of `p`.
pub fn strip_suffixes_exec(s: &Vec<char>, p: &Vec<char>) -> (r: Vec<char>)
    ensures
        r@ == strip_suffixes(s@, p@),
{
    let mut end: usize = s.len();
    assert(s@.take(s.len() as int) == s@);
    while p.len() > 0 && p.len() <= end && occurs_at_exec(s, p, end - p.len())
        invariant
            end <= s.len(),
            strip_suffixes(s@, p@) == strip_suffixes(s@.take(end as int), p@),
        decreases end,
    {
        let ghost t = s@.take(end as int);
        assert(t.skip(t.len() - p.len()) == s@.subrange(end - p.len(), end as int));
        assert(t.take(t.len() - p.len()) == s@.take(end - p.len()));
        end -= p.len();
    }
    if p.len() > 0 && p.len() <= end {
        let ghost t = s@.take(end as int);
        assert(t.skip(t.len() - p.len()) == s@.subrange(end - p.len(), end as int));
    }
    let mut r: Vec<char> = Vec::new();
    let mut k: usize = 0;
    while k < end
        invariant
            k <= end <= s.len(),
            r@ == s@.take(k as int),
        decreases end - k,
    {
        r.push(s[k]);
        assert(s@.take(k + 1) == s@.take(k as int).push(s@[k as int]));
        k += 1;
    }
    r
}


// ── Words ───────────────────────────────────────────────────────────────────

/// What separates words.
pub enum Separator {
    /// Whitespace, as `str::split_whitespace` splits.
    Whitespace,
    /// Anything not alphanumeric, as `split(|c| !c.is_alphanumeric())` with
    /// empty pieces dropped.
    NonAlphanumeric,
}

/// `c` separates words.
pub open spec fn separates(by: Separator, c: char) -> bool {
    match by {
        Separator::Whitespace => char_is_whitespace(c),
        Separator::NonAlphanumeric => !char_is_alphanumeric(c),
    }
}

/// The words of `s`: its maximal runs of non-separating characters, in order.
pub open spec fn words_of(s: Seq<char>, by: Separator) -> Seq<Seq<char>>
    decreases s.len(),
{
    if s.len() == 0 {
        seq![]
    } else {
        let w = words_of(s.drop_last(), by);
        let c = s.last();
        if separates(by, c) {
            w
        } else if s.len() >= 2 && !separates(by, s[s.len() - 2]) {
            w.update(w.len() - 1, w.last().push(c))
        } else {
            w.push(seq![c])
        }
    }
}

/// A sequence ending in a non-separating character has a last word ending in it.
proof fn lemma_words_nonempty(s: Seq<char>, by: Separator)
    requires
        s.len() > 0,
        !separates(by, s.last()),
    ensures
        words_of(s, by).len() > 0,
    decreases s.len(),
{
    if s.len() >= 2 && !separates(by, s[s.len() - 2]) {
        assert(s.drop_last().last() == s[s.len() - 2]);
        lemma_words_nonempty(s.drop_last(), by);
    }
}

/// Every word has at least one character.
pub proof fn lemma_words_not_empty(s: Seq<char>, by: Separator)
    ensures
        forall|i: int| 0 <= i < words_of(s, by).len() ==> (#[trigger] words_of(s, by)[i]).len() > 0,
    decreases s.len(),
{
    if s.len() > 0 {
        lemma_words_not_empty(s.drop_last(), by);
        let w = words_of(s.drop_last(), by);
        let c = s.last();
        if !separates(by, c) && s.len() >= 2 && !separates(by, s[s.len() - 2]) {
            assert(s.drop_last().last() == s[s.len() - 2]);
            lemma_words_nonempty(s.drop_last(), by);
        }
    }
}

/// Whether `c` separates words.
pub fn separates_exec(by: &Separator, c: char) -> (r: bool)
    ensures
        r == separates(*by, c),
{
    match by {
        Separator::Whitespace => is_whitespace(c),
        Separator::NonAlphanumeric => !is_alphanumeric(c),
    }
}

/// The characters of each word.
pub open spec fn words_view(ws: Seq<Vec<char>>) -> Seq<Seq<char>> {
    ws.map_values(|w: Vec<char>| w@)
}

/// Splits `s` into words.
pub fn split_words(s: &str, by: Separator) -> (r: Vec<Vec<char>>)
    ensures
        words_view(r@) == words_of(s@, by),
{
    let cs = chars_of(s);
    let mut out: Vec<Vec<char>> = Vec::new();
    let mut i: usize = 0;
    while i < cs.len()
        invariant
            i <= cs.len(),
            cs@ == s@,
            words_view(out@) == words_of(cs@.take(i as int), by),
        decreases cs.len() - i,
    {
        let c = cs[i];
        let ghost pre = cs@.take(i as int);
        assert(cs@.take(i + 1).drop_last() == pre);
        assert(cs@.take(i + 1).last() == c);
        if !separates_exec(&by, c) {
            if i >= 1 && !separates_exec(&by, cs[i - 1]) {
                proof {
                    assert(pre.last() == cs@[i - 1]);
                    lemma_words_nonempty(pre, by);
                    assert(cs@.take(i + 1)[i - 1] == cs@[i - 1]);
                }
                let ghost before = out@;
                let mut last = out.pop().unwrap();
                last.push(c);
                out.push(last);
                assert(words_view(out@) =~= words_view(before).update(
                    before.len() - 1,
                    words_view(before).last().push(c),
                ));
            } else {
                let mut w: Vec<char> = Vec::new();
                w.push(c);
                out.push(w);
                assert(w@ == seq![c]);
                assert(words_view(out@) =~= words_of(pre, by).push(seq![c]));
            }
        }
        i += 1;
    }
    assert(cs@.take(cs.len() as int) == cs@);
    out
}

/// `s` without leading and trailing whitespace (`str::trim`).
pub open spec fn trim_spec(s: Seq<char>) -> Seq<char>
    decreases s.len(),
{
    if s.len() > 0 && char_is_whitespace(s[0]) {
        trim_spec(s.drop_first())
    } else if s.len() > 0 && char_is_whitespace(s.last()) {
        trim_spec(s.drop_last())
    } else {
        s
    }
}

/// Removes leading and trailing whitespace.
pub fn trim(s: &str) -> (r: String)
    ensures
        r@ == trim_spec(s@),
{
    let cs = chars_of(s);
    let mut a: usize = 0;
    let mut b: usize = cs.len();
    assert(cs@.subrange(0, cs.len() as int) == cs@);
    while a < b && (is_whitespace(cs[a]) || is_whitespace(cs[b - 1]))
        invariant
            a <= b <= cs.len(),
            trim_spec(s@) == trim_spec(cs@.subrange(a as int, b as int)),
            cs@ == s@,
        decreases b - a,
    {
        let ghost t = cs@.subrange(a as int, b as int);
        if is_whitespace(cs[a]) {
            assert(t[0] == cs@[a as int]);
            assert(t.drop_first() == cs@.subrange(a + 1, b as int));
            a += 1;
        } else {
            assert(t[0] == cs@[a as int]);
            assert(t.last() == cs@[b - 1]);
            assert(t.drop_last() == cs@.subrange(a as int, b - 1));
            b -= 1;
        }
    }
    if a < b {
        let ghost t = cs@.subrange(a as int, b as int);
        assert(t[0] == cs@[a as int]);
        assert(t.last() == cs@[b - 1]);
    }
    string_of_range(&cs, a, b)
}

/// The first `n` characters of `s`, or all of them if there are fewer.
pub open spec fn prefix_chars(s: Seq<char>, n: nat) -> Seq<char> {
    if s.len() <= n {
        s
    } else {
        s.take(n as int)
    }
}

/// The first `n` characters of `cs` (`chars().take(n)`).
pub fn first_chars(cs: &Vec<char>, n: usize) -> (r: String)
    ensures
        r@ == prefix_chars(cs@, n as nat),
{
    if cs.len() <= n {
        string_of(cs)
    } else {
        let r = string_of_range(cs, 0, n);
        assert(cs@.subrange(0, n as int) == cs@.take(n as int));
        r
    }
}

} // verus!
