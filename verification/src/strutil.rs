//! Verified string helpers: equality, prefix/suffix/substring tests,
//! splitting, trimming and rewriting over character sequences.

use vstd::prelude::*;
use vstd::string::StrSliceExecFns;
use vstd::string::StringExecFns;

verus! {

/// Relies on std's `String::push`: appends exactly the given character.
#[verifier::external_body]
pub(crate) fn push_char(s: &mut String, c: char)
    ensures
        final(s)@ == old(s)@.push(c),
{
    s.push(c);
}

/// The characters of `s`, as a vector.
pub fn chars_of(s: &str) -> (v: Vec<char>)
    ensures
        v@ == s@,
{
    let n = s.unicode_len();
    let mut v: Vec<char> = Vec::new();
    let mut i: usize = 0;
    while i < n
        invariant
            i <= n,
            n == s@.len(),
            v@ == s@.subrange(0, i as int),
        decreases n - i,
    {
        v.push(s.get_char(i));
        proof {
            assert(v@ =~= s@.subrange(0, i + 1 as int));
        }
        i = i + 1;
    }
    proof {
        assert(v@ =~= s@);
    }
    v
}

/// True when the characters of `s` from `i` on start with `p`.
pub open spec fn spec_matches_at(s: Seq<char>, p: Seq<char>, i: int) -> bool {
    s.subrange(i, i + p.len() as int) == p
}

fn matches_at(s: &str, p: &str, i: usize) -> (r: bool)
    requires
        i + p@.len() <= s@.len(),
    ensures
        r == spec_matches_at(s@, p@, i as int),
{
    let sn = s.unicode_len();
    let pn = p.unicode_len();
    let mut j: usize = 0;
    while j < pn
        invariant
            j <= pn,
            pn == p@.len(),
            sn == s@.len(),
            i + pn <= sn,
            forall|k: int| 0 <= k < j ==> s@[i + k] == p@[k],
        decreases pn - j,
    {
        if s.get_char(i + j) != p.get_char(j) {
            proof {
                assert(s@.subrange(i as int, i + pn as int)[j as int] != p@[j as int]);
            }
            return false;
        }
        j = j + 1;
    }
    proof {
        assert(s@.subrange(i as int, i + pn as int) =~= p@);
    }
    true
}

/// Character-wise equality of two strings.
pub fn str_eq(a: &str, b: &str) -> (r: bool)
    ensures
        r == (a@ == b@),
{
    let an = a.unicode_len();
    let bn = b.unicode_len();
    if an != bn {
        return false;
    }
    let r = matches_at(a, b, 0);
    proof {
        assert(a@.subrange(0, an as int) =~= a@);
    }
    r
}

/// True when `p` is a prefix of `s`.
pub open spec fn spec_is_prefix(p: Seq<char>, s: Seq<char>) -> bool {
    p.len() <= s.len() && s.subrange(0, p.len() as int) == p
}

/// True when `p` is a suffix of `s`.
pub open spec fn spec_is_suffix(p: Seq<char>, s: Seq<char>) -> bool {
    p.len() <= s.len() && s.subrange(s.len() - p.len(), s.len() as int) == p
}

pub fn starts_with(s: &str, p: &str) -> (r: bool)
    ensures
        r == spec_is_prefix(p@, s@),
{
    if p.unicode_len() > s.unicode_len() {
        return false;
    }
    matches_at(s, p, 0)
}

pub fn ends_with(s: &str, p: &str) -> (r: bool)
    ensures
        r == spec_is_suffix(p@, s@),
{
    let sn = s.unicode_len();
    let pn = p.unicode_len();
    if pn > sn {
        return false;
    }
    matches_at(s, p, sn - pn)
}

/// True when `c` occurs in `s`.
pub open spec fn spec_contains_char(s: Seq<char>, c: char) -> bool {
    exists|i: int| 0 <= i < s.len() && s[i] == c
}

pub fn contains_char(s: &str, c: char) -> (r: bool)
    ensures
        r == spec_contains_char(s@, c),
{
    let n = s.unicode_len();
    let mut i: usize = 0;
    while i < n
        invariant
            i <= n,
            n == s@.len(),
            forall|k: int| 0 <= k < i ==> s@[k] != c,
        decreases n - i,
    {
        if s.get_char(i) == c {
            return true;
        }
        i = i + 1;
    }
    false
}

/// True when `p` occurs in `s` as a contiguous run of characters.
pub open spec fn spec_contains_seq(s: Seq<char>, p: Seq<char>) -> bool {
    exists|i: int| 0 <= i && i + p.len() <= s.len() && spec_matches_at(s, p, i)
}

pub fn contains_str(s: &str, p: &str) -> (r: bool)
    ensures
        r == spec_contains_seq(s@, p@),
{
    let sn = s.unicode_len();
    let pn = p.unicode_len();
    if pn > sn {
        return false;
    }
    if pn == 0 {
        proof {
            assert(s@.subrange(0, 0) =~= p@);
            assert(spec_matches_at(s@, p@, 0));
        }
        return true;
    }
    let mut i: usize = 0;
    while i <= sn - pn
        invariant
            1 <= pn <= sn,
            sn == s@.len(),
            pn == p@.len(),
            i <= sn - pn + 1,
            forall|k: int| 0 <= k < i ==> !spec_matches_at(s@, p@, k),
        decreases sn - i,
    {
        if matches_at(s, p, i) {
            return true;
        }
        i = i + 1;
    }
    false
}

/// Splitting `s` at every occurrence of `d`: the list of fields, in order.
/// A string without `d` yields one field; each delimiter adds one.
pub open spec fn spec_split(s: Seq<char>, d: char) -> Seq<Seq<char>>
    decreases s.len(),
{
    if s.len() == 0 {
        seq![Seq::<char>::empty()]
    } else if s[0] == d {
        seq![Seq::<char>::empty()] + spec_split(s.skip(1), d)
    } else {
        let rest = spec_split(s.skip(1), d);
        seq![seq![s[0]] + rest[0]] + rest.skip(1)
    }
}

proof fn lemma_split_nonempty(s: Seq<char>, d: char)
    ensures
        spec_split(s, d).len() >= 1,
    decreases s.len(),
{
    if s.len() > 0 {
        lemma_split_nonempty(s.skip(1), d);
    }
}

/// The views of a vector of strings.
pub open spec fn views_of(v: Seq<String>) -> Seq<Seq<char>> {
    v.map_values(|p: String| p@)
}

pub fn split_char(s: &str, d: char) -> (parts: Vec<String>)
    ensures
        views_of(parts@) == spec_split(s@, d),
        parts@.len() >= 1,
{
    let cs = chars_of(s);
    let mut parts: Vec<String> = Vec::new();
    let mut cur: String = String::new();
    let mut i: usize = 0;
    proof {
        lemma_split_nonempty(s@, d);
        assert(s@.skip(0) =~= s@);
        assert(spec_split(s@, d) =~= views_of(parts@) + seq![
            cur@ + spec_split(s@.skip(i as int), d)[0],
        ] + spec_split(s@.skip(i as int), d).skip(1));
    }
    while i < cs.len()
        invariant
            cs@ == s@,
            i <= s@.len(),
            spec_split(s@, d) =~= views_of(parts@) + seq![
                cur@ + spec_split(s@.skip(i as int), d)[0],
            ] + spec_split(s@.skip(i as int), d).skip(1),
        decreases s@.len() - i,
    {
        let c = cs[i];
        proof {
            lemma_split_nonempty(s@.skip(i + 1 as int), d);
            assert(s@.skip(i as int).len() > 0);
            assert(s@.skip(i as int)[0] == s@[i as int]);
            assert(s@.skip(i as int).skip(1) =~= s@.skip(i + 1 as int));
        }
        if c == d {
            proof {
                let tail = spec_split(s@.skip(i + 1 as int), d);
                assert(spec_split(s@.skip(i as int), d) =~= seq![Seq::<char>::empty()] + tail);
                assert(views_of(parts@.push(cur)) =~= views_of(parts@).push(cur@));
                assert(tail =~= seq![tail[0]] + tail.skip(1));
                assert(spec_split(s@, d) =~= views_of(parts@.push(cur)) + seq![
                    Seq::<char>::empty() + tail[0],
                ] + tail.skip(1));
            }
            parts.push(cur);
            cur = String::new();
        } else {
            proof {
                let tail = spec_split(s@.skip(i + 1 as int), d);
                assert(spec_split(s@.skip(i as int), d) =~= seq![seq![s@[i as int]] + tail[0]]
                    + tail.skip(1));
                assert(cur@ + spec_split(s@.skip(i as int), d)[0] =~= cur@.push(c) + tail[0]);
            }
            push_char(&mut cur, c);
        }
        i = i + 1;
    }
    proof {
        assert(s@.skip(i as int) =~= Seq::<char>::empty());
        let tail = spec_split(s@.skip(i as int), d);
        assert(tail =~= seq![Seq::<char>::empty()]);
        assert(cur@ + tail[0] =~= cur@);
        assert(views_of(parts@.push(cur)) =~= views_of(parts@).push(cur@));
        assert(spec_split(s@, d) =~= views_of(parts@.push(cur)));
    }
    parts.push(cur);
    parts
}

/// Blank characters for trimming: the Unicode white-space set.
pub open spec fn is_blank(c: char) -> bool {
    c == ' ' || c == '\t' || c == '\n' || c == '\r' || c == '\u{0b}' || c == '\u{0c}' || c
        == '\u{85}' || c == '\u{a0}' || c == '\u{1680}' || ('\u{2000}' <= c && c <= '\u{200a}') || c
        == '\u{2028}' || c == '\u{2029}' || c == '\u{202f}' || c == '\u{205f}' || c == '\u{3000}'
}

/// `s` without its leading blank characters.
pub open spec fn spec_trim_start(s: Seq<char>) -> Seq<char>
    decreases s.len(),
{
    if s.len() > 0 && is_blank(s[0]) {
        spec_trim_start(s.skip(1))
    } else {
        s
    }
}

/// `s` without its trailing blank characters.
pub open spec fn spec_trim_end(s: Seq<char>) -> Seq<char>
    decreases s.len(),
{
    if s.len() > 0 && is_blank(s[s.len() - 1]) {
        spec_trim_end(s.take(s.len() - 1))
    } else {
        s
    }
}

/// `s` without leading and trailing blank characters.
pub open spec fn spec_trim(s: Seq<char>) -> Seq<char> {
    spec_trim_end(spec_trim_start(s))
}

proof fn lemma_trim_start_at(s: Seq<char>, i: int)
    requires
        0 <= i <= s.len(),
        forall|k: int| 0 <= k < i ==> is_blank(s[k]),
        i < s.len() ==> !is_blank(s[i]),
    ensures
        spec_trim_start(s) == s.skip(i),
    decreases i,
{
    if i == 0 {
        assert(s.skip(0) =~= s);
    } else {
        assert(is_blank(s[0]));
        lemma_trim_start_at(s.skip(1), i - 1);
        assert(s.skip(1).skip(i - 1) =~= s.skip(i));
    }
}

proof fn lemma_trim_end_at(s: Seq<char>, j: int)
    requires
        0 <= j <= s.len(),
        forall|k: int| j <= k < s.len() ==> is_blank(s[k]),
        j > 0 ==> !is_blank(s[j - 1]),
    ensures
        spec_trim_end(s) == s.take(j),
    decreases s.len() - j,
{
    if j == s.len() {
        assert(s.take(j) =~= s);
    } else {
        assert(is_blank(s[s.len() - 1]));
        lemma_trim_end_at(s.take(s.len() - 1), j);
        assert(s.take(s.len() - 1).take(j) =~= s.take(j));
    }
}

pub fn trim_str<'a>(s: &'a str) -> (r: &'a str)
    ensures
        r@ == spec_trim(s@),
{
    let n = s.unicode_len();
    let mut i: usize = 0;
    while i < n && is_blank_char(s.get_char(i))
        invariant
            i <= n,
            n == s@.len(),
            forall|k: int| 0 <= k < i ==> is_blank(s@[k]),
        decreases n - i,
    {
        i = i + 1;
    }
    let mut j: usize = n;
    while j > i && is_blank_char(s.get_char(j - 1))
        invariant
            i <= j <= n,
            n == s@.len(),
            forall|k: int| 0 <= k < i ==> is_blank(s@[k]),
            i < n ==> !is_blank(s@[i as int]),
            forall|k: int| j <= k < n ==> is_blank(s@[k]),
        decreases j,
    {
        j = j - 1;
    }
    let r = s.substring_char(i, j);
    proof {
        lemma_trim_start_at(s@, i as int);
        if i == j {
            // the whole string is blank: the tail is blank as well
            lemma_trim_end_at(s@.skip(i as int), 0);
        } else {
            lemma_trim_end_at(s@.skip(i as int), j - i);
        }
        assert(s@.skip(i as int).take(j - i) =~= s@.subrange(i as int, j as int));
    }
    r
}

fn is_blank_char(c: char) -> (r: bool)
    ensures
        r == is_blank(c),
{
    c == ' ' || c == '\t' || c == '\n' || c == '\r' || c == '\u{0b}' || c == '\u{0c}' || c
        == '\u{85}' || c == '\u{a0}' || c == '\u{1680}' || ('\u{2000}' <= c && c <= '\u{200a}') || c
        == '\u{2028}' || c == '\u{2029}' || c == '\u{202f}' || c == '\u{205f}' || c == '\u{3000}'
}

/// `s` without its leading run of the character `c`.
pub open spec fn spec_trim_start_char(s: Seq<char>, c: char) -> Seq<char>
    decreases s.len(),
{
    if s.len() > 0 && s[0] == c {
        spec_trim_start_char(s.skip(1), c)
    } else {
        s
    }
}

proof fn lemma_trim_start_char_at(s: Seq<char>, c: char, i: int)
    requires
        0 <= i <= s.len(),
        forall|k: int| 0 <= k < i ==> s[k] == c,
        i < s.len() ==> s[i] != c,
    ensures
        spec_trim_start_char(s, c) == s.skip(i),
    decreases i,
{
    if i == 0 {
        assert(s.skip(0) =~= s);
    } else {
        lemma_trim_start_char_at(s.skip(1), c, i - 1);
        assert(s.skip(1).skip(i - 1) =~= s.skip(i));
    }
}

pub fn trim_start_char<'a>(s: &'a str, c: char) -> (r: &'a str)
    ensures
        r@ == spec_trim_start_char(s@, c),
{
    let n = s.unicode_len();
    let mut i: usize = 0;
    while i < n && s.get_char(i) == c
        invariant
            i <= n,
            n == s@.len(),
            forall|k: int| 0 <= k < i ==> s@[k] == c,
        decreases n - i,
    {
        i = i + 1;
    }
    let r = s.substring_char(i, n);
    proof {
        lemma_trim_start_char_at(s@, c, i as int);
        assert(s@.subrange(i as int, n as int) =~= s@.skip(i as int));
    }
    r
}

/// `s` with every occurrence of `from` rewritten to `to`.
pub open spec fn spec_replace(s: Seq<char>, from: char, to: char) -> Seq<char> {
    s.map_values(|c: char| if c == from { to } else { c })
}

pub fn replace_char(s: &str, from: char, to: char) -> (r: String)
    ensures
        r@ == spec_replace(s@, from, to),
{
    let n = s.unicode_len();
    let mut r = String::new();
    let mut i: usize = 0;
    while i < n
        invariant
            i <= n,
            n == s@.len(),
            r@ == spec_replace(s@.subrange(0, i as int), from, to),
        decreases n - i,
    {
        let c = s.get_char(i);
        if c == from {
            push_char(&mut r, to);
        } else {
            push_char(&mut r, c);
        }
        proof {
            assert(r@ =~= spec_replace(s@.subrange(0, i + 1 as int), from, to));
        }
        i = i + 1;
    }
    proof {
        assert(s@.subrange(0, n as int) =~= s@);
    }
    r
}

/// Command text shown to the user is capped at 100 characters; a longer one
/// keeps its first 97 characters and gains an ellipsis.
pub open spec fn spec_truncate_command(s: Seq<char>) -> Seq<char> {
    if s.len() > 100 {
        s.subrange(0, 97) + "..."@
    } else {
        s
    }
}

pub fn truncate_command(s: &str) -> (r: String)
    ensures
        r@ == spec_truncate_command(s@),
{
    let n = s.unicode_len();
    if n > 100 {
        let head = s.substring_char(0, 97);
        let mut r = String::from_str(head);
        r.append("...");
        r
    } else {
        String::from_str(s)
    }
}

/// The last non-empty field of a split, if any: for a path split at `/`,
/// its final component.
pub open spec fn spec_last_nonempty(parts: Seq<Seq<char>>) -> Option<Seq<char>>
    decreases parts.len(),
{
    if parts.len() == 0 {
        None
    } else if parts[parts.len() - 1].len() > 0 {
        Some(parts[parts.len() - 1])
    } else {
        spec_last_nonempty(parts.take(parts.len() - 1))
    }
}

pub fn last_nonempty(parts: &Vec<String>) -> (r: Option<String>)
    ensures
        match r {
            Some(p) => spec_last_nonempty(views_of(parts@)) == Some(p@),
            None => spec_last_nonempty(views_of(parts@)) is None,
        },
{
    let mut k: usize = parts.len();
    proof {
        assert(views_of(parts@).take(k as int) =~= views_of(parts@));
    }
    while k > 0
        invariant
            k <= parts@.len(),
            spec_last_nonempty(views_of(parts@)) == spec_last_nonempty(
                views_of(parts@).take(k as int),
            ),
        decreases k,
    {
        proof {
            assert(views_of(parts@).take(k as int)[k - 1] == parts@[k - 1]@);
        }
        if parts[k - 1].unicode_len() > 0 {
            let r = parts[k - 1].clone();
            return Some(r);
        }
        proof {
            assert(views_of(parts@).take(k as int).take(k - 1 as int) =~= views_of(parts@).take(
                k - 1 as int,
            ));
        }
        k = k - 1;
    }
    proof {
        assert(views_of(parts@).take(0) =~= Seq::<Seq<char>>::empty());
    }
    None
}

} // verus!
