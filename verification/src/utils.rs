//! Text utilities shared by the edition pipeline and the outline-document
//! merge engine: character classes, prefix and substring predicates over
//! character sequences, and whitespace trimming.

use chrono::Timelike;
use vstd::prelude::*;

verus! {

/// The characters this library treats as blank when trimming a line.
pub open spec fn is_blank_char(c: char) -> bool {
    c == ' ' || c == '\t' || c == '\r' || c == '\n'
}

/// `p` is a prefix of `s`.
pub open spec fn seq_starts_with(s: Seq<char>, p: Seq<char>) -> bool {
    &&& p.len() <= s.len()
    &&& forall|i: int| 0 <= i < p.len() ==> s[i] == p[i]
}

/// `p` occurs in `s` at offset `k`.
pub open spec fn matches_at(s: Seq<char>, p: Seq<char>, k: int) -> bool {
    &&& 0 <= k
    &&& k + p.len() <= s.len()
    &&& forall|i: int| 0 <= i < p.len() ==> s[k + i] == p[i]
}

/// `p` occurs somewhere in `s`.
pub open spec fn seq_contains_sub(s: Seq<char>, p: Seq<char>) -> bool {
    exists|k: int| matches_at(s, p, k)
}

/// Number of blank characters at the front of `s`.
pub open spec fn lead_blanks(s: Seq<char>) -> int
    decreases s.len(),
{
    if s.len() == 0 {
        0
    } else if !is_blank_char(s[0]) {
        0
    } else {
        1 + lead_blanks(s.drop_first())
    }
}

/// Number of blank characters at the back of `s`.
pub open spec fn tail_blanks(s: Seq<char>) -> int
    decreases s.len(),
{
    if s.len() == 0 {
        0
    } else if !is_blank_char(s[s.len() - 1]) {
        0
    } else {
        1 + tail_blanks(s.drop_last())
    }
}

/// `s` with blank characters removed from both ends.
pub open spec fn trim_spec(s: Seq<char>) -> Seq<char> {
    let a = lead_blanks(s);
    let b = s.len() - tail_blanks(s);
    if a < b {
        s.subrange(a, b)
    } else {
        Seq::empty()
    }
}

pub proof fn lemma_lead_blanks_bounds(s: Seq<char>)
    ensures
        0 <= lead_blanks(s) <= s.len(),
        forall|i: int| 0 <= i < lead_blanks(s) ==> is_blank_char(s[i]),
        lead_blanks(s) < s.len() ==> !is_blank_char(s[lead_blanks(s)]),
    decreases s.len(),
{
    if s.len() == 0 {
    } else if !is_blank_char(s[0]) {
    } else {
        lemma_lead_blanks_bounds(s.drop_first());
        assert forall|i: int| 0 <= i < lead_blanks(s) implies is_blank_char(s[i]) by {
            if i > 0 {
                assert(s.drop_first()[i - 1] == s[i]);
            }
        }
        if lead_blanks(s) < s.len() {
            assert(s.drop_first()[lead_blanks(s) - 1] == s[lead_blanks(s)]);
        }
    }
}

pub proof fn lemma_tail_blanks_bounds(s: Seq<char>)
    ensures
        0 <= tail_blanks(s) <= s.len(),
        forall|i: int| s.len() - tail_blanks(s) <= i < s.len() ==> is_blank_char(s[i]),
        tail_blanks(s) < s.len() ==> !is_blank_char(s[s.len() - tail_blanks(s) - 1]),
    decreases s.len(),
{
    if s.len() == 0 {
    } else if !is_blank_char(s[s.len() - 1]) {
    } else {
        lemma_tail_blanks_bounds(s.drop_last());
        assert forall|i: int| s.len() - tail_blanks(s) <= i < s.len() implies is_blank_char(
            s[i],
        ) by {
            if i < s.len() - 1 {
                assert(s.drop_last()[i] == s[i]);
            }
        }
        if tail_blanks(s) < s.len() {
            assert(s.drop_last()[s.len() - tail_blanks(s) - 1] == s[s.len() - tail_blanks(s) - 1]);
        }
    }
}

/// A cut position with only blanks before it and a non-blank (or the end)
/// at it is exactly `lead_blanks`.
pub proof fn lemma_lead_blanks_unique(s: Seq<char>, a: int)
    requires
        0 <= a <= s.len(),
        forall|i: int| 0 <= i < a ==> is_blank_char(s[i]),
        a < s.len() ==> !is_blank_char(s[a]),
    ensures
        a == lead_blanks(s),
{
    lemma_lead_blanks_bounds(s);
    if a < lead_blanks(s) {
        assert(is_blank_char(s[a]));
    }
    if a > lead_blanks(s) {
        assert(is_blank_char(s[lead_blanks(s)]));
    }
}

pub proof fn lemma_tail_blanks_unique(s: Seq<char>, t: int)
    requires
        0 <= t <= s.len(),
        forall|i: int| s.len() - t <= i < s.len() ==> is_blank_char(s[i]),
        t < s.len() ==> !is_blank_char(s[s.len() - t - 1]),
    ensures
        t == tail_blanks(s),
{
    lemma_tail_blanks_bounds(s);
    if t < tail_blanks(s) {
        assert(is_blank_char(s[s.len() - t - 1]));
    }
    if t > tail_blanks(s) {
        assert(is_blank_char(s[s.len() - tail_blanks(s) - 1]));
    }
}

/// A sequence with non-blank ends trims to itself.
pub proof fn lemma_trim_noop(s: Seq<char>)
    requires
        s.len() > 0,
        !is_blank_char(s[0]),
        !is_blank_char(s[s.len() - 1]),
    ensures
        trim_spec(s) == s,
{
    assert(lead_blanks(s) == 0);
    assert(tail_blanks(s) == 0);
    assert(s.subrange(0, s.len() as int) =~= s);
}

/// A blank prefix before a sequence with non-blank ends trims away.
pub proof fn lemma_trim_indent(pre: Seq<char>, core: Seq<char>)
    requires
        forall|i: int| 0 <= i < pre.len() ==> is_blank_char(pre[i]),
        core.len() > 0,
        !is_blank_char(core[0]),
        !is_blank_char(core[core.len() - 1]),
    ensures
        trim_spec(pre + core) == core,
{
    let s = pre + core;
    assert forall|i: int| 0 <= i < pre.len() implies is_blank_char(s[i]) by {
        assert(s[i] == pre[i]);
    }
    assert(s[pre.len() as int] == core[0]);
    lemma_lead_blanks_unique(s, pre.len() as int);
    assert(s[s.len() - 1] == core[core.len() - 1]);
    lemma_tail_blanks_unique(s, 0);
    assert(s.subrange(pre.len() as int, s.len() as int) =~= core);
}

/// The empty sequence trims to itself.
pub proof fn lemma_trim_empty()
    ensures
        trim_spec(Seq::<char>::empty()) == Seq::<char>::empty(),
{
}

/// Whether `c` counts as blank for trimming.
pub fn is_blank(c: char) -> (r: bool)
    ensures
        r == is_blank_char(c),
{
    c == ' ' || c == '\t' || c == '\r' || c == '\n'
}

/// Both ends of `s` stripped of blank characters.
pub fn trim(s: &str) -> (r: String)
    ensures
        r@ == trim_spec(s@),
{
    let n = s.unicode_len();
    let mut a: usize = 0;
    while a < n && is_blank(s.get_char(a))
        invariant
            n == s@.len(),
            0 <= a <= n,
            forall|i: int| 0 <= i < a ==> is_blank_char(s@[i]),
        decreases n - a,
    {
        a = a + 1;
    }
    proof {
        lemma_lead_blanks_unique(s@, a as int);
    }
    if a == n {
        proof {
            lemma_tail_blanks_bounds(s@);
        }
        return String::new();
    }
    let mut b: usize = n;
    while b > a && is_blank(s.get_char(b - 1))
        invariant
            n == s@.len(),
            a <= b <= n,
            a < n,
            !is_blank_char(s@[a as int]),
            forall|i: int| b <= i < n ==> is_blank_char(s@[i]),
        decreases b,
    {
        b = b - 1;
    }
    proof {
        if b == a {
            assert(is_blank_char(s@[a as int]));
        }
        assert(!is_blank_char(s@[b - 1]));
        lemma_tail_blanks_unique(s@, n - b);
    }
    s.substring_char(a, b).to_owned()
}

/// Whether the trimmed forms of `s` and `t` are equal.
pub fn trim_eq(s: &str, t: &str) -> (r: bool)
    ensures
        r == (trim_spec(s@) == trim_spec(t@)),
{
    let ts = trim(s);
    let tt = trim(t);
    ts == tt
}

/// Whether `p` is a prefix of `s`.
pub fn starts_with_str(s: &str, p: &str) -> (r: bool)
    ensures
        r == seq_starts_with(s@, p@),
{
    let n = s.unicode_len();
    let m = p.unicode_len();
    if m > n {
        return false;
    }
    let mut i: usize = 0;
    while i < m
        invariant
            n == s@.len(),
            m == p@.len(),
            m <= n,
            0 <= i <= m,
            forall|j: int| 0 <= j < i ==> s@[j] == p@[j],
        decreases m - i,
    {
        if s.get_char(i) != p.get_char(i) {
            return false;
        }
        i = i + 1;
    }
    true
}

/// Whether `p` occurs in `s` at offset `k`.
fn matches_at_exec(s: &str, p: &str, k: usize) -> (r: bool)
    requires
        k + p@.len() <= s@.len(),
    ensures
        r == matches_at(s@, p@, k as int),
{
    let n = s.unicode_len();
    let m = p.unicode_len();
    let mut i: usize = 0;
    while i < m
        invariant
            n == s@.len(),
            m == p@.len(),
            k + m <= n,
            0 <= i <= m,
            forall|j: int| 0 <= j < i ==> s@[k + j] == p@[j],
        decreases m - i,
    {
        if s.get_char(k + i) != p.get_char(i) {
            return false;
        }
        i = i + 1;
    }
    true
}

/// Whether `p` occurs somewhere in `s`.
pub fn contains_sub(s: &str, p: &str) -> (r: bool)
    ensures
        r == seq_contains_sub(s@, p@),
{
    let n = s.unicode_len();
    let m = p.unicode_len();
    if m > n {
        assert forall|k: int| !matches_at(s@, p@, k) by {}
        return false;
    }
    let mut k: usize = 0;
    while k <= n - m
        invariant
            n == s@.len(),
            m == p@.len(),
            m <= n,
            0 <= k <= n - m + 1,
            forall|j: int| 0 <= j < k ==> !matches_at(s@, p@, j),
        decreases n - k,
    {
        if matches_at_exec(s, p, k) {
            return true;
        }
        k = k + 1;
    }
    assert forall|j: int| !matches_at(s@, p@, j) by {
        if 0 <= j <= n - m {
            assert(!matches_at(s@, p@, j));
        }
    }
    false
}

/// The first position at or after `i` holding `sep`, or -1 when there is
/// none.
pub open spec fn find_char_from(s: Seq<char>, sep: char, i: int) -> int
    decreases s.len() - i,
{
    if i < 0 || i >= s.len() {
        -1
    } else if s[i] == sep {
        i
    } else {
        find_char_from(s, sep, i + 1)
    }
}

/// A position with no `sep` before it (from `i` on) and `sep` at it is
/// exactly what `find_char_from` returns.
pub proof fn lemma_find_char_from_unique(s: Seq<char>, sep: char, i: int, f: int)
    requires
        0 <= i <= s.len(),
        i <= f < s.len(),
        s[f] == sep,
        forall|j: int| i <= j < f ==> s[j] != sep,
    ensures
        find_char_from(s, sep, i) == f,
    decreases f - i,
{
    if i < f {
        lemma_find_char_from_unique(s, sep, i + 1, f);
    }
}

pub proof fn lemma_find_char_from_none(s: Seq<char>, sep: char, i: int)
    requires
        0 <= i <= s.len(),
        forall|j: int| i <= j < s.len() ==> s[j] != sep,
    ensures
        find_char_from(s, sep, i) == -1,
    decreases s.len() - i,
{
    if i < s.len() {
        lemma_find_char_from_none(s, sep, i + 1);
    }
}

/// `s` split on `sep`: the separators are dropped, empty segments kept, and
/// a trailing separator yields a final empty segment.
pub open spec fn split_char_spec(s: Seq<char>, sep: char) -> Seq<Seq<char>>
    decreases s.len(),
{
    let f = find_char_from(s, sep, 0);
    if f < 0 {
        seq![s]
    } else if f >= s.len() {
        seq![s]
    } else {
        seq![s.subrange(0, f)] + split_char_spec(s.subrange(f + 1, s.len() as int), sep)
    }
}

/// Split a string on a separator character.
pub fn split_on_char(s: &str, sep: char) -> (r: Vec<String>)
    ensures
        r.deep_view() == split_char_spec(s@, sep),
{
    let n = s.unicode_len();
    let mut out: Vec<String> = Vec::new();
    let mut cur = String::new();
    let mut start: usize = 0;
    let mut i: usize = 0;
    proof {
        assert(s@.skip(0) =~= s@);
        assert(out.deep_view() =~= Seq::<Seq<char>>::empty());
        assert(out.deep_view() + split_char_spec(s@, sep) =~= split_char_spec(s@, sep));
    }
    while i < n
        invariant
            n == s@.len(),
            0 <= start <= i <= n,
            cur@ == s@.subrange(start as int, i as int),
            forall|j: int| start <= j < i ==> s@[j] != sep,
            split_char_spec(s@, sep) == out.deep_view() + split_char_spec(
                s@.skip(start as int),
                sep,
            ),
        decreases n - i,
    {
        let c = s.get_char(i);
        if c == sep {
            proof {
                let tail = s@.skip(start as int);
                assert forall|j: int| 0 <= j < i - start implies tail[j] != sep by {
                    assert(tail[j] == s@[start + j]);
                }
                assert(tail[i - start] == sep);
                lemma_find_char_from_unique(tail, sep, 0, i - start);
                assert(tail.subrange(0, i - start) =~= s@.subrange(start as int, i as int));
                assert(tail.subrange(i - start + 1, tail.len() as int) =~= s@.skip(i + 1));
            }
            out.push(cur);
            cur = String::new();
            proof {
                assert(out.deep_view().drop_last() + split_char_spec(s@.skip(start as int), sep)
                    =~= out.deep_view().drop_last() + (seq![s@.subrange(start as int, i as int)]
                    + split_char_spec(s@.skip(i + 1), sep)));
                assert(out.deep_view().drop_last().push(s@.subrange(start as int, i as int))
                    =~= out.deep_view());
                assert(out.deep_view().drop_last() + (seq![
                    s@.subrange(start as int, i as int),
                ] + split_char_spec(s@.skip(i + 1), sep)) =~= out.deep_view() + split_char_spec(
                    s@.skip(i + 1),
                    sep,
                ));
            }
            start = i + 1;
        } else {
            push_char(&mut cur, c);
            proof {
                assert(cur@ =~= s@.subrange(start as int, i + 1));
            }
        }
        i = i + 1;
    }
    proof {
        let tail = s@.skip(start as int);
        assert forall|j: int| 0 <= j < tail.len() implies tail[j] != sep by {
            assert(tail[j] == s@[start + j]);
        }
        lemma_find_char_from_none(tail, sep, 0);
        assert(cur@ =~= tail);
    }
    out.push(cur);
    proof {
        assert(out.deep_view().drop_last().push(s@.skip(start as int)) =~= out.deep_view());
        assert(out.deep_view().drop_last() + seq![s@.skip(start as int)] =~= out.deep_view());
    }
    out
}

pub proof fn lemma_split_char_nonempty(s: Seq<char>, sep: char)
    ensures
        split_char_spec(s, sep).len() >= 1,
{
}

/// A document text as a sequence of lines: split on newline, with the
/// final empty segment of a trailing newline dropped; an empty text has no
/// lines.
pub open spec fn split_lines_spec(s: Seq<char>) -> Seq<Seq<char>> {
    if s.len() == 0 {
        Seq::empty()
    } else {
        let parts = split_char_spec(s, '\n');
        if s[s.len() - 1] == '\n' {
            parts.drop_last()
        } else {
            parts
        }
    }
}

/// Split a document text into lines.
pub fn split_lines(s: &str) -> (r: Vec<String>)
    ensures
        r.deep_view() == split_lines_spec(s@),
{
    let n = s.unicode_len();
    if n == 0 {
        let r: Vec<String> = Vec::new();
        proof {
            assert(r.deep_view() =~= split_lines_spec(s@));
        }
        return r;
    }
    let mut v = split_on_char(s, '\n');
    if n > 0 && s.get_char(n - 1) == '\n' {
        proof {
            lemma_split_char_nonempty(s@, '\n');
            assert(v@.len() == v.deep_view().len());
        }
        let ghost old_dv = v.deep_view();
        v.pop();
        proof {
            assert(v.deep_view() =~= old_dv.drop_last());
        }
    }
    v
}

/// Lines joined with a newline between each pair, with no trailing newline.
pub open spec fn join_lines_spec(lines: Seq<Seq<char>>) -> Seq<char>
    decreases lines.len(),
{
    if lines.len() == 0 {
        Seq::empty()
    } else if lines.len() == 1 {
        lines[0]
    } else {
        join_lines_spec(lines.drop_last()) + seq!['\n'] + lines.last()
    }
}

/// Join lines into one document text.
pub fn join_lines(lines: &Vec<String>) -> (r: String)
    ensures
        r@ == join_lines_spec(lines.deep_view()),
{
    let mut r = String::new();
    let mut i: usize = 0;
    while i < lines.len()
        invariant
            0 <= i <= lines@.len(),
            r@ == join_lines_spec(lines.deep_view().subrange(0, i as int)),
        decreases lines@.len() - i,
    {
        if i > 0 {
            push_char(&mut r, '\n');
        }
        r.append(lines[i].as_str());
        proof {
            let dv = lines.deep_view();
            assert(dv[i as int] == lines@[i as int]@);
            assert(dv.subrange(0, i + 1).drop_last() =~= dv.subrange(0, i as int));
            assert(dv.subrange(0, i + 1).last() == dv[i as int]);
            if i == 0 {
                assert(r@ =~= join_lines_spec(dv.subrange(0, 1)));
            } else {
                assert(r@ =~= join_lines_spec(dv.subrange(0, i as int)) + seq!['\n'] + dv[
                    i as int
                ]);
            }
        }
        i = i + 1;
    }
    proof {
        assert(lines.deep_view().subrange(0, lines@.len() as int) =~= lines.deep_view());
    }
    r
}

/// Lexicographic order on character sequences, by code point; ties broken
/// by length.  This is the order in which strings sort.
pub open spec fn lex_le(a: Seq<char>, b: Seq<char>) -> bool
    decreases a.len(),
{
    if a.len() == 0 {
        true
    } else if b.len() == 0 {
        false
    } else if (a[0] as u32) < (b[0] as u32) {
        true
    } else if (a[0] as u32) > (b[0] as u32) {
        false
    } else {
        lex_le(a.drop_first(), b.drop_first())
    }
}

/// Whether `a` sorts at or before `b`.
pub fn str_lex_le(a: &str, b: &str) -> (r: bool)
    ensures
        r == lex_le(a@, b@),
{
    let na = a.unicode_len();
    let nb = b.unicode_len();
    let mut i: usize = 0;
    proof {
        assert(a@.skip(0) =~= a@);
        assert(b@.skip(0) =~= b@);
    }
    loop
        invariant
            na == a@.len(),
            nb == b@.len(),
            0 <= i <= na,
            i <= nb,
            lex_le(a@, b@) == lex_le(a@.skip(i as int), b@.skip(i as int)),
        decreases na - i,
    {
        if i == na {
            return true;
        }
        if i == nb {
            return false;
        }
        let ca = a.get_char(i);
        let cb = b.get_char(i);
        proof {
            assert(a@.skip(i as int)[0] == ca);
            assert(b@.skip(i as int)[0] == cb);
        }
        if (ca as u32) < (cb as u32) {
            return true;
        }
        if (ca as u32) > (cb as u32) {
            return false;
        }
        proof {
            assert(a@.skip(i as int).drop_first() =~= a@.skip(i + 1));
            assert(b@.skip(i as int).drop_first() =~= b@.skip(i + 1));
        }
        i = i + 1;
    }
}

#[verifier::external_type_specification]
#[verifier::external_body]
pub struct ExSerdeJsonError(serde_json::Error);

/// Relies on serde_json's Error::classify: tells the end-of-file category
/// (a structurally incomplete document) apart from the other parse-error
/// categories.
#[verifier::external_body]
pub fn looks_truncated(e: &serde_json::Error) -> bool {
    matches!(e.classify(), serde_json::error::Category::Eof)
}

/// What `str::to_lowercase` returns for a given character sequence.
pub uninterp spec fn lower_of(s: Seq<char>) -> Seq<char>;

/// What `char::to_uppercase` returns for a given character.
pub uninterp spec fn upper_char_of(c: char) -> Seq<char>;

/// What `char::is_alphanumeric` returns for a given character.
pub uninterp spec fn char_alnum(c: char) -> bool;

/// Relies on String::push: the character is appended at the end.
#[verifier::external_body]
fn push_char(s: &mut String, c: char)
    ensures
        final(s)@ == old(s)@.push(c),
{
    s.push(c);
}

/// Relies on str::to_lowercase: the result depends on the characters alone.
#[verifier::external_body]
fn lowercase(s: &str) -> (r: String)
    ensures
        r@ == lower_of(s@),
        s@.len() == 0 ==> r@.len() == 0,
{
    s.to_lowercase()
}

/// Relies on char::to_uppercase: the mapping depends on the character alone,
/// and an ASCII lowercase letter maps to its single capital counterpart.
#[verifier::external_body]
fn upper_char(c: char) -> (r: String)
    ensures
        r@ == upper_char_of(c),
        'a' as u32 <= c as u32 && c as u32 <= 'z' as u32 ==> r@ == seq![
            ((c as u32) - 32) as char,
        ],
{
    c.to_uppercase().collect::<String>()
}

/// Relies on char::is_alphanumeric: the classification depends on the
/// character alone.
#[verifier::external_body]
fn is_alnum(c: char) -> (r: bool)
    ensures
        r == char_alnum(c),
{
    c.is_alphanumeric()
}

/// Relies on chrono's Local::now and Timelike::hour: the hour of a time of
/// day is below 24.
#[verifier::external_body]
fn local_hour() -> (h: u32)
    ensures
        h < 24,
{
    chrono::Local::now().time().hour()
}

/// The capitalized form of `s`: its first character in upper case, the rest
/// unchanged.
pub open spec fn upcase_spec(s: Seq<char>) -> Seq<char> {
    if s.len() == 0 {
        Seq::empty()
    } else {
        upper_char_of(s[0]) + s.drop_first()
    }
}

/// Capitalize the first character of a string.  A string led by an ASCII
/// lowercase letter gains exactly that letter's capital.
pub fn upcase(s: &str) -> (r: String)
    ensures
        r@ == upcase_spec(s@),
        s@.len() > 0 && 'a' as u32 <= s@[0] as u32 && s@[0] as u32 <= 'z' as u32 ==> r@ == seq![
            ((s@[0] as u32) - 32) as char,
        ] + s@.drop_first(),
{
    let n = s.unicode_len();
    if n == 0 {
        return String::new();
    }
    let mut r = upper_char(s.get_char(0));
    r.append(s.substring_char(1, n));
    proof {
        assert(s@.subrange(1, n as int) =~= s@.drop_first());
    }
    r
}

/// How one (already lowercased) character contributes to a slug: a space
/// becomes a hyphen, hyphens and alphanumerics stay, all else is dropped.
pub open spec fn slug_unit(c: char) -> Seq<char> {
    if c == ' ' {
        seq!['-']
    } else if c == '-' || char_alnum(c) {
        seq![c]
    } else {
        Seq::empty()
    }
}

pub open spec fn slug_map(s: Seq<char>) -> Seq<char>
    decreases s.len(),
{
    if s.len() == 0 {
        Seq::empty()
    } else {
        slug_map(s.drop_last()) + slug_unit(s.last())
    }
}

/// The anchor slug of a title: lowercased, then mapped character-wise.
pub open spec fn slug_of_title(title: Seq<char>) -> Seq<char> {
    slug_map(lower_of(title))
}

/// Convert a title to a URL-friendly anchor slug.
pub fn slugify_title(title: &str) -> (r: String)
    ensures
        r@ == slug_of_title(title@),
{
    let low = lowercase(title);
    let n = low.as_str().unicode_len();
    let mut r = String::new();
    let mut i: usize = 0;
    while i < n
        invariant
            n == low@.len(),
            0 <= i <= n,
            r@ == slug_map(low@.subrange(0, i as int)),
        decreases n - i,
    {
        let c = low.as_str().get_char(i);
        let ghost pre = low@.subrange(0, i as int);
        let ghost pre1 = low@.subrange(0, i + 1);
        if c == ' ' {
            push_char(&mut r, '-');
        } else if c == '-' {
            push_char(&mut r, c);
        } else if is_alnum(c) {
            push_char(&mut r, c);
        }
        proof {
            assert(pre1.drop_last() =~= pre);
            assert(pre1.last() == c);
            assert(r@ =~= slug_map(pre) + slug_unit(c));
        }
        i = i + 1;
    }
    proof {
        assert(low@.subrange(0, n as int) =~= low@);
    }
    r
}

/// The decimal digit character for `d`.
pub open spec fn digit_char(d: int) -> char {
    if d == 0 {
        '0'
    } else if d == 1 {
        '1'
    } else if d == 2 {
        '2'
    } else if d == 3 {
        '3'
    } else if d == 4 {
        '4'
    } else if d == 5 {
        '5'
    } else if d == 6 {
        '6'
    } else if d == 7 {
        '7'
    } else if d == 8 {
        '8'
    } else {
        '9'
    }
}

/// The decimal rendering of a non-negative number.
pub open spec fn dec_str(n: int) -> Seq<char>
    decreases n,
{
    if n < 10 {
        seq![digit_char(n)]
    } else {
        dec_str(n / 10).push(digit_char(n % 10))
    }
}

fn digit_to_char(d: usize) -> (c: char)
    requires
        d < 10,
    ensures
        c == digit_char(d as int),
{
    if d == 0 {
        '0'
    } else if d == 1 {
        '1'
    } else if d == 2 {
        '2'
    } else if d == 3 {
        '3'
    } else if d == 4 {
        '4'
    } else if d == 5 {
        '5'
    } else if d == 6 {
        '6'
    } else if d == 7 {
        '7'
    } else if d == 8 {
        '8'
    } else {
        '9'
    }
}

/// Render a number in decimal.
pub fn usize_to_string(n: usize) -> (r: String)
    ensures
        r@ == dec_str(n as int),
    decreases n,
{
    if n < 10 {
        let mut s = String::new();
        push_char(&mut s, digit_to_char(n));
        proof {
            assert(s@ =~= seq![digit_char(n as int)]);
        }
        s
    } else {
        let mut s = usize_to_string(n / 10);
        push_char(&mut s, digit_to_char(n % 10));
        s
    }
}

/// The log preview of `s`: unchanged when short, else the first `max`
/// characters with an ellipsis and the count of what was cut.
pub open spec fn truncate_log_spec(s: Seq<char>, max: int) -> Seq<char> {
    if s.len() <= max {
        s
    } else {
        s.subrange(0, max) + "…(+"@ + dec_str(s.len() - max) + " bytes)"@
    }
}

/// Truncate a string for logging purposes.  A string that needs a cut is
/// ASCII, so that character count and byte count coincide; a string short
/// enough to pass through may hold anything.
pub fn truncate_for_log(s: &str, max: usize) -> (r: String)
    requires
        s@.len() <= max || s.is_ascii(),
    ensures
        r@ == truncate_log_spec(s@, max as int),
{
    let n = s.unicode_len();
    if n <= max {
        s.to_owned()
    } else {
        let mut r = s.substring_char(0, max).to_owned();
        r.append("…(+");
        let d = usize_to_string(n - max);
        r.append(d.as_str());
        r.append(" bytes)");
        r
    }
}

/// The time-slot label for an hour of day: before 08:00 `morning`, before
/// 16:00 `afternoon`, otherwise `evening`.
pub open spec fn slot_for_hour(h: int) -> Seq<char> {
    if h < 8 {
        "morning"@
    } else if h < 16 {
        "afternoon"@
    } else {
        "evening"@
    }
}

/// The edition label for a given hour of day.
pub fn time_slot_name(hour: u32) -> (r: String)
    ensures
        r@ == slot_for_hour(hour as int),
{
    if hour < 8 {
        "morning".to_owned()
    } else if hour < 16 {
        "afternoon".to_owned()
    } else {
        "evening".to_owned()
    }
}

/// Classify the current local time into morning, afternoon, or evening.
pub fn time_of_day() -> (r: String)
    ensures
        exists|h: int| 0 <= h < 24 && r@ == slot_for_hour(h),
{
    let h = local_hour();
    let r = time_slot_name(h);
    proof {
        assert(0 <= (h as int) && (h as int) < 24 && r@ == slot_for_hour(h as int));
    }
    r
}

} // verus!

