//! Character-level building blocks for the line-oriented configuration
//! parsers: whitespace in the sense of `char::is_whitespace`, line splitting
//! on `'\n'`, trimming and whitespace-separated tokens.

use vstd::prelude::*;

verus! {

broadcast use vstd::string::group_string_axioms;

/// Unicode `White_Space`, the set that `char::is_whitespace` accepts.
pub open spec fn is_ws(c: char) -> bool {
    let u = c as u32;
    ||| 0x09 <= u <= 0x0D
    ||| u == 0x20
    ||| u == 0x85
    ||| u == 0xA0
    ||| u == 0x1680
    ||| 0x2000 <= u <= 0x200A
    ||| u == 0x2028
    ||| u == 0x2029
    ||| u == 0x202F
    ||| u == 0x205F
    ||| u == 0x3000
}

/// First index at or after `i` that is not whitespace (or the length).
pub open spec fn skip_ws(s: Seq<char>, i: int) -> int
    decreases s.len() - i,
{
    if 0 <= i < s.len() && is_ws(s[i]) {
        skip_ws(s, i + 1)
    } else {
        i
    }
}

/// First index at or after `i` that is whitespace (or the length).
pub open spec fn skip_token(s: Seq<char>, i: int) -> int
    decreases s.len() - i,
{
    if 0 <= i < s.len() && !is_ws(s[i]) {
        skip_token(s, i + 1)
    } else {
        i
    }
}

/// Largest index at or below `j` whose preceding character is not whitespace
/// (or zero).
pub open spec fn skip_ws_back(s: Seq<char>, j: int) -> int
    decreases j,
{
    if 0 < j <= s.len() && is_ws(s[j - 1]) {
        skip_ws_back(s, j - 1)
    } else {
        j
    }
}

/// Index of the first `'\n'` at or after `i`, or the length.
pub open spec fn line_end(s: Seq<char>, i: int) -> int
    decreases s.len() - i,
{
    if 0 <= i < s.len() && s[i] != '\n' {
        line_end(s, i + 1)
    } else {
        i
    }
}

/// `str::trim_start`.
pub open spec fn trim_start_of(s: Seq<char>) -> Seq<char> {
    s.skip(skip_ws(s, 0))
}

/// `str::trim_end`.
pub open spec fn trim_end_of(s: Seq<char>) -> Seq<char> {
    s.take(skip_ws_back(s, s.len() as int))
}

/// `str::trim`.
pub open spec fn trim_of(s: Seq<char>) -> Seq<char> {
    trim_end_of(trim_start_of(s))
}

/// A line whose first non-blank character is `#` or `;`.
pub open spec fn comment_line(line: Seq<char>) -> bool {
    let t = trim_start_of(line);
    t.len() > 0 && (t[0] == '#' || t[0] == ';')
}

/// The first item of `split_whitespace()`.
pub open spec fn first_token_of(line: Seq<char>) -> Option<Seq<char>> {
    let a = skip_ws(line, 0);
    if a < line.len() {
        Some(line.subrange(a, skip_token(line, a)))
    } else {
        None
    }
}

/// The second item of `split_whitespace()`.
pub open spec fn second_token_of(line: Seq<char>) -> Option<Seq<char>> {
    let b = skip_token(line, skip_ws(line, 0));
    let c = skip_ws(line, b);
    if c < line.len() {
        Some(line.subrange(c, skip_token(line, c)))
    } else {
        None
    }
}

pub open spec fn starts_with_char(s: Seq<char>, c: char) -> bool {
    s.len() > 0 && s[0] == c
}

pub open spec fn ends_with_char(s: Seq<char>, c: char) -> bool {
    s.len() > 0 && s[s.len() - 1] == c
}

/// `s` begins with the two characters `</`.
pub open spec fn starts_with_closing_tag(s: Seq<char>) -> bool {
    s.len() >= 2 && s[0] == '<' && s[1] == '/'
}

pub proof fn lemma_skip_ws_bounds(s: Seq<char>, i: int)
    requires
        0 <= i <= s.len(),
    ensures
        i <= skip_ws(s, i) <= s.len(),
        forall|k: int| i <= k < skip_ws(s, i) ==> is_ws(#[trigger] s[k]),
        skip_ws(s, i) < s.len() ==> !is_ws(s[skip_ws(s, i)]),
    decreases s.len() - i,
{
    if i < s.len() && is_ws(s[i]) {
        lemma_skip_ws_bounds(s, i + 1);
    }
}

pub proof fn lemma_skip_token_bounds(s: Seq<char>, i: int)
    requires
        0 <= i <= s.len(),
    ensures
        i <= skip_token(s, i) <= s.len(),
        forall|k: int| i <= k < skip_token(s, i) ==> !is_ws(#[trigger] s[k]),
        skip_token(s, i) < s.len() ==> is_ws(s[skip_token(s, i)]),
    decreases s.len() - i,
{
    if i < s.len() && !is_ws(s[i]) {
        lemma_skip_token_bounds(s, i + 1);
    }
}

pub proof fn lemma_line_end_bounds(s: Seq<char>, i: int)
    requires
        0 <= i <= s.len(),
    ensures
        i <= line_end(s, i) <= s.len(),
        forall|k: int| i <= k < line_end(s, i) ==> #[trigger] s[k] != '\n',
        line_end(s, i) < s.len() ==> s[line_end(s, i)] == '\n',
    decreases s.len() - i,
{
    if i < s.len() && s[i] != '\n' {
        lemma_line_end_bounds(s, i + 1);
    }
}

pub proof fn lemma_skip_ws_back_bounds(s: Seq<char>, j: int)
    requires
        0 <= j <= s.len(),
    ensures
        0 <= skip_ws_back(s, j) <= j,
    decreases j,
{
    if 0 < j && is_ws(s[j - 1]) {
        lemma_skip_ws_back_bounds(s, j - 1);
    }
}

/// The line of `s` that starts at `i` ends at `e`.
pub proof fn lemma_line_end_at(s: Seq<char>, i: int, e: int)
    requires
        0 <= i <= e <= s.len(),
        forall|k: int| i <= k < e ==> s[k] != '\n',
        e == s.len() || s[e] == '\n',
    ensures
        line_end(s, i) == e,
    decreases e - i,
{
    if i < e {
        lemma_line_end_at(s, i + 1, e);
    }
}

/// The token of `s` that starts at `i` ends at `e`.
pub proof fn lemma_skip_token_at(s: Seq<char>, i: int, e: int)
    requires
        0 <= i <= e <= s.len(),
        forall|k: int| i <= k < e ==> !is_ws(#[trigger] s[k]),
        e == s.len() || is_ws(s[e]),
    ensures
        skip_token(s, i) == e,
    decreases e - i,
{
    if i < e {
        lemma_skip_token_at(s, i + 1, e);
    }
}

/// `char::is_whitespace`.
pub fn is_whitespace(c: char) -> (r: bool)
    ensures
        r == is_ws(c),
{
    let u = c as u32;
    (0x09 <= u && u <= 0x0D) || u == 0x20 || u == 0x85 || u == 0xA0 || u == 0x1680 || (0x2000
        <= u && u <= 0x200A) || u == 0x2028 || u == 0x2029 || u == 0x202F || u == 0x205F || u
        == 0x3000
}

/// The characters of `s`, in order.
pub fn chars_of(s: &str) -> (v: Vec<char>)
    ensures
        v@ == s@,
{
    let mut v: Vec<char> = Vec::new();
    for c in it: s.chars()
        invariant
            v@ == it.seq().take(it.index()),
            it.seq() == s@,
    {
        v.push(c);
    }
    v
}

/// A copy of `s[a..b]`.
pub fn copy_range(s: &[char], a: usize, b: usize) -> (v: Vec<char>)
    requires
        a <= b <= s@.len(),
    ensures
        v@ == s@.subrange(a as int, b as int),
{
    let mut v: Vec<char> = Vec::new();
    let mut k = a;
    while k < b
        invariant
            a <= k <= b <= s@.len(),
            v@ == s@.subrange(a as int, k as int),
        decreases b - k,
    {
        v.push(s[k]);
        k = k + 1;
    }
    v
}

pub fn skip_whitespace(s: &[char], i: usize) -> (r: usize)
    requires
        i <= s@.len(),
    ensures
        r == skip_ws(s@, i as int),
{
    let mut k = i;
    while k < s.len() && is_whitespace(s[k])
        invariant
            i <= k <= s@.len(),
            skip_ws(s@, i as int) == skip_ws(s@, k as int),
        decreases s@.len() - k,
    {
        k = k + 1;
    }
    k
}

pub fn skip_non_whitespace(s: &[char], i: usize) -> (r: usize)
    requires
        i <= s@.len(),
    ensures
        r == skip_token(s@, i as int),
{
    let mut k = i;
    while k < s.len() && !is_whitespace(s[k])
        invariant
            i <= k <= s@.len(),
            skip_token(s@, i as int) == skip_token(s@, k as int),
        decreases s@.len() - k,
    {
        k = k + 1;
    }
    k
}

/// Index of the first `'\n'` at or after `i`, or `s.len()`.
pub fn find_line_end(s: &[char], i: usize) -> (r: usize)
    requires
        i <= s@.len(),
    ensures
        r == line_end(s@, i as int),
{
    let mut k = i;
    while k < s.len() && s[k] != '\n'
        invariant
            i <= k <= s@.len(),
            line_end(s@, i as int) == line_end(s@, k as int),
        decreases s@.len() - k,
    {
        k = k + 1;
    }
    k
}

/// `str::trim`, on characters.
pub fn trim(line: &[char]) -> (t: Vec<char>)
    ensures
        t@ == trim_of(line@),
{
    let a = skip_whitespace(line, 0);
    proof {
        lemma_skip_ws_bounds(line@, 0);
    }
    let rest = copy_range(line, a, line.len());
    assert(rest@ == trim_start_of(line@));
    let mut b = rest.len();
    while b > 0 && is_whitespace(rest[b - 1])
        invariant
            b <= rest@.len(),
            skip_ws_back(rest@, rest@.len() as int) == skip_ws_back(rest@, b as int),
        decreases b,
    {
        b = b - 1;
    }
    copy_range(&rest, 0, b)
}

/// Whether the line, ignoring leading whitespace, starts with `#` or `;`.
pub fn is_comment(line: &[char]) -> (r: bool)
    ensures
        r == comment_line(line@),
{
    let a = skip_whitespace(line, 0);
    proof {
        lemma_skip_ws_bounds(line@, 0);
    }
    a < line.len() && (line[a] == '#' || line[a] == ';')
}

/// Bounds of the first whitespace-separated token of `line`, if any.
pub fn first_token(line: &[char]) -> (r: Option<(usize, usize)>)
    ensures
        match first_token_of(line@) {
            Some(tok) => r matches Some((a, b)) && a <= b <= line@.len() && line@.subrange(
                a as int,
                b as int,
            ) == tok,
            None => r is None,
        },
{
    let a = skip_whitespace(line, 0);
    proof {
        lemma_skip_ws_bounds(line@, 0);
    }
    if a < line.len() {
        let b = skip_non_whitespace(line, a);
        proof {
            lemma_skip_token_bounds(line@, a as int);
        }
        Some((a, b))
    } else {
        None
    }
}

/// Bounds of the second whitespace-separated token of `line`, if any.
pub fn second_token(line: &[char]) -> (r: Option<(usize, usize)>)
    ensures
        match second_token_of(line@) {
            Some(tok) => r matches Some((a, b)) && a <= b <= line@.len() && line@.subrange(
                a as int,
                b as int,
            ) == tok,
            None => r is None,
        },
{
    let a = skip_whitespace(line, 0);
    proof {
        lemma_skip_ws_bounds(line@, 0);
    }
    let b = skip_non_whitespace(line, a);
    proof {
        lemma_skip_token_bounds(line@, a as int);
    }
    let c = skip_whitespace(line, b);
    proof {
        lemma_skip_ws_bounds(line@, b as int);
    }
    if c < line.len() {
        let d = skip_non_whitespace(line, c);
        proof {
            lemma_skip_token_bounds(line@, c as int);
        }
        Some((c, d))
    } else {
        None
    }
}

/// Whether `s[a..b]` equals `word`.
pub fn range_equals(s: &[char], a: usize, b: usize, word: &[char]) -> (r: bool)
    requires
        a <= b <= s@.len(),
    ensures
        r == (s@.subrange(a as int, b as int) == word@),
{
    if b - a != word.len() {
        return false;
    }
    let mut k: usize = 0;
    while k < word.len()
        invariant
            a <= b <= s@.len(),
            b - a == word@.len(),
            k <= word@.len(),
            forall|j: int| 0 <= j < k ==> s@[a + j] == word@[j],
        decreases word@.len() - k,
    {
        if s[a + k] != word[k] {
            assert(s@.subrange(a as int, b as int)[k as int] != word@[k as int]);
            return false;
        }
        k = k + 1;
    }
    assert(s@.subrange(a as int, b as int) =~= word@);
    true
}

/// `char::to_ascii_lowercase`.
pub open spec fn ascii_lower(c: char) -> char {
    if 'A' <= c <= 'Z' {
        ((c as u32) + 32) as char
    } else {
        c
    }
}

/// `str::eq_ignore_ascii_case`.
pub open spec fn eq_ignore_ascii_case(a: Seq<char>, b: Seq<char>) -> bool {
    a.len() == b.len() && forall|i: int| 0 <= i < a.len() ==> ascii_lower(a[i]) == ascii_lower(b[i])
}

/// `char::to_ascii_lowercase`.
pub fn to_ascii_lowercase(c: char) -> (r: char)
    ensures
        r == ascii_lower(c),
{
    if 'A' <= c && c <= 'Z' {
        (((c as u32) + 32) as u8) as char
    } else {
        c
    }
}

/// `String::push`. The claim: the character is appended at the end.
#[verifier::external_body]
pub(crate) fn push_char(s: &mut String, c: char)
    ensures
        final(s)@ == old(s)@.push(c),
{
    s.push(c);
}

/// A `String` holding exactly the characters `s[a..b]`.
pub fn string_from_range(s: &[char], a: usize, b: usize) -> (r: String)
    requires
        a <= b <= s@.len(),
    ensures
        r@ == s@.subrange(a as int, b as int),
{
    let mut r = String::new();
    let mut k = a;
    while k < b
        invariant
            a <= k <= b <= s@.len(),
            r@ == s@.subrange(a as int, k as int),
        decreases b - k,
    {
        push_char(&mut r, s[k]);
        k = k + 1;
        assert(r@ =~= s@.subrange(a as int, k as int));
    }
    r
}

} // verus!
