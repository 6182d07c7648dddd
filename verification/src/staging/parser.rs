//! Detection of `auth-user-pass` directives that make OpenVPN prompt for a
//! user name and password (as opposed to reading them from a file).

use vstd::prelude::*;

use crate::text::{
    chars_of, comment_line, copy_range, ends_with_char, find_line_end, first_token, first_token_of,
    is_comment, lemma_line_end_at, lemma_line_end_bounds, line_end, range_equals, second_token,
    second_token_of, starts_with_char, starts_with_closing_tag, trim, trim_of, trim_start_of,
};

verus! {

broadcast use vstd::string::group_string_axioms;

/// Where the scan for `auth-user-pass` stands.
#[derive(Clone, Copy)]
pub enum AuthScan {
    Scanning { in_inline_block: bool },
    Decided { prompt: bool },
}

/// How one line of the file changes the scan. The first `auth-user-pass`
/// outside comments and inline blocks decides: without an argument, or with
/// a comment where the file name would be, OpenVPN prompts.
pub open spec fn auth_step(st: AuthScan, line: Seq<char>) -> AuthScan {
    match st {
        AuthScan::Decided { .. } => st,
        AuthScan::Scanning { in_inline_block } => {
            if comment_line(line) {
                st
            } else {
                let t = trim_of(line);
                if in_inline_block {
                    if starts_with_closing_tag(t) {
                        AuthScan::Scanning { in_inline_block: false }
                    } else {
                        st
                    }
                } else if starts_with_char(t, '<') && !starts_with_closing_tag(t) {
                    if !ends_with_char(t, '>') || !t.contains('/') {
                        AuthScan::Scanning { in_inline_block: true }
                    } else {
                        st
                    }
                } else if first_token_of(t) == Some("auth-user-pass"@) {
                    AuthScan::Decided {
                        prompt: match second_token_of(t) {
                            Some(arg) => starts_with_char(arg, '#') || starts_with_char(arg, ';'),
                            None => true,
                        },
                    }
                } else {
                    st
                }
            }
        },
    }
}

/// The scan over the lines of `s` that start at or after index `i`.
pub open spec fn auth_scan_from(s: Seq<char>, i: int, st: AuthScan) -> AuthScan
    decreases s.len() + 1 - i,
    via auth_scan_from_decreases
{
    if 0 <= i < s.len() {
        let e = line_end(s, i);
        auth_scan_from(s, e + 1, auth_step(st, s.subrange(i, e)))
    } else {
        st
    }
}

#[via_fn]
proof fn auth_scan_from_decreases(s: Seq<char>, i: int, st: AuthScan) {
    if 0 <= i < s.len() {
        lemma_line_end_bounds(s, i);
    }
}

/// Whether the configuration makes OpenVPN prompt for a user name and
/// password.
pub open spec fn prompts_for_user_pass(content: Seq<char>) -> bool {
    match auth_scan_from(content, 0, AuthScan::Scanning { in_inline_block: false }) {
        AuthScan::Decided { prompt } => prompt,
        AuthScan::Scanning { .. } => false,
    }
}

/// Once decided, the scan stays decided.
proof fn lemma_decided_stays(s: Seq<char>, i: int, prompt: bool)
    ensures
        auth_scan_from(s, i, (AuthScan::Decided { prompt })) == (AuthScan::Decided { prompt }),
    decreases s.len() + 1 - i,
{
    if 0 <= i < s.len() {
        lemma_line_end_bounds(s, i);
        lemma_decided_stays(s, line_end(s, i) + 1, prompt);
    }
}

/// An empty line changes nothing.
proof fn lemma_empty_line_step(st: AuthScan)
    ensures
        auth_step(st, Seq::empty()) == st,
{
    let e = Seq::<char>::empty();
    assert(trim_start_of(e) =~= e);
    assert(trim_of(e) =~= e);
}

/// Scanning `c` and scanning `c` with a final newline find the same.
proof fn lemma_scan_trailing_newline(c: Seq<char>, i: int, st: AuthScan)
    requires
        0 <= i <= c.len(),
    ensures
        auth_scan_from(c.push('\n'), i, st) == auth_scan_from(c, i, st),
    decreases c.len() - i,
{
    let c2 = c.push('\n');
    if i == c.len() {
        lemma_line_end_at(c2, i, i);
        assert(c2.subrange(i, i) =~= Seq::<char>::empty());
        lemma_empty_line_step(st);
        assert(auth_scan_from(c2, i + 1, st) == st);
    } else {
        lemma_line_end_bounds(c, i);
        let e = line_end(c, i);
        assert forall|k: int| i <= k < e implies c2[k] != '\n' by {
            assert(c2[k] == c[k]);
        }
        lemma_line_end_at(c2, i, e);
        assert(c2.subrange(i, e) =~= c.subrange(i, e));
        let next = auth_step(st, c.subrange(i, e));
        if e < c.len() {
            lemma_scan_trailing_newline(c, e + 1, next);
        } else {
            assert(auth_scan_from(c, e + 1, next) == next);
            assert(auth_scan_from(c2, e + 1, next) == next);
        }
    }
}

/// Every line is scanned, the last one too: whether the file ends in a
/// newline does not change whether OpenVPN prompts.
pub proof fn lemma_prompt_ignores_final_newline(content: Seq<char>)
    ensures
        prompts_for_user_pass(content.push('\n')) == prompts_for_user_pass(content),
{
    lemma_scan_trailing_newline(content, 0, AuthScan::Scanning { in_inline_block: false });
}

fn scan_line(in_inline_block: bool, line: &[char]) -> (r: AuthScan)
    ensures
        r == auth_step((AuthScan::Scanning { in_inline_block }), line@),
{
    let st = AuthScan::Scanning { in_inline_block };
    if is_comment(line) {
        return st;
    }
    let t = trim(line);
    let n = t.len();
    let closing = n >= 2 && t[0] == '<' && t[1] == '/';
    if in_inline_block {
        if closing {
            AuthScan::Scanning { in_inline_block: false }
        } else {
            st
        }
    } else if n >= 1 && t[0] == '<' && !closing {
        let mut has_slash = false;
        let mut k: usize = 0;
        while k < n
            invariant
                n == t@.len(),
                k <= n,
                has_slash <==> exists|j: int| 0 <= j < k && t@[j] == '/',
            decreases n - k,
        {
            if t[k] == '/' {
                has_slash = true;
            }
            k = k + 1;
        }
        assert(has_slash == t@.contains('/'));
        if t[n - 1] != '>' || !has_slash {
            AuthScan::Scanning { in_inline_block: true }
        } else {
            st
        }
    } else {
        let directive = chars_of("auth-user-pass");
        match first_token(&t) {
            Some((a, b)) => {
                if range_equals(&t, a, b, &directive) {
                    let prompt = match second_token(&t) {
                        Some((c, d)) => {
                            assert(c < d) by {
                                crate::text::lemma_skip_ws_bounds(t@, 0);
                                crate::text::lemma_skip_token_bounds(
                                    t@,
                                    crate::text::skip_ws(t@, 0),
                                );
                                let b0 = crate::text::skip_token(
                                    t@,
                                    crate::text::skip_ws(t@, 0),
                                );
                                crate::text::lemma_skip_ws_bounds(t@, b0);
                                crate::text::lemma_skip_token_bounds(
                                    t@,
                                    crate::text::skip_ws(t@, b0),
                                );
                            }
                            assert(t@.subrange(c as int, d as int)[0] == t@[c as int]);
                            t[c] == '#' || t[c] == ';'
                        },
                        None => true,
                    };
                    AuthScan::Decided { prompt }
                } else {
                    st
                }
            },
            None => st,
        }
    }
}

/// Whether the configuration contains an `auth-user-pass` directive (outside
/// comments and inline blocks) that makes OpenVPN prompt for credentials,
/// i.e. one without a credential file argument.
pub fn requires_auth_user_pass_prompt(content: &str) -> (r: bool)
    ensures
        r == prompts_for_user_pass(content@),
{
    let chars = chars_of(content);
    let n = chars.len();
    let mut in_inline_block = false;
    let mut i: usize = 0;
    while i < n
        invariant
            i <= n,
            n == chars@.len(),
            chars@ == content@,
            auth_scan_from(chars@, 0, (AuthScan::Scanning { in_inline_block: false }))
                == auth_scan_from(chars@, i as int, (AuthScan::Scanning { in_inline_block })),
        decreases n - i,
    {
        let e = find_line_end(&chars, i);
        proof {
            lemma_line_end_bounds(chars@, i as int);
        }
        let line = copy_range(&chars, i, e);
        let ghost before = AuthScan::Scanning { in_inline_block };
        let next = scan_line(in_inline_block, &line);
        assert(auth_scan_from(chars@, i as int, before) == auth_scan_from(chars@, e + 1, next));
        match next {
            AuthScan::Decided { prompt } => {
                proof {
                    lemma_decided_stays(chars@, e + 1, prompt);
                }
                return prompt;
            },
            AuthScan::Scanning { in_inline_block: b } => {
                in_inline_block = b;
            },
        }
        if e < n {
            i = e + 1;
        } else {
            assert(auth_scan_from(chars@, e + 1, next) == next);
            assert(auth_scan_from(chars@, n as int, next) == next);
            i = n;
        }
    }
    false
}

} // verus!
