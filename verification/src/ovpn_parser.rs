//! Minimal parser/patcher for `.ovpn` configuration files.
//!
//! It only performs one job: make sure the OpenSSL 3.x legacy provider
//! directives (`providers legacy default` and `tls-cert-profile legacy`) are
//! present, without touching anything else in the file, including inline
//! `<tag>...</tag>` blocks (certificates, keys, tls-auth material) and
//! comments (`#` / `;`).

use vstd::prelude::*;
use vstd::string::StringExecFns;

use crate::text::{
    chars_of, comment_line, copy_range, ends_with_char, find_line_end, first_token, first_token_of,
    is_comment, is_ws, lemma_line_end_at, lemma_line_end_bounds, lemma_skip_token_at,
    lemma_skip_token_bounds, lemma_skip_ws_back_bounds, lemma_skip_ws_bounds, line_end,
    range_equals, skip_token, skip_ws, skip_ws_back, starts_with_char, starts_with_closing_tag,
    trim, trim_of, trim_start_of,
};

verus! {

broadcast use vstd::string::group_string_axioms;

/// What the scan over the configuration has seen so far.
#[derive(Clone, Copy)]
pub struct PatchScan {
    pub has_providers: bool,
    pub has_tls_cert_profile: bool,
    pub in_inline_block: bool,
}

pub open spec fn patch_scan_start() -> PatchScan {
    PatchScan { has_providers: false, has_tls_cert_profile: false, in_inline_block: false }
}

/// The directive line injected when `providers` is missing.
pub open spec fn providers_directive() -> Seq<char> {
    "providers legacy default\n"@
}

/// The directive line injected when `tls-cert-profile` is missing.
pub open spec fn tls_cert_profile_directive() -> Seq<char> {
    "tls-cert-profile legacy\n"@
}

/// How one line of the file changes the scan.
pub open spec fn patch_step(st: PatchScan, line: Seq<char>) -> PatchScan {
    if comment_line(line) {
        st
    } else {
        let t = trim_of(line);
        if st.in_inline_block {
            if starts_with_closing_tag(t) {
                PatchScan { in_inline_block: false, ..st }
            } else {
                st
            }
        } else if starts_with_char(t, '<') && !starts_with_closing_tag(t) {
            if !ends_with_char(t, '>') || t == seq!['<'] {
                PatchScan { in_inline_block: true, ..st }
            } else if !t.contains('/') {
                PatchScan { in_inline_block: true, ..st }
            } else {
                st
            }
        } else if first_token_of(t) == Some("providers"@) {
            PatchScan { has_providers: true, ..st }
        } else if first_token_of(t) == Some("tls-cert-profile"@) {
            PatchScan { has_tls_cert_profile: true, ..st }
        } else {
            st
        }
    }
}

/// The scan over the lines of `s` that start at or after index `i`.
pub open spec fn patch_scan_from(s: Seq<char>, i: int, st: PatchScan) -> PatchScan
    decreases s.len() + 1 - i,
    via patch_scan_from_decreases
{
    if 0 <= i < s.len() {
        let e = line_end(s, i);
        patch_scan_from(s, e + 1, patch_step(st, s.subrange(i, e)))
    } else {
        st
    }
}

#[via_fn]
proof fn patch_scan_from_decreases(s: Seq<char>, i: int, st: PatchScan) {
    if 0 <= i < s.len() {
        lemma_line_end_bounds(s, i);
    }
}

/// The whole file after patching: the missing directives, in this order,
/// followed by the unchanged content.
pub open spec fn patched_config(content: Seq<char>) -> Seq<char> {
    let st = patch_scan_from(content, 0, patch_scan_start());
    (if st.has_providers {
        Seq::empty()
    } else {
        providers_directive()
    }) + (if st.has_tls_cert_profile {
        Seq::empty()
    } else {
        tls_cert_profile_directive()
    }) + content
}

/// `line_end` is determined by the characters from `i` on.
proof fn lemma_line_end_shift(a: Seq<char>, c: Seq<char>, j: int)
    requires
        0 <= j <= c.len(),
    ensures
        line_end(a + c, a.len() + j) == a.len() + line_end(c, j),
    decreases c.len() - j,
{
    if j < c.len() {
        assert((a + c)[a.len() + j] == c[j]);
        if c[j] != '\n' {
            lemma_line_end_shift(a, c, j + 1);
        }
    }
}

/// Scanning the lines of `a + c` that start inside `c` is scanning `c`.
proof fn lemma_scan_shift(a: Seq<char>, c: Seq<char>, j: int, st: PatchScan)
    requires
        0 <= j <= c.len() + 1,
    ensures
        patch_scan_from(a + c, a.len() + j, st) == patch_scan_from(c, j, st),
    decreases c.len() + 1 - j,
{
    if j < c.len() {
        lemma_line_end_shift(a, c, j);
        lemma_line_end_bounds(c, j);
        let e = line_end(c, j);
        assert((a + c).subrange(a.len() + j, a.len() + e) =~= c.subrange(j, e));
        let next = patch_step(st, c.subrange(j, e));
        lemma_scan_shift(a, c, e + 1, next);
    }
}

/// The flags of a scan are the starting flags or-ed with what the lines set;
/// the inline-block state does not depend on the starting flags.
proof fn lemma_scan_flags(s: Seq<char>, i: int, st: PatchScan)
    ensures
        ({
            let base = PatchScan {
                has_providers: false,
                has_tls_cert_profile: false,
                in_inline_block: st.in_inline_block,
            };
            let r = patch_scan_from(s, i, st);
            let b = patch_scan_from(s, i, base);
            &&& r.has_providers == (st.has_providers || b.has_providers)
            &&& r.has_tls_cert_profile == (st.has_tls_cert_profile || b.has_tls_cert_profile)
            &&& r.in_inline_block == b.in_inline_block
        }),
    decreases s.len() + 1 - i,
{
    if 0 <= i < s.len() {
        lemma_line_end_bounds(s, i);
        let e = line_end(s, i);
        let line = s.subrange(i, e);
        let base = PatchScan {
            has_providers: false,
            has_tls_cert_profile: false,
            in_inline_block: st.in_inline_block,
        };
        let n1 = patch_step(st, line);
        let n2 = patch_step(base, line);
        lemma_scan_flags(s, e + 1, n1);
        lemma_scan_flags(s, e + 1, n2);
    }
}

/// A leading `providers legacy default` line sets the providers flag.
proof fn lemma_providers_line(rest: Seq<char>, st: PatchScan)
    requires
        !st.in_inline_block,
    ensures
        patch_scan_from(providers_directive() + rest, 0, st) == patch_scan_from(
            rest,
            0,
            PatchScan { has_providers: true, ..st },
        ),
{
    reveal_strlit("providers legacy default\n");
    reveal_strlit("providers");
    let d = providers_directive();
    let s = d + rest;
    assert(d.len() == 25);
    assert forall|k: int| 0 <= k < 24 implies s[k] != '\n' by {
        assert(s[k] == d[k]);
    }
    assert(s[24] == d[24]);
    lemma_line_end_at(s, 0, 24);
    let line = s.subrange(0, 24);
    assert(line =~= d.subrange(0, 24));
    assert(skip_ws(line, 0) == 0);
    assert(trim_start_of(line) =~= line);
    assert(skip_ws_back(line, 24) == 24);
    assert(trim_of(line) =~= line);
    assert forall|k: int| 0 <= k < 9 implies !is_ws(#[trigger] line[k]) by {
        assert(line[k] == d[k]);
    }
    lemma_skip_token_at(line, 0, 9);
    assert(first_token_of(line) == Some(line.subrange(0, 9)));
    assert(line.subrange(0, 9) =~= "providers"@);
    assert(!comment_line(line));
    assert(patch_step(st, line) == PatchScan { has_providers: true, ..st });
    lemma_scan_shift(d, rest, 0, PatchScan { has_providers: true, ..st });
    assert(d.len() + 0 == 25);
}

/// A leading `tls-cert-profile legacy` line sets the tls-cert-profile flag.
proof fn lemma_tls_cert_profile_line(rest: Seq<char>, st: PatchScan)
    requires
        !st.in_inline_block,
    ensures
        patch_scan_from(tls_cert_profile_directive() + rest, 0, st) == patch_scan_from(
            rest,
            0,
            PatchScan { has_tls_cert_profile: true, ..st },
        ),
{
    reveal_strlit("tls-cert-profile legacy\n");
    reveal_strlit("tls-cert-profile");
    reveal_strlit("providers");
    let d = tls_cert_profile_directive();
    let s = d + rest;
    assert(d.len() == 24);
    assert forall|k: int| 0 <= k < 23 implies s[k] != '\n' by {
        assert(s[k] == d[k]);
    }
    assert(s[23] == d[23]);
    lemma_line_end_at(s, 0, 23);
    let line = s.subrange(0, 23);
    assert(line =~= d.subrange(0, 23));
    assert(skip_ws(line, 0) == 0);
    assert(trim_start_of(line) =~= line);
    assert(skip_ws_back(line, 23) == 23);
    assert(trim_of(line) =~= line);
    assert forall|k: int| 0 <= k < 16 implies !is_ws(#[trigger] line[k]) by {
        assert(line[k] == d[k]);
    }
    lemma_skip_token_at(line, 0, 16);
    assert(first_token_of(line) == Some(line.subrange(0, 16)));
    assert(line.subrange(0, 16) =~= "tls-cert-profile"@);
    assert(line.subrange(0, 16) != "providers"@) by {
        assert(line.subrange(0, 16).len() != "providers"@.len());
    }
    assert(!comment_line(line));
    assert(patch_step(st, line) == PatchScan { has_tls_cert_profile: true, ..st });
    lemma_scan_shift(d, rest, 0, PatchScan { has_tls_cert_profile: true, ..st });
    assert(d.len() + 0 == 24);
}

/// After patching, the scan of the result finds both directives: the job of
/// the patcher is done whatever the input was.
pub proof fn lemma_patch_establishes_directives(content: Seq<char>)
    ensures
        patch_scan_from(patched_config(content), 0, patch_scan_start()).has_providers,
        patch_scan_from(patched_config(content), 0, patch_scan_start()).has_tls_cert_profile,
{
    let start = patch_scan_start();
    let st = patch_scan_from(content, 0, start);
    let with_p = PatchScan { has_providers: true, ..start };
    let with_t = PatchScan { has_tls_cert_profile: true, ..start };
    let with_both = PatchScan { has_providers: true, has_tls_cert_profile: true, ..start };
    lemma_scan_flags(content, 0, with_p);
    lemma_scan_flags(content, 0, with_t);
    lemma_scan_flags(content, 0, with_both);
    let p = providers_directive();
    let t = tls_cert_profile_directive();
    if st.has_providers && st.has_tls_cert_profile {
        assert(patched_config(content) =~= content);
    } else if st.has_providers {
        assert(patched_config(content) =~= t + content);
        lemma_tls_cert_profile_line(content, start);
    } else if st.has_tls_cert_profile {
        assert(patched_config(content) =~= p + content);
        lemma_providers_line(content, start);
    } else {
        assert(patched_config(content) =~= p + (t + content));
        lemma_providers_line(t + content, start);
        lemma_tls_cert_profile_line(content, with_p);
        assert(PatchScan { has_tls_cert_profile: true, ..with_p } == with_both);
    }
}

/// Patching is idempotent: patching an already patched file changes
/// nothing.
pub proof fn lemma_patch_idempotent(content: Seq<char>)
    ensures
        patched_config(patched_config(content)) == patched_config(content),
{
    lemma_patch_establishes_directives(content);
    let once = patched_config(content);
    assert(patched_config(once) =~= once);
}

/// An empty line changes nothing.
proof fn lemma_empty_line_step(st: PatchScan)
    ensures
        patch_step(st, Seq::empty()) == st,
{
    let e = Seq::<char>::empty();
    assert(trim_start_of(e) =~= e);
    assert(trim_of(e) =~= e);
}

/// Scanning `c` and scanning `c` with a final newline find the same.
proof fn lemma_scan_trailing_newline(c: Seq<char>, i: int, st: PatchScan)
    requires
        0 <= i <= c.len(),
    ensures
        patch_scan_from(c.push('\n'), i, st) == patch_scan_from(c, i, st),
    decreases c.len() - i,
{
    let c2 = c.push('\n');
    if i == c.len() {
        lemma_line_end_at(c2, i, i);
        assert(c2.subrange(i, i) =~= Seq::<char>::empty());
        lemma_empty_line_step(st);
        assert(patch_scan_from(c2, i + 1, st) == st);
    } else {
        lemma_line_end_bounds(c, i);
        let e = line_end(c, i);
        assert forall|k: int| i <= k < e implies c2[k] != '\n' by {
            assert(c2[k] == c[k]);
        }
        lemma_line_end_at(c2, i, e);
        assert(c2.subrange(i, e) =~= c.subrange(i, e));
        let next = patch_step(st, c.subrange(i, e));
        if e < c.len() {
            lemma_scan_trailing_newline(c, e + 1, next);
        } else {
            assert(patch_scan_from(c, e + 1, next) == next);
            assert(patch_scan_from(c2, e + 1, next) == next);
        }
    }
}

/// Whether the last line ends in a newline does not matter: patching `c`
/// with a final newline gives the patch of `c` followed by that newline.
pub proof fn lemma_patch_ignores_final_newline(content: Seq<char>)
    ensures
        patched_config(content.push('\n')) == patched_config(content).push('\n'),
{
    lemma_scan_trailing_newline(content, 0, patch_scan_start());
    let st = patch_scan_from(content, 0, patch_scan_start());
    let p: Seq<char> = if st.has_providers {
        Seq::empty()
    } else {
        providers_directive()
    };
    let t: Seq<char> = if st.has_tls_cert_profile {
        Seq::empty()
    } else {
        tls_cert_profile_directive()
    };
    assert(p + t + content.push('\n') =~= (p + t + content).push('\n'));
}

/// `line_end` inside a prefix that ends in a newline.
proof fn lemma_line_end_prefix(a: Seq<char>, rest: Seq<char>, i: int)
    requires
        0 <= i < a.len(),
        a[a.len() - 1] == '\n',
    ensures
        line_end(a + rest, i) == line_end(a, i),
        line_end(a, i) < a.len(),
{
    lemma_line_end_bounds(a, i);
    let e = line_end(a, i);
    if e == a.len() {
        assert(a[a.len() - 1] != '\n');
    }
    assert forall|k: int| i <= k < e implies (a + rest)[k] != '\n' by {
        assert((a + rest)[k] == a[k]);
    }
    assert((a + rest)[e] == a[e]);
    lemma_line_end_at(a + rest, i, e);
}

/// Scanning `a + rest`, where `a` consists of whole lines, is scanning `a`
/// and then `rest`.
proof fn lemma_scan_split(a: Seq<char>, rest: Seq<char>, i: int, st: PatchScan)
    requires
        0 <= i <= a.len(),
        a.len() == 0 || a[a.len() - 1] == '\n',
    ensures
        patch_scan_from(a + rest, i, st) == patch_scan_from(rest, 0, patch_scan_from(a, i, st)),
    decreases a.len() - i,
{
    if i == a.len() {
        lemma_scan_shift(a, rest, 0, st);
    } else {
        lemma_line_end_prefix(a, rest, i);
        lemma_line_end_bounds(a, i);
        let e = line_end(a, i);
        assert(i <= e < a.len());
        assert((a + rest).subrange(i, e) =~= a.subrange(i, e));
        lemma_scan_split(a, rest, e + 1, patch_step(st, a.subrange(i, e)));
    }
}

/// A line that starts with a closing tag `</...>` is outside any inline
/// block afterwards and sets no directive flag.
proof fn lemma_closing_line_step(st: PatchScan, line: Seq<char>)
    requires
        starts_with_closing_tag(trim_of(line)),
    ensures
        patch_step(st, line) == (PatchScan { in_inline_block: false, ..st }),
{
    reveal_strlit("providers");
    reveal_strlit("tls-cert-profile");
    let ts = trim_start_of(line);
    let t = trim_of(line);
    lemma_skip_ws_bounds(line, 0);
    lemma_skip_ws_back_bounds(ts, ts.len() as int);
    assert(t =~= ts.take(skip_ws_back(ts, ts.len() as int)));
    assert(t[0] == ts[0]);
    assert(!comment_line(line));
    assert(!is_ws(t[0]));
    assert(skip_ws(t, 0) == 0);
    lemma_skip_token_bounds(t, 0);
    if !st.in_inline_block {
        match first_token_of(t) {
            Some(tok) => {
                assert(tok[0] == '<');
                assert(tok != "providers"@) by {
                    assert("providers"@[0] == 'p');
                }
                assert(tok != "tls-cert-profile"@) by {
                    assert("tls-cert-profile"@[0] == 't');
                }
            },
            None => {},
        }
    }
}

/// An inline block ends at a line that starts with `</`: directives after
/// the closing line count, whatever came before it. When the lines after it
/// hold both directives, patching leaves the file unchanged.
pub proof fn lemma_directives_after_closed_block_count(
    before: Seq<char>,
    closing_line: Seq<char>,
    after: Seq<char>,
)
    requires
        before.len() == 0 || before[before.len() - 1] == '\n',
        !closing_line.contains('\n'),
        starts_with_closing_tag(trim_of(closing_line)),
    ensures
        ({
            let whole = before + closing_line.push('\n') + after;
            let found_after = patch_scan_from(after, 0, patch_scan_start());
            let found = patch_scan_from(whole, 0, patch_scan_start());
            &&& found_after.has_providers ==> found.has_providers
            &&& found_after.has_tls_cert_profile ==> found.has_tls_cert_profile
            &&& found_after.has_providers && found_after.has_tls_cert_profile ==> patched_config(
                whole,
            ) == whole
        }),
{
    let l = closing_line.push('\n');
    let whole = before + l + after;
    let start = patch_scan_start();
    let s1 = patch_scan_from(before, 0, start);
    lemma_scan_split(before, l + after, 0, start);
    assert(whole =~= before + (l + after));
    assert forall|k: int| 0 <= k < closing_line.len() implies l[k] != '\n' by {
        assert(l[k] == closing_line[k]);
        if l[k] == '\n' {
            assert(closing_line.contains('\n'));
        }
    }
    lemma_line_end_at(l, 0, closing_line.len() as int);
    assert(l.subrange(0, closing_line.len() as int) =~= closing_line);
    lemma_closing_line_step(s1, closing_line);
    let s2 = PatchScan { in_inline_block: false, ..s1 };
    assert(patch_scan_from(l, closing_line.len() + 1int, s2) == s2);
    assert(patch_scan_from(l, 0, s1) == s2);
    lemma_scan_split(l, after, 0, s1);
    lemma_scan_flags(after, 0, s2);
    let found = patch_scan_from(whole, 0, start);
    let found_after = patch_scan_from(after, 0, start);
    if found_after.has_providers && found_after.has_tls_cert_profile {
        assert(patched_config(whole) =~= whole);
    }
}

fn scan_line(st: PatchScan, line: &[char]) -> (r: PatchScan)
    ensures
        r == patch_step(st, line@),
{
    if is_comment(line) {
        return st;
    }
    let t = trim(line);
    let n = t.len();
    let closing = n >= 2 && t[0] == '<' && t[1] == '/';
    if st.in_inline_block {
        if closing {
            PatchScan { in_inline_block: false, ..st }
        } else {
            st
        }
    } else if n >= 1 && t[0] == '<' && !closing {
        let mut has_slash = false;
        let mut k: usize = 0;
        while k < n
            invariant
                n == t@.len(),
                k <= n,
                has_slash <==> exists|j: int| 0 <= j < k && t@[j] == '/',
            decreases n - k,
        {
            if t[k] == '/' {
                has_slash = true;
            }
            k = k + 1;
        }
        assert(has_slash == t@.contains('/'));
        if t[n - 1] != '>' || n == 1 {
            assert(n == 1 ==> t@ == seq!['<']);
            PatchScan { in_inline_block: true, ..st }
        } else if !has_slash {
            assert(t@ != seq!['<']);
            PatchScan { in_inline_block: true, ..st }
        } else {
            assert(t@ != seq!['<']);
            st
        }
    } else {
        let providers = chars_of("providers");
        let tls = chars_of("tls-cert-profile");
        match first_token(&t) {
            Some((a, b)) => {
                if range_equals(&t, a, b, &providers) {
                    PatchScan { has_providers: true, ..st }
                } else if range_equals(&t, a, b, &tls) {
                    PatchScan { has_tls_cert_profile: true, ..st }
                } else {
                    st
                }
            },
            None => st,
        }
    }
}

/// Patches the content of an `.ovpn` file so that the OpenSSL 3.x legacy
/// provider is enabled, unless it is already configured.
///
/// Inline blocks delimited by `<tag>` / `</tag>` are copied through
/// verbatim (including their contents), so PEM data is never inspected
/// or mangled.
pub fn patch_legacy_provider(content: &str) -> (patched: String)
    ensures
        patched@ == patched_config(content@),
{
    let chars = chars_of(content);
    let n = chars.len();
    let mut st = PatchScan { has_providers: false, has_tls_cert_profile: false, in_inline_block: false };
    let mut i: usize = 0;
    while i < n
        invariant
            i <= n,
            n == chars@.len(),
            patch_scan_from(chars@, 0, patch_scan_start()) == patch_scan_from(chars@, i as int, st),
        decreases n - i,
    {
        let e = find_line_end(&chars, i);
        proof {
            lemma_line_end_bounds(chars@, i as int);
        }
        let line = copy_range(&chars, i, e);
        let ghost before = st;
        st = scan_line(st, &line);
        assert(patch_scan_from(chars@, i as int, before) == patch_scan_from(chars@, e + 1, st));
        if e < n {
            i = e + 1;
        } else {
            assert(patch_scan_from(chars@, e + 1, st) == st);
            assert(patch_scan_from(chars@, n as int, st) == st);
            i = n;
        }
    }
    if st.has_providers && st.has_tls_cert_profile {
        let same = content.to_owned();
        assert(patched_config(content@) =~= content@);
        return same;
    }
    let mut injected = String::new();
    if !st.has_providers {
        injected.append("providers legacy default\n");
    }
    if !st.has_tls_cert_profile {
        injected.append("tls-cert-profile legacy\n");
    }
    injected.append(content);
    proof {
        let s = patch_scan_from(content@, 0, patch_scan_start());
        assert(injected@ =~= patched_config(content@));
    }
    injected
}

} // verus!
