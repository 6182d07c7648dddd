//! The text form in which credentials are kept in the Secret Service:
//! `username`, `password`, `private key password` and `legacy auth`
//! (`true`/`false`), one per line.

use vstd::prelude::*;
use vstd::string::StringExecFns;
use vstd::utf8::{decode_utf8, encode_utf8, valid_utf8};

use super::{credentials_view, CredentialsView, VpnCredentials};
use crate::text::{
    chars_of, find_line_end, lemma_line_end_at, lemma_line_end_bounds, line_end, range_equals,
    string_from_range,
};

verus! {

broadcast use vstd::string::group_string_axioms;

/// The end of `s[..j]` once its trailing `'\n'`s are removed.
pub open spec fn strip_newlines_back(s: Seq<char>, j: int) -> int
    decreases j,
{
    if 0 < j <= s.len() && s[j - 1] == '\n' {
        strip_newlines_back(s, j - 1)
    } else {
        j
    }
}

/// `str::trim_end_matches('\n')`.
pub open spec fn trim_trailing_newlines(s: Seq<char>) -> Seq<char> {
    s.take(strip_newlines_back(s, s.len() as int))
}

/// The credentials that a stored secret text describes, if it describes
/// any: the text, without trailing newlines, is split at its first three
/// newlines into user name, password, private key password and legacy flag.
/// A user name without a password (or the reverse) describes nothing, and so
/// does an empty user name unless the legacy flag is present.
pub open spec fn secret_credentials(text: Seq<char>) -> Option<CredentialsView> {
    let t = trim_trailing_newlines(text);
    let e0 = line_end(t, 0);
    let username = t.subrange(0, e0);
    if e0 >= t.len() {
        None
    } else {
        let e1 = line_end(t, e0 + 1);
        let password = t.subrange(e0 + 1, e1);
        let e2 = line_end(t, e1 + 1);
        let private_key_password = if e1 >= t.len() {
            Seq::empty()
        } else {
            t.subrange(e1 + 1, e2)
        };
        let has_legacy = e1 < t.len() && e2 < t.len();
        let legacy = t.subrange(e2 + 1, t.len() as int);
        if (username.len() == 0) != (password.len() == 0) || (username.len() == 0 && !has_legacy) {
            None
        } else {
            Some(
                CredentialsView {
                    username,
                    password,
                    private_key_password,
                    legacy_auth: has_legacy && legacy == "true"@,
                },
            )
        }
    }
}

/// The text under which credentials are stored.
pub open spec fn secret_text(c: CredentialsView) -> Seq<char> {
    c.username + "\n"@ + c.password + "\n"@ + c.private_key_password + "\n"@ + (if c.legacy_auth {
        "true"@
    } else {
        "false"@
    })
}

/// Reading back what was stored gives the stored credentials, provided no
/// field holds a newline and the user name and password are both given or
/// both empty.
pub proof fn lemma_secret_round_trip(c: CredentialsView)
    requires
        !c.username.contains('\n'),
        !c.password.contains('\n'),
        !c.private_key_password.contains('\n'),
        (c.username.len() == 0) == (c.password.len() == 0),
    ensures
        valid_utf8(encode_utf8(secret_text(c))),
        secret_credentials(decode_utf8(encode_utf8(secret_text(c)))) == Some(c),
{
    broadcast use vstd::utf8::encode_utf8_valid_utf8, vstd::utf8::encode_utf8_decode_utf8;

    reveal_strlit("\n");
    reveal_strlit("true");
    reveal_strlit("false");
    let t = secret_text(c);
    assert(decode_utf8(encode_utf8(t)) == t);
    let u = c.username;
    let p = c.password;
    let k = c.private_key_password;
    let flag: Seq<char> = if c.legacy_auth {
        "true"@
    } else {
        "false"@
    };
    let nl: Seq<char> = "\n"@;
    assert(t =~= u + nl + p + nl + k + nl + flag);
    let e0 = u.len() as int;
    let e1 = e0 + 1 + p.len();
    let e2 = e1 + 1 + k.len();
    assert(t.len() == e2 + 1 + flag.len());
    assert(t[t.len() - 1] == 'e');
    assert(trim_trailing_newlines(t) =~= t);
    assert forall|i: int| 0 <= i < e0 implies t[i] != '\n' by {
        assert(t[i] == u[i]);
    }
    assert(t[e0] == '\n');
    lemma_line_end_at(t, 0, e0);
    assert forall|i: int| e0 + 1 <= i < e1 implies t[i] != '\n' by {
        assert(t[i] == p[i - e0 - 1]);
    }
    assert(t[e1] == '\n');
    lemma_line_end_at(t, e0 + 1, e1);
    assert forall|i: int| e1 + 1 <= i < e2 implies t[i] != '\n' by {
        assert(t[i] == k[i - e1 - 1]);
    }
    assert(t[e2] == '\n');
    lemma_line_end_at(t, e1 + 1, e2);
    assert(t.subrange(0, e0) =~= u);
    assert(t.subrange(e0 + 1, e1) =~= p);
    assert(t.subrange(e1 + 1, e2) =~= k);
    assert(t.subrange(e2 + 1, t.len() as int) =~= flag);
    assert(("false"@ == "true"@) == false) by {
        assert("false"@.len() != "true"@.len());
    }
}

/// `String::from_utf8`, with the error rendered by its `Display`. The claim:
/// it succeeds exactly when the bytes are valid UTF-8, and then holds the
/// characters they encode. The error text is not described.
#[verifier::external_body]
fn decode_utf8_text(bytes: &[u8]) -> (r: Result<String, String>)
    ensures
        r is Ok <==> valid_utf8(bytes@),
        r matches Ok(s) ==> s@ == decode_utf8(bytes@),
{
    String::from_utf8(bytes.to_vec()).map_err(|e| e.to_string())
}

/// Parses stored credentials. Bytes that are not UTF-8 are an error; text
/// that describes no credentials gives `Ok(None)`.
pub fn parse_secret(value: &[u8]) -> (res: Result<Option<VpnCredentials>, String>)
    ensures
        res is Ok <==> valid_utf8(value@),
        res matches Ok(c) ==> credentials_view(c) == secret_credentials(decode_utf8(value@)),
        res matches Err(m) ==> "stored VPN credentials are not valid UTF-8: "@.is_prefix_of(m@),
{
    let secret = match decode_utf8_text(value) {
        Ok(s) => s,
        Err(e) => {
            let mut m = String::new();
            m.append("stored VPN credentials are not valid UTF-8: ");
            let ghost prefix = m@;
            m.append(e.as_str());
            assert(prefix.is_prefix_of(m@)) by {
                assert(m@.subrange(0, prefix.len() as int) =~= prefix);
            }
            return Err(m);
        },
    };
    Ok(parse_secret_text(secret.as_str()))
}

/// The credentials that a stored secret text describes, if any.
pub fn parse_secret_text(secret: &str) -> (res: Option<VpnCredentials>)
    ensures
        credentials_view(res) == secret_credentials(secret@),
{
    let all = chars_of(secret);
    let mut len = all.len();
    while len > 0 && all[len - 1] == '\n'
        invariant
            len <= all@.len(),
            strip_newlines_back(all@, all@.len() as int) == strip_newlines_back(all@, len as int),
        decreases len,
    {
        len = len - 1;
    }
    let t = crate::text::copy_range(&all, 0, len);
    assert(t@ == trim_trailing_newlines(secret@));
    let e0 = find_line_end(&t, 0);
    proof {
        lemma_line_end_bounds(t@, 0);
    }
    if e0 >= t.len() {
        return None;
    }
    let e1 = find_line_end(&t, e0 + 1);
    proof {
        lemma_line_end_bounds(t@, e0 + 1);
    }
    let username = string_from_range(&t, 0, e0);
    let password = string_from_range(&t, e0 + 1, e1);
    let mut private_key_password = String::new();
    let mut legacy_auth = false;
    let mut has_legacy = false;
    if e1 < t.len() {
        let e2 = find_line_end(&t, e1 + 1);
        proof {
            lemma_line_end_bounds(t@, e1 + 1);
        }
        private_key_password = string_from_range(&t, e1 + 1, e2);
        if e2 < t.len() {
            has_legacy = true;
            let truth = chars_of("true");
            legacy_auth = range_equals(&t, e2 + 1, t.len(), &truth);
        }
    }
    let no_username = username.as_str().is_empty();
    let no_password = password.as_str().is_empty();
    if no_username != no_password || (no_username && !has_legacy) {
        return None;
    }
    Some(VpnCredentials { username, password, private_key_password, legacy_auth })
}

/// The text under which `credentials` are stored.
pub fn secret_payload(credentials: &VpnCredentials) -> (r: String)
    ensures
        r@ == secret_text(credentials@),
{
    let mut r = String::new();
    r.append(credentials.username.as_str());
    r.append("\n");
    r.append(credentials.password.as_str());
    r.append("\n");
    r.append(credentials.private_key_password.as_str());
    r.append("\n");
    if credentials.legacy_auth {
        r.append("true");
    } else {
        r.append("false");
    }
    assert(r@ =~= secret_text(credentials@));
    r
}

} // verus!
