//! Staging of `.ovpn` files: the names and decisions that go with copying a
//! configuration and its companion files into a local staging directory.

pub mod parser;

use sha2::Digest;
use vstd::prelude::*;
use vstd::string::StringExecFns;
use vstd::utf8::{
    encode_scalar, encode_utf8, has_width_1_encoding, has_width_2_encoding, has_width_3_encoding,
    has_width_4_encoding, is_scalar, last_continuation_byte, leading_byte_width_1,
    leading_byte_width_2, leading_byte_width_3, leading_byte_width_4,
    second_last_continuation_byte, third_last_continuation_byte, decode_utf8,
};

use crate::text::{ascii_lower, chars_of, eq_ignore_ascii_case, push_char, to_ascii_lowercase};

verus! {

broadcast use vstd::string::group_string_axioms;

/// A configuration staged for OpenVPN.
pub struct StagedConfig {
    /// The staging directory, `/tmp/nm-ovpn-<session id>`.
    pub dir: String,
    /// Full path to the staged `.ovpn` file inside `dir`.
    pub config_path: String,
    /// Whether the config contains `auth-user-pass` without a credential file.
    pub requires_credentials: bool,
    /// Stable ID derived from the selected configuration URI and contents.
    pub session_id: String,
    /// Human-readable name used for the terminal.
    pub display_name: String,
}

/// The SHA-256 digest of `data`.
pub uninterp spec fn sha256(data: Seq<u8>) -> Seq<u8>;

/// `sha2::Sha256::digest`: the claim is that the result is the SHA-256
/// digest of `data`, 32 bytes long.
#[verifier::external_body]
fn sha256_digest(data: &[u8]) -> (r: Vec<u8>)
    ensures
        r@ == sha256(data@),
        r@.len() == 32,
{
    sha2::Sha256::digest(data).to_vec()
}

/// The lowercase hexadecimal digit for `d` (below 16).
pub open spec fn hex_digit(d: int) -> char {
    if d < 10 {
        (48 + d) as char
    } else {
        (87 + d) as char
    }
}

/// Two lowercase hexadecimal digits per byte, most significant first.
pub open spec fn hex_lower(bytes: Seq<u8>) -> Seq<char>
    decreases bytes.len(),
{
    if bytes.len() == 0 {
        Seq::empty()
    } else {
        hex_lower(bytes.drop_last()) + seq![
            hex_digit((bytes.last() / 16) as int),
            hex_digit((bytes.last() % 16) as int),
        ]
    }
}

/// A lowercase hexadecimal digit.
pub open spec fn is_hex_digit(c: char) -> bool {
    ('0' <= c <= '9') || ('a' <= c <= 'f')
}

/// The session ID of a configuration: the SHA-256 digest of its URI, a zero
/// byte and its content (all UTF-8), in lowercase hexadecimal.
pub open spec fn session_id_of(source_uri: Seq<char>, content: Seq<char>) -> Seq<char> {
    hex_lower(sha256(session_digest_input(source_uri, content)))
}

/// The bytes whose digest identifies a session: the URI, a zero byte and
/// the content, all UTF-8.
pub open spec fn session_digest_input(source_uri: Seq<char>, content: Seq<char>) -> Seq<u8> {
    encode_utf8(source_uri) + seq![0u8] + encode_utf8(content)
}

/// The staging directory of a session.
pub open spec fn staging_dir_of(session_id: Seq<char>) -> Seq<char> {
    "/tmp/nm-ovpn-"@ + session_id
}

proof fn lemma_hex_digit_injective(a: int, b: int)
    requires
        0 <= a < 16,
        0 <= b < 16,
        hex_digit(a) == hex_digit(b),
    ensures
        a == b,
{
}

/// Different bytes give different hexadecimal text.
proof fn lemma_hex_lower_injective(a: Seq<u8>, b: Seq<u8>)
    requires
        hex_lower(a) == hex_lower(b),
    ensures
        a == b,
    decreases a.len(),
{
    lemma_hex_lower_shape(a);
    lemma_hex_lower_shape(b);
    if a.len() > 0 {
        let ha = hex_lower(a);
        let n = ha.len();
        assert(ha.subrange(0, n - 2) =~= hex_lower(a.drop_last()));
        assert(hex_lower(b).subrange(0, n - 2) =~= hex_lower(b.drop_last()));
        lemma_hex_lower_injective(a.drop_last(), b.drop_last());
        let x = a.last();
        let y = b.last();
        assert(ha[n - 2] == hex_digit((x / 16) as int));
        assert(ha[n - 1] == hex_digit((x % 16) as int));
        assert(hex_lower(b)[n - 2] == hex_digit((y / 16) as int));
        assert(hex_lower(b)[n - 1] == hex_digit((y % 16) as int));
        lemma_hex_digit_injective((x / 16) as int, (y / 16) as int);
        lemma_hex_digit_injective((x % 16) as int, (y % 16) as int);
        assert(x == y);
        assert(a =~= a.drop_last().push(x));
        assert(b =~= b.drop_last().push(y));
    }
}

/// No byte of the UTF-8 encoding of a scalar other than U+0000 is zero.
proof fn lemma_scalar_bytes_nonzero(v: u32)
    requires
        is_scalar(v),
        v != 0,
    ensures
        !encode_scalar(v).contains(0u8),
{
    assert(0 < v <= 0x7F ==> leading_byte_width_1(v) != 0) by (bit_vector);
    assert(leading_byte_width_2(v) != 0) by (bit_vector);
    assert(leading_byte_width_3(v) != 0) by (bit_vector);
    assert(leading_byte_width_4(v) != 0) by (bit_vector);
    assert(last_continuation_byte(v) != 0) by (bit_vector);
    assert(second_last_continuation_byte(v) != 0) by (bit_vector);
    assert(third_last_continuation_byte(v) != 0) by (bit_vector);
    let e = encode_scalar(v);
    assert forall|i: int| 0 <= i < e.len() implies e[i] != 0u8 by {
        if has_width_1_encoding(v) {
        } else if has_width_2_encoding(v) {
        } else if has_width_3_encoding(v) {
        } else {
        }
    }
}

/// Text without U+0000 has no zero byte in UTF-8.
proof fn lemma_utf8_without_nul(s: Seq<char>)
    requires
        !s.contains('\0'),
    ensures
        !encode_utf8(s).contains(0u8),
    decreases s.len(),
{
    if s.len() > 0 {
        vstd::utf8::char_is_scalar(s[0]);
        assert(s[0] != '\0');
        if (s[0] as u32) == 0 {
            vstd::utf8::char_u32_cast(s[0], 0);
            assert(s[0] == '\0');
        }
        lemma_scalar_bytes_nonzero(s[0] as u32);
        assert(!s.drop_first().contains('\0')) by {
            if s.drop_first().contains('\0') {
                let k = choose|k: int| 0 <= k < s.drop_first().len() && s.drop_first()[k] == '\0';
                assert(s[k + 1] == '\0');
            }
        }
        lemma_utf8_without_nul(s.drop_first());
        let a = encode_scalar(s[0] as u32);
        let b = encode_utf8(s.drop_first());
        assert(encode_utf8(s) == a + b);
        assert forall|i: int| 0 <= i < (a + b).len() implies (a + b)[i] != 0u8 by {
            if i < a.len() {
                assert(a[i] != 0u8);
            } else {
                assert((a + b)[i] == b[i - a.len()]);
            }
        }
    }
}

/// For URIs without U+0000, the digest input tells URI and content apart:
/// equal inputs come from equal URIs and equal contents.
pub proof fn lemma_session_digest_input_injective(
    uri1: Seq<char>,
    content1: Seq<char>,
    uri2: Seq<char>,
    content2: Seq<char>,
)
    requires
        !uri1.contains('\0'),
        !uri2.contains('\0'),
    ensures
        (session_digest_input(uri1, content1) == session_digest_input(uri2, content2)) <==> (uri1
            == uri2 && content1 == content2),
{
    broadcast use vstd::utf8::encode_utf8_decode_utf8;

    let a1 = encode_utf8(uri1);
    let a2 = encode_utf8(uri2);
    let in1 = session_digest_input(uri1, content1);
    let in2 = session_digest_input(uri2, content2);
    if in1 == in2 {
        lemma_utf8_without_nul(uri1);
        lemma_utf8_without_nul(uri2);
        assert(in1[a1.len() as int] == 0u8);
        assert(in2[a2.len() as int] == 0u8);
        if a1.len() < a2.len() {
            assert(in2[a1.len() as int] == a2[a1.len() as int]);
            assert(a2.contains(0u8));
        }
        if a2.len() < a1.len() {
            assert(in1[a2.len() as int] == a1[a2.len() as int]);
            assert(a1.contains(0u8));
        }
        assert(a1.len() == a2.len());
        assert(a1 =~= in1.take(a1.len() as int));
        assert(a2 =~= in2.take(a2.len() as int));
        assert(encode_utf8(content1) =~= in1.skip(a1.len() as int + 1));
        assert(encode_utf8(content2) =~= in2.skip(a2.len() as int + 1));
        assert(decode_utf8(encode_utf8(uri1)) == uri1);
        assert(decode_utf8(encode_utf8(uri2)) == uri2);
        assert(decode_utf8(encode_utf8(content1)) == content1);
        assert(decode_utf8(encode_utf8(content2)) == content2);
    }
}

/// Two configurations share a staging directory exactly when the digests of
/// their URI and content agree: the same configuration reuses its
/// directory, and a different one gets a different directory unless
/// SHA-256 collides.
pub proof fn lemma_staging_dir_identifies_digest(
    uri1: Seq<char>,
    content1: Seq<char>,
    uri2: Seq<char>,
    content2: Seq<char>,
)
    ensures
        (staging_dir_of(session_id_of(uri1, content1)) == staging_dir_of(
            session_id_of(uri2, content2),
        )) <==> sha256(session_digest_input(uri1, content1)) == sha256(
            session_digest_input(uri2, content2),
        ),
{
    let id1 = session_id_of(uri1, content1);
    let id2 = session_id_of(uri2, content2);
    let prefix: Seq<char> = "/tmp/nm-ovpn-"@;
    if staging_dir_of(id1) == staging_dir_of(id2) {
        assert(staging_dir_of(id1).skip(prefix.len() as int) =~= id1);
        assert(staging_dir_of(id2).skip(prefix.len() as int) =~= id2);
        lemma_hex_lower_injective(
            sha256(session_digest_input(uri1, content1)),
            sha256(session_digest_input(uri2, content2)),
        );
    }
}

proof fn lemma_hex_lower_shape(bytes: Seq<u8>)
    ensures
        hex_lower(bytes).len() == 2 * bytes.len(),
        forall|i: int| 0 <= i < hex_lower(bytes).len() ==> is_hex_digit(#[trigger] hex_lower(bytes)[i]),
    decreases bytes.len(),
{
    if bytes.len() > 0 {
        lemma_hex_lower_shape(bytes.drop_last());
        let b = bytes.last();
        assert(is_hex_digit(hex_digit((b / 16) as int)));
        assert(is_hex_digit(hex_digit((b % 16) as int)));
    }
}

fn hex_digit_char(d: u8) -> (c: char)
    requires
        d < 16,
    ensures
        c == hex_digit(d as int),
{
    if d < 10 {
        (48 + d) as char
    } else {
        (87 + d) as char
    }
}

fn push_bytes(v: &mut Vec<u8>, bytes: &[u8])
    ensures
        final(v)@ == old(v)@ + bytes@,
{
    let mut k: usize = 0;
    while k < bytes.len()
        invariant
            k <= bytes@.len(),
            v@ == old(v)@ + bytes@.take(k as int),
        decreases bytes@.len() - k,
    {
        v.push(bytes[k]);
        k = k + 1;
        assert(v@ =~= old(v)@ + bytes@.take(k as int));
    }
    assert(bytes@.take(k as int) =~= bytes@);
}

/// A session ID that depends only on the configuration's URI and content:
/// 64 lowercase hexadecimal digits.
pub fn stable_session_id(source_uri: &str, content: &str) -> (id: String)
    ensures
        id@ == session_id_of(source_uri@, content@),
        id@.len() == 64,
        forall|i: int| 0 <= i < id@.len() ==> is_hex_digit(#[trigger] id@[i]),
{
    let mut data: Vec<u8> = Vec::new();
    push_bytes(&mut data, source_uri.as_bytes());
    data.push(0);
    push_bytes(&mut data, content.as_bytes());
    assert(data@ =~= session_digest_input(source_uri@, content@));
    let digest = sha256_digest(data.as_slice());
    proof {
        lemma_hex_lower_shape(digest@);
    }
    to_hex_lower(&digest)
}

/// Bytes as lowercase hexadecimal, two digits per byte.
pub fn to_hex_lower(bytes: &[u8]) -> (hex: String)
    ensures
        hex@ == hex_lower(bytes@),
{
    let mut hex = String::new();
    let mut k: usize = 0;
    while k < bytes.len()
        invariant
            k <= bytes@.len(),
            hex@ == hex_lower(bytes@.take(k as int)),
        decreases bytes@.len() - k,
    {
        let b = bytes[k];
        push_char(&mut hex, hex_digit_char(b / 16));
        push_char(&mut hex, hex_digit_char(b % 16));
        assert(bytes@.take(k + 1).drop_last() =~= bytes@.take(k as int));
        k = k + 1;
    }
    assert(bytes@.take(k as int) =~= bytes@);
    hex
}

/// The staging directory of a session.
pub fn staging_dir_path(session_id: &str) -> (r: String)
    ensures
        r@ == staging_dir_of(session_id@),
{
    let mut r = String::new();
    r.append("/tmp/nm-ovpn-");
    r.append(session_id);
    r
}

/// `Path::file_stem` of a path, as text.
pub uninterp spec fn path_file_stem(path: Seq<char>) -> Option<Seq<char>>;

/// `Path::parent` of a path, as text.
pub uninterp spec fn path_parent(path: Seq<char>) -> Option<Seq<char>>;

/// `Path::file_name` of a path, as text.
pub uninterp spec fn path_file_name(path: Seq<char>) -> Option<Seq<char>>;

/// Whether a path equals `/` as a `Path`, which compares components: it
/// starts with `/`, and every `/`-separated segment is empty or `.`.
pub open spec fn root_path(path: Seq<char>) -> bool {
    &&& path.len() > 0
    &&& path[0] == '/'
    &&& forall|i: int|
        0 < i < path.len() ==> (#[trigger] path[i] == '/' || (path[i] == '.' && path[i - 1] == '/'
            && (i + 1 == path.len() || path[i + 1] == '/')))
}

pub open spec fn string_option_view(s: Option<String>) -> Option<Seq<char>> {
    match s {
        Some(s) => Some(s@),
        None => None,
    }
}

/// `Path::file_stem` of the path given as text. The claim: the result is
/// the named stem (a part of a path given as text is text, so `to_str`
/// loses nothing).
#[verifier::external_body]
fn file_stem(path: &str) -> (r: Option<String>)
    ensures
        string_option_view(r) == path_file_stem(path@),
{
    std::path::Path::new(path).file_stem().and_then(|s| s.to_str()).map(|s| s.to_owned())
}

/// `Path::parent` of the path given as text. The claim: the result is the
/// named parent.
#[verifier::external_body]
fn parent(path: &str) -> (r: Option<String>)
    ensures
        string_option_view(r) == path_parent(path@),
{
    std::path::Path::new(path).parent().and_then(|p| p.to_str()).map(|s| s.to_owned())
}

/// `Path::file_name` of the path given as text. The claim: the result is
/// the named file name.
#[verifier::external_body]
fn file_name(path: &str) -> (r: Option<String>)
    ensures
        string_option_view(r) == path_file_name(path@),
{
    std::path::Path::new(path).file_name().and_then(|s| s.to_str()).map(|s| s.to_owned())
}

/// Whether `path` names the root directory `/`.
pub fn is_root_path(path: &str) -> (r: bool)
    ensures
        r == root_path(path@),
{
    let chars = chars_of(path);
    let n = chars.len();
    if n == 0 || chars[0] != '/' {
        return false;
    }
    let mut i: usize = 1;
    while i < n
        invariant
            1 <= i <= n,
            n == chars@.len(),
            chars@ == path@,
            chars@[0] == '/',
            forall|k: int|
                0 < k < i ==> (#[trigger] chars@[k] == '/' || (chars@[k] == '.' && chars@[k - 1]
                    == '/' && (k + 1 == n || chars@[k + 1] == '/'))),
        decreases n - i,
    {
        let c = chars[i];
        if c != '/' {
            if !(c == '.' && chars[i - 1] == '/' && (i + 1 == n || chars[i + 1] == '/')) {
                return false;
            }
        }
        i = i + 1;
    }
    true
}

/// The name of the directory that holds `source_path`, unless there is no
/// path, no parent, the parent is the root, or it has no name.
pub open spec fn directory_name_of(source_path: Option<Seq<char>>) -> Option<Seq<char>> {
    match source_path {
        None => None,
        Some(path) => match path_parent(path) {
            None => None,
            Some(dir) => if root_path(dir) {
                None
            } else {
                path_file_name(dir)
            },
        },
    }
}

/// The name shown for a configuration: the name of the directory that holds
/// it, unless that is the root or has no name; otherwise the file name
/// without its extension (or the whole file name when it has no stem).
pub open spec fn display_name_of(source_path: Option<Seq<char>>, source_name: Seq<char>) -> Seq<char> {
    match directory_name_of(source_path) {
        Some(name) if name.len() > 0 => name,
        _ => match path_file_stem(source_name) {
            Some(stem) => stem,
            None => source_name,
        },
    }
}

pub open spec fn str_option_view(s: Option<&str>) -> Option<Seq<char>> {
    match s {
        Some(s) => Some(s@),
        None => None,
    }
}

/// Picks the display name: a non-empty directory name, otherwise the file
/// stem, otherwise the whole file name.
pub fn choose_display_name(source_name: &str, stem: Option<String>, directory_name: Option<String>) -> (r: String)
    ensures
        r@ == match directory_name {
            Some(name) if name@.len() > 0 => name@,
            _ => match stem {
                Some(stem) => stem@,
                None => source_name@,
            },
        },
{
    if let Some(name) = directory_name {
        if !name.as_str().is_empty() {
            return name;
        }
    }
    match stem {
        Some(stem) => stem,
        None => source_name.to_owned(),
    }
}

/// The human-readable name of a configuration, used as terminal title.
pub fn display_name(source_path: Option<&str>, source_name: &str) -> (r: String)
    ensures
        r@ == display_name_of(str_option_view(source_path), source_name@),
{
    let stem = file_stem(source_name);
    let directory_name = match source_path {
        None => None,
        Some(path) => match parent(path) {
            None => None,
            Some(dir) => if is_root_path(dir.as_str()) {
                None
            } else {
                file_name(dir.as_str())
            },
        },
    };
    assert(string_option_view(directory_name) == directory_name_of(str_option_view(source_path)));
    choose_display_name(source_name, stem, directory_name)
}

/// Extensions of companion files that are copied alongside the `.ovpn` file.
pub open spec fn companion_extensions() -> Seq<Seq<char>> {
    seq!["ovpn"@, "crt"@, "key"@, "p12"@, "pem"@, "txt"@]
}

/// Whether a file is staged next to the configuration: its name has an
/// extension (after the last `.`) that is one of the companion extensions,
/// in any ASCII case.
pub open spec fn companion_file_name(name: Seq<char>) -> bool {
    exists|d: int|
        #![trigger name[d]]
        0 <= d < name.len() && name[d] == '.' && (forall|k: int| d < k < name.len() ==> name[k]
            != '.') && exists|e: int|
            0 <= e < companion_extensions().len() && eq_ignore_ascii_case(
                name.skip(d + 1),
                #[trigger] companion_extensions()[e],
            )
}

/// A name is a companion exactly when the text after its last `.` is one of
/// the companion extensions, ignoring ASCII case; the text before that dot
/// may hold dots of its own.
pub proof fn lemma_companion_by_last_extension(stem: Seq<char>, ext: Seq<char>)
    requires
        !ext.contains('.'),
    ensures
        companion_file_name(stem + seq!['.'] + ext) <==> exists|e: int|
            0 <= e < companion_extensions().len() && eq_ignore_ascii_case(
                ext,
                #[trigger] companion_extensions()[e],
            ),
{
    let name = stem + seq!['.'] + ext;
    let d0 = stem.len() as int;
    assert(name[d0] == '.');
    assert forall|k: int| d0 < k < name.len() implies name[k] != '.' by {
        assert(name[k] == ext[k - d0 - 1]);
        if name[k] == '.' {
            assert(ext.contains('.'));
        }
    }
    assert(name.skip(d0 + 1) =~= ext);
    if companion_file_name(name) {
        let d = choose|d: int|
            #![trigger name[d]]
            0 <= d < name.len() && name[d] == '.' && (forall|k: int| d < k < name.len() ==> name[k]
                != '.') && exists|e: int|
                0 <= e < companion_extensions().len() && eq_ignore_ascii_case(
                    name.skip(d + 1),
                    #[trigger] companion_extensions()[e],
                );
        if d < d0 {
            assert(name[d0] != '.');
        }
        if d > d0 {
            assert(name[d] != '.');
        }
        assert(d == d0);
    }
}

/// Every companion extension, after a dot, makes a companion name, whatever
/// the text before the dot.
pub proof fn lemma_companion_extension_after_any_stem(stem: Seq<char>, e: int)
    requires
        0 <= e < companion_extensions().len(),
    ensures
        companion_file_name(stem + seq!['.'] + companion_extensions()[e]),
{
    reveal_strlit("ovpn");
    reveal_strlit("crt");
    reveal_strlit("key");
    reveal_strlit("p12");
    reveal_strlit("pem");
    reveal_strlit("txt");
    let ext = companion_extensions()[e];
    assert(!ext.contains('.')) by {
        if ext.contains('.') {
            let j = choose|j: int| 0 <= j < ext.len() && ext[j] == '.';
            assert(ext[j] != '.');
        }
    }
    assert(eq_ignore_ascii_case(ext, companion_extensions()[e]));
    lemma_companion_by_last_extension(stem, ext);
}

/// A name without a dot has no extension and is never a companion.
pub proof fn lemma_companion_needs_dot(name: Seq<char>)
    requires
        !name.contains('.'),
    ensures
        !companion_file_name(name),
{
    if companion_file_name(name) {
        let d = choose|d: int|
            #![trigger name[d]]
            0 <= d < name.len() && name[d] == '.' && (forall|k: int| d < k < name.len() ==> name[k]
                != '.') && exists|e: int|
                0 <= e < companion_extensions().len() && eq_ignore_ascii_case(
                    name.skip(d + 1),
                    #[trigger] companion_extensions()[e],
                );
        assert(name.contains('.'));
    }
}

proof fn lemma_companion_extensions_lowercase(e: int)
    requires
        0 <= e < 6,
    ensures
        forall|i: int|
            0 <= i < companion_extensions()[e].len() ==> ascii_lower(
                #[trigger] companion_extensions()[e][i],
            ) == companion_extensions()[e][i],
{
    reveal_strlit("ovpn");
    reveal_strlit("crt");
    reveal_strlit("key");
    reveal_strlit("p12");
    reveal_strlit("pem");
    reveal_strlit("txt");
}

fn ext_matches(name: &[char], start: usize, ext: &[char]) -> (r: bool)
    requires
        start <= name@.len(),
        forall|i: int| 0 <= i < ext@.len() ==> ascii_lower(#[trigger] ext@[i]) == ext@[i],
    ensures
        r == eq_ignore_ascii_case(name@.skip(start as int), ext@),
{
    if name.len() - start != ext.len() {
        return false;
    }
    let mut k: usize = 0;
    while k < ext.len()
        invariant
            start <= name@.len(),
            start + ext@.len() == name@.len(),
            name@.len() <= usize::MAX,
            k <= ext@.len(),
            forall|i: int| 0 <= i < ext@.len() ==> ascii_lower(#[trigger] ext@[i]) == ext@[i],
            forall|i: int| 0 <= i < k ==> ascii_lower(name@[start + i]) == ext@[i],
        decreases ext@.len() - k,
    {
        if to_ascii_lowercase(name[start + k]) != ext[k] {
            assert(ascii_lower(name@.skip(start as int)[k as int]) != ascii_lower(ext@[k as int]));
            return false;
        }
        k = k + 1;
    }
    true
}

/// Whether a file with this name is copied alongside the configuration.
pub fn is_companion_file(name: &str) -> (r: bool)
    ensures
        r == companion_file_name(name@),
{
    let chars = chars_of(name);
    let mut d = chars.len();
    while d > 0 && chars[d - 1] != '.'
        invariant
            d <= chars@.len(),
            chars@ == name@,
            forall|k: int| d <= k < chars@.len() ==> chars@[k] != '.',
        decreases d,
    {
        d = d - 1;
    }
    if d == 0 {
        assert(!companion_file_name(name@));
        return false;
    }
    let dot = d - 1;
    let exts: [&str; 6] = ["ovpn", "crt", "key", "p12", "pem", "txt"];
    proof {
        reveal_strlit("ovpn");
        reveal_strlit("crt");
        reveal_strlit("key");
        reveal_strlit("p12");
        reveal_strlit("pem");
        reveal_strlit("txt");
    }
    let mut e: usize = 0;
    while e < 6
        invariant
            e <= 6,
            dot < chars.len(),
            dot < chars@.len(),
            chars@ == name@,
            chars@[dot as int] == '.',
            forall|k: int| dot < k < chars@.len() ==> chars@[k] != '.',
            forall|i: int| 0 <= i < 6 ==> (#[trigger] exts@[i])@ == companion_extensions()[i],
            forall|i: int|
                0 <= i < e ==> !eq_ignore_ascii_case(
                    chars@.skip(dot + 1),
                    #[trigger] companion_extensions()[i],
                ),
        decreases 6 - e,
    {
        let ext = chars_of(exts[e]);
        proof {
            lemma_companion_extensions_lowercase(e as int);
        }
        if ext_matches(&chars, dot + 1, &ext) {
            assert(companion_file_name(name@)) by {
                assert(name@[dot as int] == '.');
            }
            return true;
        }
        e = e + 1;
    }
    assert(!companion_file_name(name@)) by {
        if companion_file_name(name@) {
            let d2 = choose|d2: int|
                #![trigger name@[d2]]
                0 <= d2 < name@.len() && name@[d2] == '.' && (forall|k: int|
                    d2 < k < name@.len() ==> name@[k] != '.') && exists|e2: int|
                    0 <= e2 < companion_extensions().len() && eq_ignore_ascii_case(
                        name@.skip(d2 + 1),
                        #[trigger] companion_extensions()[e2],
                    );
            assert(d2 == dot);
        }
    }
    false
}

} // verus!
