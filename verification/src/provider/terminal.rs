//! The terminal that runs OpenVPN: choosing a configured terminal program,
//! quoting paths for the shell, and rendering the command and argument
//! templates.

use vstd::prelude::*;

use vstd::string::StringExecFns;

use crate::credentials::VpnCredentials;
use crate::text::{chars_of, push_char};

verus! {

broadcast use vstd::string::group_string_axioms;

/// The characters of `value` with each `'` replaced by `'\''`.
pub open spec fn escape_single_quotes(value: Seq<char>) -> Seq<char>
    decreases value.len(),
{
    if value.len() == 0 {
        Seq::empty()
    } else {
        (if value[0] == '\'' {
            seq!['\'', '\\', '\'', '\'']
        } else {
            seq![value[0]]
        }) + escape_single_quotes(value.drop_first())
    }
}

/// `value` as one single-quoted shell word.
pub open spec fn shell_quoted(value: Seq<char>) -> Seq<char> {
    seq!['\''] + escape_single_quotes(value) + seq!['\'']
}

/// How a POSIX shell reads a word made of single-quoted stretches and
/// backslash-escaped characters (`None` for anything else, or an unclosed
/// quote); `quoted` tells whether reading starts inside single quotes.
pub open spec fn read_shell_word(s: Seq<char>, quoted: bool) -> Option<Seq<char>>
    decreases s.len(),
{
    if s.len() == 0 {
        if quoted {
            None
        } else {
            Some(Seq::empty())
        }
    } else if quoted {
        if s[0] == '\'' {
            read_shell_word(s.drop_first(), false)
        } else {
            match read_shell_word(s.drop_first(), true) {
                Some(rest) => Some(seq![s[0]] + rest),
                None => None,
            }
        }
    } else if s[0] == '\'' {
        read_shell_word(s.drop_first(), true)
    } else if s[0] == '\\' && s.len() >= 2 {
        match read_shell_word(s.subrange(2, s.len() as int), false) {
            Some(rest) => Some(seq![s[1]] + rest),
            None => None,
        }
    } else {
        None
    }
}

proof fn lemma_read_escaped(value: Seq<char>, rest: Seq<char>)
    ensures
        read_shell_word(escape_single_quotes(value) + rest, true) == match read_shell_word(
            rest,
            true,
        ) {
            Some(r) => Some(value + r),
            None => None,
        },
    decreases value.len(),
{
    let e = escape_single_quotes(value);
    if value.len() == 0 {
        assert(e + rest =~= rest);
        match read_shell_word(rest, true) {
            Some(r) => {
                assert(value + r =~= r);
            },
            None => {},
        }
    } else {
        let tail = value.drop_first();
        let et = escape_single_quotes(tail);
        lemma_read_escaped(tail, rest);
        if value[0] == '\'' {
            let s = e + rest;
            assert(s =~= seq!['\'', '\\', '\'', '\''] + (et + rest));
            assert(s.drop_first() =~= seq!['\\', '\'', '\''] + (et + rest));
            let s1 = s.drop_first();
            assert(s1.subrange(2, s1.len() as int) =~= seq!['\''] + (et + rest));
            let s2 = s1.subrange(2, s1.len() as int);
            assert(s2.drop_first() =~= et + rest);
            assert(s[0] == '\'');
            assert(read_shell_word(s, true) == read_shell_word(s1, false));
            assert(s1[0] == '\\' && s1[1] == '\'');
            assert(read_shell_word(s1, false) == match read_shell_word(s2, false) {
                Some(r) => Some(seq!['\''] + r),
                None => None,
            });
            assert(s2[0] == '\'');
            assert(read_shell_word(s2, false) == read_shell_word(et + rest, true));
            match read_shell_word(rest, true) {
                Some(r) => {
                    assert(seq!['\''] + (tail + r) =~= value + r);
                },
                None => {},
            }
        } else {
            let s = e + rest;
            assert(s =~= seq![value[0]] + (et + rest));
            assert(s.drop_first() =~= et + rest);
            assert(s[0] == value[0]);
            assert(read_shell_word(s, true) == match read_shell_word(et + rest, true) {
                Some(r) => Some(seq![value[0]] + r),
                None => None,
            });
            match read_shell_word(rest, true) {
                Some(r) => {
                    assert(seq![value[0]] + (tail + r) =~= value + r);
                },
                None => {},
            }
        }
    }
}

/// A shell reads the quoted word back as exactly the value that was quoted.
pub proof fn lemma_shell_quote_reads_back(value: Seq<char>)
    ensures
        read_shell_word(shell_quoted(value), false) == Some(value),
{
    let q = shell_quoted(value);
    assert(q.drop_first() =~= escape_single_quotes(value) + seq!['\'']);
    lemma_read_escaped(value, seq!['\'']);
    let close: Seq<char> = seq!['\''];
    assert(close[0] == '\'');
    assert(close.drop_first() =~= Seq::<char>::empty());
    assert(read_shell_word(close, true) == read_shell_word(close.drop_first(), false));
    assert(read_shell_word(close, true) == Some(Seq::<char>::empty()));
    assert(value + Seq::<char>::empty() =~= value);
}

/// Quotes `value` as a single shell word: `'...'`, with each `'` written as
/// `'\''`.
pub fn shell_quote(value: &str) -> (r: String)
    ensures
        r@ == shell_quoted(value@),
{
    let chars = chars_of(value);
    let mut r = String::new();
    push_char(&mut r, '\'');
    let mut k: usize = 0;
    assert(chars@.skip(0) =~= chars@);
    assert(shell_quoted(value@).drop_last() =~= r@ + escape_single_quotes(value@));
    while k < chars.len()
        invariant
            k <= chars@.len(),
            chars@ == value@,
            r@ + escape_single_quotes(chars@.skip(k as int)) == shell_quoted(value@).drop_last(),
        decreases chars@.len() - k,
    {
        let ghost before = r@;
        let c = chars[k];
        assert(chars@.skip(k as int).drop_first() =~= chars@.skip(k + 1));
        if c == '\'' {
            push_char(&mut r, '\'');
            push_char(&mut r, '\\');
            push_char(&mut r, '\'');
            push_char(&mut r, '\'');
            assert(r@ =~= before + seq!['\'', '\\', '\'', '\'']);
        } else {
            push_char(&mut r, c);
            assert(r@ =~= before + seq![c]);
        }
        k = k + 1;
        assert(r@ + escape_single_quotes(chars@.skip(k as int)) =~= before + escape_single_quotes(
            chars@.skip(k - 1),
        ));
    }
    assert(chars@.skip(k as int) =~= Seq::<char>::empty());
    assert(r@ =~= shell_quoted(value@).drop_last());
    push_char(&mut r, '\'');
    assert(r@ =~= shell_quoted(value@));
    r
}

/// The terminal configuration written on first use.
pub const DEFAULT_CONFIG: &'static str = r#"# Terminal launcher for nautilus-ovpn.
#
# The program and each entry in args are templates. The OpenVPN command is
# rendered separately and inserted as {{ command }}. Paths in the command
# template are already shell-quoted.

[[terminal]]
program = "ptyxis"
args = ["--title", "{{ title }}", "--", "bash", "-lc", "{{ command }}"]

[[terminal]]
program = "ghostty"
args = ["--title", "{{ title }}", "-e", "bash", "-lc", "{{ command }}"]

[[terminal]]
program = "kitty"
args = ["--title", "{{ title }}", "bash", "-lc", "{{ command }}"]

[[terminal]]
program = "alacritty"
args = ["--title", "{{ title }}", "-e", "bash", "-lc", "{{ command }}"]

[[terminal]]
program = "gnome-terminal"
args = ["--title", "{{ title }}", "--", "bash", "-lc", "{{ command }}"]

[[terminal]]
program = "konsole"
args = ["--title", "{{ title }}", "-e", "bash", "-lc", "{{ command }}"]

[[terminal]]
program = "xfce4-terminal"
args = ["--title", "{{ title }}", "-x", "bash", "-lc", "{{ command }}"]

[[terminal]]
program = "tilix"
args = ["--title", "{{ title }}", "-e", "bash", "-lc", "{{ command }}"]

[[terminal]]
program = "foot"
args = ["--title", "{{ title }}", "bash", "-lc", "{{ command }}"]

[[terminal]]
program = "xterm"
args = ["-T", "{{ title }}", "-e", "bash", "-lc", "{{ command }}"]

[openvpn]
command = """
set -o pipefail
pkexec openvpn{% if legacy_auth %} --providers legacy default{% endif %} --cd {{ staging_dir }} --config {{ config_path }}{% if auth_path %} --auth-user-pass {{ auth_path }}{% endif %}{% if private_key_password_path %} --askpass {{ private_key_password_path }}{% endif %} 2>&1 | tee {{ log_path }}
status=$?
echo
read -rp {{ finished_prompt }}
exit "$status"
"""
"#;

/// One configured terminal: the program and its argument templates.
pub struct TerminalConfig {
    pub program: String,
    pub args: Vec<String>,
}

/// The OpenVPN command template.
pub struct OpenVpnConfig {
    pub command: String,
}

/// The terminal launcher configuration.
pub struct Config {
    pub terminal: Vec<TerminalConfig>,
    pub openvpn: OpenVpnConfig,
}

/// The programs of `terminals`, in order.
pub open spec fn programs_of(terminals: Seq<TerminalConfig>) -> Seq<Seq<char>> {
    terminals.map_values(|t: TerminalConfig| t.program@)
}

/// `items` joined with `sep` between neighbours.
pub open spec fn joined(items: Seq<Seq<char>>, sep: Seq<char>) -> Seq<char>
    decreases items.len(),
{
    if items.len() == 0 {
        Seq::empty()
    } else if items.len() == 1 {
        items[0]
    } else {
        joined(items.drop_last(), sep) + sep + items.last()
    }
}

/// The error when no configured terminal program can be found.
pub open spec fn no_terminal_message(terminals: Seq<TerminalConfig>) -> Seq<char> {
    "none of the configured terminal programs are available in PATH: "@ + joined(
        programs_of(terminals),
        ", "@,
    )
}

/// The first terminal, in configuration order, whose program exists.
/// `command_exists` answers whether a program can be found; it is asked
/// about the programs in order, up to the first that exists.
pub fn select_terminal<'a, F: Fn(&String) -> bool>(
    terminals: &'a [TerminalConfig],
    command_exists: F,
) -> (r: Result<&'a TerminalConfig, String>)
    requires
        forall|p: &String| command_exists.requires((p,)),
    ensures
        match r {
            Ok(t) => exists|i: int|
                #![trigger terminals@[i]]
                0 <= i < terminals@.len() && *t == terminals@[i] && command_exists.ensures(
                    (&terminals@[i].program,),
                    true,
                ) && forall|j: int|
                    0 <= j < i ==> command_exists.ensures((&terminals@[j].program,), false),
            Err(m) => m@ == no_terminal_message(terminals@) && forall|j: int|
                0 <= j < terminals@.len() ==> command_exists.ensures(
                    (&terminals@[j].program,),
                    false,
                ),
        },
{
    let n = terminals.len();
    let mut i: usize = 0;
    while i < n
        invariant
            i <= n,
            n == terminals@.len(),
            forall|p: &String| command_exists.requires((p,)),
            forall|j: int| 0 <= j < i ==> command_exists.ensures((&terminals@[j].program,), false),
        decreases n - i,
    {
        if command_exists(&terminals[i].program) {
            return Ok(&terminals[i]);
        }
        i = i + 1;
    }
    let mut message = String::new();
    message.append("none of the configured terminal programs are available in PATH: ");
    let ghost prefix = message@;
    let ghost programs = programs_of(terminals@);
    let mut k: usize = 0;
    while k < n
        invariant
            k <= n,
            n == terminals@.len(),
            programs == programs_of(terminals@),
            message@ == prefix + joined(programs.take(k as int), ", "@),
        decreases n - k,
    {
        if k != 0 {
            message.append(", ");
        }
        message.append(terminals[k].program.as_str());
        proof {
            assert(programs.take(k + 1).drop_last() =~= programs.take(k as int));
            if k == 0 {
                assert(programs.take(1) =~= seq![programs[0]]);
            }
        }
        k = k + 1;
    }
    assert(programs.take(n as int) =~= programs);
    Err(message)
}

/// Variables for a template: text values and flags, by name.
pub struct TemplateVariables {
    pub texts: Vec<(String, String)>,
    pub flags: Vec<(String, bool)>,
}

pub open spec fn text_bindings(texts: Seq<(String, String)>) -> Seq<(Seq<char>, Seq<char>)> {
    texts.map_values(|p: (String, String)| (p.0@, p.1@))
}

pub open spec fn flag_bindings(flags: Seq<(String, bool)>) -> Seq<(Seq<char>, bool)> {
    flags.map_values(|p: (String, bool)| (p.0@, p.1))
}

/// Whether MiniJinja accepts `template` as the source of a template named
/// `name`.
pub uninterp spec fn template_compiles(name: Seq<char>, template: Seq<char>) -> bool;

/// What MiniJinja renders from `template`, compiled under `name`, with the
/// given variables (`None` when rendering fails).
pub uninterp spec fn template_output(
    name: Seq<char>,
    template: Seq<char>,
    texts: Seq<(Seq<char>, Seq<char>)>,
    flags: Seq<(Seq<char>, bool)>,
) -> Option<Seq<char>>;

/// The name under which terminal templates are compiled. MiniJinja chooses
/// auto-escaping by the name's extension; this name has none, so nothing is
/// escaped.
pub open spec fn terminal_template_name() -> Seq<char> {
    "template"@
}

/// Whether a terminal template compiles and renders with these variables.
pub open spec fn renders(
    template: Seq<char>,
    texts: Seq<(Seq<char>, Seq<char>)>,
    flags: Seq<(Seq<char>, bool)>,
) -> bool {
    template_compiles(terminal_template_name(), template) && template_output(
        terminal_template_name(),
        template,
        texts,
        flags,
    ) is Some
}

/// Why a template did not render, with MiniJinja's description.
pub enum RenderFailure {
    Invalid { detail: String },
    Failed { detail: String },
}

/// Compiles `template` under `name` with
/// `Environment::template_from_named_str` and renders it with
/// `Template::render`. The claim: compiling fails exactly when
/// `template_compiles` is false, and rendering succeeds with
/// `template_output` exactly when that is `Some`. MiniJinja's error
/// descriptions are passed on as they are and not described.
#[verifier::external_body]
fn render_with_minijinja(name: &str, template: &str, texts: &Vec<(String, String)>, flags: &Vec<(String, bool)>) -> (r: Result<String, RenderFailure>)
    ensures
        !template_compiles(name@, template@) <==> (r is Err && r->Err_0 is Invalid),
        r is Ok <==> (template_compiles(name@, template@) && template_output(name@, template@, text_bindings(texts@), flag_bindings(flags@)) is Some),
        r matches Ok(s) ==> Some(s@) == template_output(name@, template@, text_bindings(texts@), flag_bindings(flags@)),
{
    let context = minijinja::Value::from_iter(
        texts.iter().map(|(k, v)| (k.as_str(), minijinja::Value::from(v.as_str()))).chain(
            flags.iter().map(|(k, b)| (k.as_str(), minijinja::Value::from(*b))),
        ),
    );
    let environment = minijinja::Environment::new();
    match environment.template_from_named_str(name, template) {
        Err(e) => Err(RenderFailure::Invalid { detail: e.to_string() }),
        Ok(compiled) => compiled.render(context).map_err(|e| RenderFailure::Failed { detail: e.to_string() }),
    }
}

/// The message prefix of a rendering error: whether the template was invalid
/// or its rendering failed.
pub open spec fn render_error_prefix(template: Seq<char>) -> Seq<char> {
    if template_compiles(terminal_template_name(), template) {
        "failed to render terminal template: "@
    } else {
        "invalid terminal template: "@
    }
}

/// Renders a terminal template (compiled under the name `template`). An
/// invalid template and a failed rendering are errors, with messages that
/// say which.
pub fn render(template: &str, variables: &TemplateVariables) -> (r: Result<String, String>)
    ensures
        r is Ok <==> renders(template@, text_bindings(variables.texts@), flag_bindings(variables.flags@)),
        r matches Ok(s) ==> Some(s@) == template_output(
            terminal_template_name(),
            template@,
            text_bindings(variables.texts@),
            flag_bindings(variables.flags@),
        ),
        r matches Err(m) ==> render_error_prefix(template@).is_prefix_of(m@),
{
    render_outcome(render_with_minijinja("template", template, &variables.texts, &variables.flags))
}

/// The result of rendering, with a failure turned into a message that says
/// whether the template was invalid or its rendering failed.
pub fn render_outcome(outcome: Result<String, RenderFailure>) -> (r: Result<String, String>)
    ensures
        match outcome {
            Ok(s) => r == Ok::<String, String>(s),
            Err(RenderFailure::Invalid { detail }) => r matches Err(m) && m@
                == "invalid terminal template: "@ + detail@,
            Err(RenderFailure::Failed { detail }) => r matches Err(m) && m@
                == "failed to render terminal template: "@ + detail@,
        },
{
    match outcome {
        Ok(s) => Ok(s),
        Err(RenderFailure::Invalid { detail }) => Err(prefixed("invalid terminal template: ", &detail)),
        Err(RenderFailure::Failed { detail }) => Err(
            prefixed("failed to render terminal template: ", &detail),
        ),
    }
}

/// `prefix` followed by `detail`.
fn prefixed(prefix: &str, detail: &str) -> (r: String)
    ensures
        r@ == prefix@ + detail@,
        prefix@.is_prefix_of(r@),
{
    let mut r = String::new();
    r.append(prefix);
    r.append(detail);
    assert(r@.subrange(0, prefix@.len() as int) =~= prefix@);
    r
}

/// The files that hold credentials for OpenVPN: an auth file (user name and
/// password lines) and a private key password file, each only when needed.
pub struct CredentialFiles {
    pub auth: Option<String>,
    pub private_key_password: Option<String>,
}

/// The contents of the credential files for one launch. The auth file is
/// written only when the configuration makes OpenVPN prompt and credentials
/// are at hand; the private key password file only when that password is
/// not empty.
pub fn credential_files(requires_credentials: bool, credentials: Option<&VpnCredentials>) -> (r:
    CredentialFiles)
    ensures
        match credentials {
            Some(c) => {
                &&& (r.auth is Some <==> requires_credentials)
                &&& r.auth matches Some(a) ==> a@ == c.username@ + "\n"@ + c.password@ + "\n"@
                &&& (r.private_key_password is Some <==> c.private_key_password@.len() > 0)
                &&& r.private_key_password matches Some(k) ==> k@ == c.private_key_password@
                    + "\n"@
            },
            None => r.auth is None && r.private_key_password is None,
        },
{
    match credentials {
        Some(c) => {
            let auth = if requires_credentials {
                let mut a = String::new();
                a.append(c.username.as_str());
                a.append("\n");
                a.append(c.password.as_str());
                a.append("\n");
                Some(a)
            } else {
                None
            };
            let private_key_password = if c.private_key_password.as_str().is_empty() {
                None
            } else {
                let mut k = String::new();
                k.append(c.private_key_password.as_str());
                k.append("\n");
                Some(k)
            };
            CredentialFiles { auth, private_key_password }
        },
        None => CredentialFiles { auth: None, private_key_password: None },
    }
}

/// A path as a quoted shell word, or the empty text when there is none.
pub open spec fn quoted_or_empty(path: Option<&str>) -> Seq<char> {
    match path {
        Some(p) => shell_quoted(p@),
        None => Seq::empty(),
    }
}

/// The variables of the OpenVPN command template: every path shell-quoted
/// (absent credential files as empty text), the closing prompt quoted, and
/// `legacy_auth` set when the credentials ask for legacy authentication.
pub fn command_variables(
    staging_dir: &str,
    config_path: &str,
    auth_path: Option<&str>,
    private_key_password_path: Option<&str>,
    log_path: &str,
    finished_prompt: &str,
    credentials: Option<&VpnCredentials>,
) -> (v: TemplateVariables)
    ensures
        text_bindings(v.texts@) == seq![
            ("staging_dir"@, shell_quoted(staging_dir@)),
            ("config_path"@, shell_quoted(config_path@)),
            ("auth_path"@, quoted_or_empty(auth_path)),
            ("private_key_password_path"@, quoted_or_empty(private_key_password_path)),
            ("log_path"@, shell_quoted(log_path@)),
            ("finished_prompt"@, shell_quoted(finished_prompt@)),
        ],
        flag_bindings(v.flags@) == seq![
            ("legacy_auth"@, credentials matches Some(c) && c.legacy_auth),
        ],
{
    let legacy_auth = match credentials {
        Some(c) => c.legacy_auth,
        None => false,
    };
    let auth = match auth_path {
        Some(p) => shell_quote(p),
        None => String::new(),
    };
    let private_key_password = match private_key_password_path {
        Some(p) => shell_quote(p),
        None => String::new(),
    };
    let mut texts: Vec<(String, String)> = Vec::new();
    texts.push(("staging_dir".to_owned(), shell_quote(staging_dir)));
    texts.push(("config_path".to_owned(), shell_quote(config_path)));
    texts.push(("auth_path".to_owned(), auth));
    texts.push(("private_key_password_path".to_owned(), private_key_password));
    texts.push(("log_path".to_owned(), shell_quote(log_path)));
    texts.push(("finished_prompt".to_owned(), shell_quote(finished_prompt)));
    let mut flags: Vec<(String, bool)> = Vec::new();
    flags.push(("legacy_auth".to_owned(), legacy_auth));
    let v = TemplateVariables { texts, flags };
    assert(text_bindings(v.texts@) =~= seq![
        ("staging_dir"@, shell_quoted(staging_dir@)),
        ("config_path"@, shell_quoted(config_path@)),
        ("auth_path"@, quoted_or_empty(auth_path)),
        ("private_key_password_path"@, quoted_or_empty(private_key_password_path)),
        ("log_path"@, shell_quoted(log_path@)),
        ("finished_prompt"@, shell_quoted(finished_prompt@)),
    ]);
    assert(flag_bindings(v.flags@) =~= seq![
        ("legacy_auth"@, credentials matches Some(c) && c.legacy_auth),
    ]);
    v
}

/// The variables of an argument template: the terminal title and the
/// rendered command.
pub open spec fn argument_bindings(title: Seq<char>, command: Seq<char>) -> Seq<
    (Seq<char>, Seq<char>),
> {
    seq![("title"@, title), ("command"@, command)]
}

/// Renders the argument templates of `terminal` with the title and the
/// command. Fails, with the error of the first argument that does not
/// render.
pub fn terminal_arguments(terminal: &TerminalConfig, title: &str, command: &str) -> (r: Result<
    Vec<String>,
    String,
>)
    ensures
        r is Ok <==> forall|i: int|
            0 <= i < terminal.args@.len() ==> renders(
                #[trigger] terminal.args@[i]@,
                argument_bindings(title@, command@),
                Seq::empty(),
            ),
        r matches Ok(v) ==> v@.len() == terminal.args@.len() && forall|i: int|
            0 <= i < v@.len() ==> Some(#[trigger] v@[i]@) == template_output(
                terminal_template_name(),
                terminal.args@[i]@,
                argument_bindings(title@, command@),
                Seq::empty(),
            ),
        r matches Err(m) ==> exists|i: int|
            #![trigger terminal.args@[i]]
            0 <= i < terminal.args@.len() && (forall|j: int|
                0 <= j < i ==> renders(
                    #[trigger] terminal.args@[j]@,
                    argument_bindings(title@, command@),
                    Seq::empty(),
                )) && !renders(terminal.args@[i]@, argument_bindings(title@, command@), Seq::empty())
                && render_error_prefix(terminal.args@[i]@).is_prefix_of(m@),
{
    let mut texts: Vec<(String, String)> = Vec::new();
    texts.push(("title".to_owned(), title.to_owned()));
    texts.push(("command".to_owned(), command.to_owned()));
    let variables = TemplateVariables { texts, flags: Vec::new() };
    assert(text_bindings(variables.texts@) =~= argument_bindings(title@, command@));
    assert(flag_bindings(variables.flags@) =~= Seq::<(Seq<char>, bool)>::empty());
    let n = terminal.args.len();
    let mut out: Vec<String> = Vec::new();
    let mut i: usize = 0;
    while i < n
        invariant
            i <= n,
            n == terminal.args@.len(),
            text_bindings(variables.texts@) == argument_bindings(title@, command@),
            flag_bindings(variables.flags@) == Seq::<(Seq<char>, bool)>::empty(),
            out@.len() == i,
            forall|j: int|
                0 <= j < i ==> renders(
                    #[trigger] terminal.args@[j]@,
                    argument_bindings(title@, command@),
                    Seq::empty(),
                ) && Some(out@[j]@) == template_output(
                    terminal_template_name(),
                    terminal.args@[j]@,
                    argument_bindings(title@, command@),
                    Seq::empty(),
                ),
        decreases n - i,
    {
        match render(terminal.args[i].as_str(), &variables) {
            Ok(s) => {
                out.push(s);
            },
            Err(e) => {
                assert(terminal.args@[i as int] == terminal.args[i as int]);
                return Err(e);
            },
        }
        i = i + 1;
    }
    Ok(out)
}

} // verus!
