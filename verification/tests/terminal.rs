use nautilus_ovpn::credentials::VpnCredentials;
use nautilus_ovpn::provider::terminal::{
    command_variables, credential_files, render, select_terminal, shell_quote,
    terminal_arguments, TemplateVariables, TerminalConfig, DEFAULT_CONFIG,
};

fn variables(texts: &[(&str, &str)], flags: &[(&str, bool)]) -> TemplateVariables {
    TemplateVariables {
        texts: texts
            .iter()
            .map(|(k, v)| (k.to_string(), v.to_string()))
            .collect(),
        flags: flags.iter().map(|(k, b)| (k.to_string(), *b)).collect(),
    }
}

fn default_command_template() -> String {
    let config: toml::Value = toml::from_str(DEFAULT_CONFIG).expect("default config is valid TOML");
    config["openvpn"]["command"]
        .as_str()
        .expect("default config has an OpenVPN command")
        .to_string()
}

/// Looks the program up in the standard executable directories.
fn command_exists(name: &String) -> bool {
    ["/usr/local/bin", "/usr/bin", "/bin"]
        .iter()
        .any(|directory| std::path::Path::new(directory).join(name).is_file())
}

#[test]
fn default_command_adds_legacy_provider_only_when_requested() {
    let command = default_command_template();
    let with_legacy = render(
        &command,
        &variables(
            &[
                ("staging_dir", "'/tmp/vpn'"),
                ("config_path", "'/tmp/vpn/config.ovpn'"),
                ("auth_path", ""),
                ("private_key_password_path", ""),
                ("log_path", "'/tmp/vpn/openvpn.log'"),
                ("finished_prompt", "'Connection ended. Press Enter to close.'"),
            ],
            &[("legacy_auth", true)],
        ),
    )
    .expect("default command renders");
    let without_legacy = render(
        &command,
        &variables(
            &[
                ("staging_dir", "'/tmp/vpn'"),
                ("config_path", "'/tmp/vpn/config.ovpn'"),
                ("auth_path", ""),
                ("private_key_password_path", ""),
                ("log_path", "'/tmp/vpn/openvpn.log'"),
            ],
            &[("legacy_auth", false)],
        ),
    )
    .expect("default command renders");

    assert!(with_legacy.contains("--providers legacy default"));
    assert!(!without_legacy.contains("--providers legacy default"));
    assert!(!without_legacy.contains("--auth-user-pass"));
}

#[test]
fn selects_the_first_terminal_available_in_path() {
    let terminals = vec![
        TerminalConfig {
            program: "nautilus-ovpn-missing-terminal".to_string(),
            args: Vec::new(),
        },
        TerminalConfig {
            program: "sh".to_string(),
            args: Vec::new(),
        },
    ];

    let terminal =
        select_terminal(&terminals, command_exists).expect("sh is available in the test PATH");
    assert_eq!(terminal.program, "sh");
}

#[test]
fn no_available_terminal_lists_the_programs() {
    let terminals = vec![
        TerminalConfig {
            program: "kitty".to_string(),
            args: Vec::new(),
        },
        TerminalConfig {
            program: "xterm".to_string(),
            args: Vec::new(),
        },
    ];
    let asked = std::cell::RefCell::new(Vec::new());
    let error = select_terminal(&terminals, |p: &String| {
        asked.borrow_mut().push(p.clone());
        false
    })
    .err()
    .expect("nothing is available");
    assert_eq!(
        error,
        "none of the configured terminal programs are available in PATH: kitty, xterm"
    );
    assert_eq!(*asked.borrow(), vec!["kitty".to_string(), "xterm".to_string()]);
    let none: Vec<TerminalConfig> = Vec::new();
    assert_eq!(
        select_terminal(&none, |_: &String| true).err().unwrap(),
        "none of the configured terminal programs are available in PATH: "
    );
}

#[test]
fn stops_asking_after_the_first_available_terminal() {
    let terminals = vec![
        TerminalConfig {
            program: "a".to_string(),
            args: Vec::new(),
        },
        TerminalConfig {
            program: "b".to_string(),
            args: Vec::new(),
        },
        TerminalConfig {
            program: "c".to_string(),
            args: Vec::new(),
        },
    ];
    let asked = std::cell::RefCell::new(Vec::new());
    let chosen = select_terminal(&terminals, |p: &String| {
        asked.borrow_mut().push(p.clone());
        p == "b" || p == "c"
    })
    .unwrap();
    assert_eq!(chosen.program, "b");
    assert_eq!(*asked.borrow(), vec!["a".to_string(), "b".to_string()]);
}

#[test]
fn shell_quote_escapes_single_quotes() {
    assert_eq!(shell_quote("/tmp/vpn"), "'/tmp/vpn'");
    assert_eq!(shell_quote(""), "''");
    assert_eq!(shell_quote("it's"), "'it'\\''s'");
    assert_eq!(shell_quote("a b$c"), "'a b$c'");
    assert_eq!(shell_quote("''"), "''\\'''\\'''");
}

#[test]
fn render_reports_invalid_and_failing_templates() {
    let vars = variables(&[("name", "x")], &[]);
    let invalid = render("{% if %}", &vars).err().expect("syntax error");
    assert!(invalid.starts_with("invalid terminal template: "));
    let failing = render("{{ name | no_such_filter }}", &vars)
        .err()
        .expect("unknown filter");
    assert!(
        failing.starts_with("failed to render terminal template: ")
            || failing.starts_with("invalid terminal template: ")
    );
    assert_eq!(render("hello {{ name }}", &vars).unwrap(), "hello x");
    assert_eq!(render("[{{ missing }}]", &vars).unwrap(), "[]");
}

#[test]
fn credential_files_hold_what_openvpn_reads() {
    let credentials = VpnCredentials {
        username: "alice".to_string(),
        password: "pw".to_string(),
        private_key_password: "key".to_string(),
        legacy_auth: false,
    };
    let files = credential_files(true, Some(&credentials));
    assert_eq!(files.auth.as_deref(), Some("alice\npw\n"));
    assert_eq!(files.private_key_password.as_deref(), Some("key\n"));

    let files = credential_files(false, Some(&credentials));
    assert!(files.auth.is_none());
    assert_eq!(files.private_key_password.as_deref(), Some("key\n"));

    let no_key = VpnCredentials {
        private_key_password: String::new(),
        ..credentials
    };
    let files = credential_files(true, Some(&no_key));
    assert!(files.private_key_password.is_none());

    let files = credential_files(true, None);
    assert!(files.auth.is_none() && files.private_key_password.is_none());
}

#[test]
fn command_variables_quote_paths_and_carry_legacy_flag() {
    let credentials = VpnCredentials {
        username: String::new(),
        password: String::new(),
        private_key_password: String::new(),
        legacy_auth: true,
    };
    let vars = command_variables(
        "/tmp/nm-ovpn-x",
        "/tmp/nm-ovpn-x/my vpn.ovpn",
        None,
        Some("/tmp/nm-ovpn-x/private-key-password.txt"),
        "/tmp/nm-ovpn-x/openvpn.log",
        "Bye, it's over",
        Some(&credentials),
    );
    let lookup = |name: &str| {
        vars.texts
            .iter()
            .find(|(k, _)| k == name)
            .map(|(_, v)| v.clone())
            .unwrap()
    };
    assert_eq!(lookup("staging_dir"), "'/tmp/nm-ovpn-x'");
    assert_eq!(lookup("config_path"), "'/tmp/nm-ovpn-x/my vpn.ovpn'");
    assert_eq!(lookup("auth_path"), "");
    assert_eq!(
        lookup("private_key_password_path"),
        "'/tmp/nm-ovpn-x/private-key-password.txt'"
    );
    assert_eq!(lookup("log_path"), "'/tmp/nm-ovpn-x/openvpn.log'");
    assert_eq!(lookup("finished_prompt"), "'Bye, it'\\''s over'");
    assert_eq!(vars.flags, vec![("legacy_auth".to_string(), true)]);

    let command = render(&default_command_template(), &vars).unwrap();
    assert!(command.contains("pkexec openvpn --providers legacy default --cd '/tmp/nm-ovpn-x'"));
    assert!(command.contains("--askpass '/tmp/nm-ovpn-x/private-key-password.txt'"));
    assert!(!command.contains("--auth-user-pass"));

    let plain = command_variables("/d", "/d/c.ovpn", Some("/d/auth.txt"), None, "/d/l", "x", None);
    assert_eq!(plain.flags, vec![("legacy_auth".to_string(), false)]);
    let command = render(&default_command_template(), &plain).unwrap();
    assert!(command.contains("pkexec openvpn --cd '/d' --config '/d/c.ovpn' --auth-user-pass '/d/auth.txt' 2>&1 | tee '/d/l'"));
}

#[test]
fn terminal_arguments_insert_title_and_command() {
    let terminal = TerminalConfig {
        program: "kitty".to_string(),
        args: vec![
            "--title".to_string(),
            "{{ title }}".to_string(),
            "bash".to_string(),
            "-lc".to_string(),
            "{{ command }}".to_string(),
        ],
    };
    let args = terminal_arguments(&terminal, "work", "echo 'hi'").unwrap();
    assert_eq!(args, vec!["--title", "work", "bash", "-lc", "echo 'hi'"]);

    let broken = TerminalConfig {
        program: "kitty".to_string(),
        args: vec!["ok".to_string(), "{{".to_string(), "{{ x | no_such_filter }}".to_string()],
    };
    assert!(terminal_arguments(&broken, "t", "c")
        .err()
        .unwrap()
        .starts_with("invalid terminal template: "));
}
