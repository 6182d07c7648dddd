use nautilus_ovpn::ovpn_parser::patch_legacy_provider;

#[test]
fn injects_missing_directives() {
    let input = "client\nremote vpn.example.com 1194\n<ca>\nBEGIN CERT DATA\n</ca>\n";
    let patched = patch_legacy_provider(input);
    assert!(patched.starts_with("providers legacy default\ntls-cert-profile legacy\n"));
    assert!(patched.contains("<ca>\nBEGIN CERT DATA\n</ca>"));
}

#[test]
fn leaves_existing_directives_untouched() {
    let input = "providers legacy default\ntls-cert-profile legacy\nclient\n";
    let patched = patch_legacy_provider(input);
    assert_eq!(patched, input);
}

#[test]
fn ignores_commented_directives() {
    let input = "# providers legacy default\nclient\n";
    let patched = patch_legacy_provider(input);
    assert!(patched.starts_with("providers legacy default\ntls-cert-profile legacy\n"));
}

#[test]
fn only_injects_the_missing_one() {
    let input = "providers legacy default\nclient\n";
    let patched = patch_legacy_provider(input);
    assert_eq!(
        patched,
        "tls-cert-profile legacy\nproviders legacy default\nclient\n"
    );
}

#[test]
fn patching_twice_changes_nothing_more() {
    for input in [
        "",
        "client\n",
        "providers legacy default\n",
        "tls-cert-profile legacy",
        "<ca>\nproviders x\n</ca>\n",
        "  ; tls-cert-profile legacy\r\nclient\r\n",
    ] {
        let once = patch_legacy_provider(input);
        let twice = patch_legacy_provider(&once);
        assert_eq!(once, twice);
        assert!(once.ends_with(input));
    }
}

#[test]
fn directives_inside_inline_blocks_do_not_count() {
    let input = "<tls-auth>\nproviders legacy default\ntls-cert-profile legacy\n</tls-auth>\n";
    let patched = patch_legacy_provider(input);
    assert_eq!(
        patched,
        format!("providers legacy default\ntls-cert-profile legacy\n{input}")
    );
}

#[test]
fn single_line_inline_element_does_not_open_a_block() {
    let input = "<ca>data</ca>\nproviders legacy default\ntls-cert-profile legacy\n";
    assert_eq!(patch_legacy_provider(input), input);
}

#[test]
fn indented_and_crlf_directives_count() {
    let input = "\t providers legacy default\r\n  tls-cert-profile   legacy \r\n";
    assert_eq!(patch_legacy_provider(input), input);
}

#[test]
fn empty_file_gets_both_directives() {
    assert_eq!(
        patch_legacy_provider(""),
        "providers legacy default\ntls-cert-profile legacy\n"
    );
}

#[test]
fn directive_must_be_the_first_token() {
    let input = "xproviders legacy\nsetenv providers\n";
    assert_eq!(
        patch_legacy_provider(input),
        format!("providers legacy default\ntls-cert-profile legacy\n{input}")
    );
}
