use nautilus_ovpn::staging::parser::requires_auth_user_pass_prompt;

#[test]
fn detects_auth_user_pass_prompt() {
    assert!(requires_auth_user_pass_prompt("client\nauth-user-pass\n"));
    assert!(requires_auth_user_pass_prompt(
        "client\nauth-user-pass # ask\n"
    ));
}

#[test]
fn ignores_auth_user_pass_file() {
    assert!(!requires_auth_user_pass_prompt(
        "client\nauth-user-pass login.txt\n"
    ));
}

#[test]
fn ignores_auth_user_pass_inside_inline_blocks_and_comments() {
    let input = "# auth-user-pass\n<ca>\nauth-user-pass\n</ca>\nclient\n";
    assert!(!requires_auth_user_pass_prompt(input));
}

#[test]
fn first_auth_user_pass_decides() {
    assert!(!requires_auth_user_pass_prompt(
        "auth-user-pass creds.txt\nauth-user-pass\n"
    ));
    assert!(requires_auth_user_pass_prompt(
        "auth-user-pass\nauth-user-pass creds.txt\n"
    ));
}

#[test]
fn semicolon_comment_argument_and_whitespace_variants() {
    assert!(requires_auth_user_pass_prompt("  auth-user-pass ;x\r\n"));
    assert!(requires_auth_user_pass_prompt("\tauth-user-pass\t\r\n"));
    assert!(!requires_auth_user_pass_prompt("; auth-user-pass\n"));
    assert!(!requires_auth_user_pass_prompt("auth-user-passx\n"));
    assert!(!requires_auth_user_pass_prompt(""));
}

#[test]
fn auth_user_pass_after_a_closed_block_counts() {
    assert!(requires_auth_user_pass_prompt(
        "<key>\nsecret\n</key>\nauth-user-pass\n"
    ));
    assert!(requires_auth_user_pass_prompt(
        "<ca>inline</ca>\nauth-user-pass\n"
    ));
}
