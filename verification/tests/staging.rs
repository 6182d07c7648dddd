use nautilus_ovpn::staging::{
    display_name, is_companion_file, is_root_path, stable_session_id, staging_dir_path,
};

#[test]
fn session_id_is_stable_and_changes_with_config_content() {
    let id = stable_session_id("file:///vpn/example.ovpn", "client\n");
    assert_eq!(
        id,
        stable_session_id("file:///vpn/example.ovpn", "client\n")
    );
    assert_ne!(
        id,
        stable_session_id("file:///vpn/example.ovpn", "client\nremote other\n")
    );
}

#[test]
fn display_name_prefers_parent_directory_except_at_root() {
    assert_eq!(
        display_name(Some("/vpn/work/example.ovpn"), "example.ovpn"),
        "work"
    );
    assert_eq!(
        display_name(Some("/example.ovpn"), "example.ovpn"),
        "example"
    );
}

#[test]
fn session_id_is_the_hex_sha256_of_uri_zero_and_content() {
    assert_eq!(
        stable_session_id("file:///vpn/example.ovpn", "client\n"),
        "728281c60e55ed0ae5d9708968500962e043f350b1dc02bb3e97c752bfe52f15"
    );
    assert_eq!(
        stable_session_id("a", "b"),
        "59b271ae1bbcb1d31d41929817f4b16fb439eb4f31520b5ad1d5ce98920a7138"
    );
    assert_ne!(stable_session_id("ab", ""), stable_session_id("a", "b"));
}

#[test]
fn display_name_falls_back_to_file_stem() {
    assert_eq!(display_name(None, "office.ovpn"), "office");
    assert_eq!(display_name(None, "noext"), "noext");
    assert_eq!(display_name(Some("relative.ovpn"), "relative.ovpn"), "relative");
    assert_eq!(display_name(Some("/"), "x.ovpn"), "x");
    assert_eq!(display_name(Some("/a/b/"), "b"), "a");
}

#[test]
fn companion_files_are_matched_by_extension_in_any_case() {
    assert!(is_companion_file("client.ovpn"));
    assert!(is_companion_file("CA.CRT"));
    assert!(is_companion_file("user.Key"));
    assert!(is_companion_file("bundle.p12"));
    assert!(is_companion_file("cert.pem"));
    assert!(is_companion_file("login.txt"));
    assert!(is_companion_file(".txt"));
    assert!(!is_companion_file("README"));
    assert!(!is_companion_file("archive.tar.gz"));
    assert!(!is_companion_file("cert.pem.bak"));
    assert!(!is_companion_file("notes.text"));
    assert!(!is_companion_file("x."));
}

#[test]
fn staging_directory_lives_under_tmp() {
    assert_eq!(staging_dir_path("abc"), "/tmp/nm-ovpn-abc");
}

#[test]
fn root_path_is_recognised_like_path_equality() {
    assert!(is_root_path("/"));
    assert!(is_root_path("//"));
    assert!(is_root_path("/./"));
    assert!(is_root_path("/."));
    assert!(!is_root_path(""));
    assert!(!is_root_path("."));
    assert!(!is_root_path("/.."));
    assert!(!is_root_path("/.x"));
    assert!(!is_root_path("/vpn"));
    assert!(!is_root_path("vpn/"));
    assert_eq!(display_name(Some("/./example.ovpn"), "example.ovpn"), "example");
}

#[test]
fn staging_directory_follows_uri_and_content() {
    let a = staging_dir_path(&stable_session_id("file:///vpn/a.ovpn", "client\n"));
    assert_eq!(a, staging_dir_path(&stable_session_id("file:///vpn/a.ovpn", "client\n")));
    assert_ne!(a, staging_dir_path(&stable_session_id("file:///vpn/b.ovpn", "client\n")));
    assert_ne!(a, staging_dir_path(&stable_session_id("file:///vpn/a.ovpn", "client\nx\n")));
    assert!(a.starts_with("/tmp/nm-ovpn-") && a.len() == "/tmp/nm-ovpn-".len() + 64);
}
