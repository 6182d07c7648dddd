use nautilus_ovpn::provider::menu::is_ovpn_uri;

#[test]
fn menu_is_offered_for_ovpn_files_in_any_case() {
    assert!(is_ovpn_uri("file:///home/u/vpn.ovpn"));
    assert!(is_ovpn_uri("smb://server/share/Office.OVPN"));
    assert!(is_ovpn_uri(".ovpn"));
    assert!(!is_ovpn_uri("ovpn"));
    assert!(!is_ovpn_uri("file:///home/u/vpn.ovpn.txt"));
    assert!(!is_ovpn_uri("file:///home/u/vpnovpn"));
    assert!(!is_ovpn_uri("file:///täst.ovpñ"));
}
