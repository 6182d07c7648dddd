use nautilus_ovpn::credentials::prompt::{
    auto_connect_enabled, connect_result, countdown_tick, CountdownTick,
};
use nautilus_ovpn::credentials::{
    stored_item_index, CredentialAction, CredentialEvent, CredentialFlow, CredentialPrompt, VpnCredentials,
    AUTO_CONNECT_DELAY_SECONDS,
};

fn creds(username: &str) -> VpnCredentials {
    VpnCredentials {
        username: username.to_string(),
        password: "pw".to_string(),
        private_key_password: String::new(),
        legacy_auth: false,
    }
}

#[test]
fn flow_prompts_with_stored_credentials_and_stores_on_request() {
    let (flow, action) = CredentialFlow::start(true);
    assert!(matches!(action, CredentialAction::LookUpStored));
    let (flow, action) = flow.step(CredentialEvent::LookedUp {
        lookup: Ok(Some(creds("stored"))),
    });
    match action {
        CredentialAction::Prompt {
            stored,
            auto_connect_delay_seconds,
            requires_user_pass,
        } => {
            assert_eq!(stored.unwrap().username, "stored");
            assert_eq!(auto_connect_delay_seconds, AUTO_CONNECT_DELAY_SECONDS);
            assert_eq!(auto_connect_delay_seconds, 5);
            assert!(requires_user_pass);
        }
        _ => panic!("expected the dialog"),
    }
    let (flow, action) = flow.step(CredentialEvent::Prompted {
        answer: Ok(Some(CredentialPrompt {
            credentials: creds("alice"),
            save: true,
        })),
    });
    match &action {
        CredentialAction::Store { credentials } => assert_eq!(credentials.username, "alice"),
        _ => panic!("expected storing"),
    }
    let (flow, action) = flow.step(CredentialEvent::Stored { outcome: Ok(()) });
    assert!(matches!(flow, CredentialFlow::Finished));
    match action {
        CredentialAction::Finish { result } => {
            assert_eq!(result.unwrap().unwrap().username, "alice")
        }
        _ => panic!("expected the end"),
    }
}

#[test]
fn flow_ends_on_cancel_without_saving_and_on_errors() {
    let (flow, _) = CredentialFlow::start(false);
    let (flow, _) = flow.step(CredentialEvent::LookedUp { lookup: Ok(None) });
    let (_, action) = flow.step(CredentialEvent::Prompted { answer: Ok(None) });
    assert!(matches!(action, CredentialAction::Finish { result: Ok(None) }));

    let (flow, _) = CredentialFlow::start(false);
    let (_, action) = flow.step(CredentialEvent::LookedUp {
        lookup: Err("no bus".to_string()),
    });
    match action {
        CredentialAction::Finish { result: Err(e) } => assert_eq!(e, "no bus"),
        _ => panic!("lookup errors end the flow"),
    }

    let (flow, _) = CredentialFlow::start(true);
    let (flow, _) = flow.step(CredentialEvent::LookedUp { lookup: Ok(None) });
    let (flow, action) = flow.step(CredentialEvent::Prompted {
        answer: Ok(Some(CredentialPrompt {
            credentials: creds("bob"),
            save: false,
        })),
    });
    assert!(matches!(flow, CredentialFlow::Finished));
    match action {
        CredentialAction::Finish { result } => assert_eq!(result.unwrap().unwrap().username, "bob"),
        _ => panic!("unsaved credentials are returned directly"),
    }

    let (flow, _) = CredentialFlow::start(true);
    let (flow, _) = flow.step(CredentialEvent::LookedUp { lookup: Ok(None) });
    let (flow, _) = flow.step(CredentialEvent::Prompted {
        answer: Ok(Some(CredentialPrompt {
            credentials: creds("carol"),
            save: true,
        })),
    });
    let (_, action) = flow.step(CredentialEvent::Stored {
        outcome: Err("keyring locked".to_string()),
    });
    assert!(matches!(action, CredentialAction::Finish { result: Err(_) }));
}

#[test]
fn connect_requires_username_and_password_only_when_needed() {
    let error = connect_result(true, "  ", "pw", "", false, false)
        .err()
        .expect("blank user name");
    assert_eq!(error, "VPN username and password must not be empty");
    assert!(connect_result(true, "alice", "", "", false, false).is_err());

    let prompt = connect_result(true, "  alice \t", " pw ", "pk", true, true)
        .unwrap()
        .unwrap();
    assert_eq!(prompt.credentials.username, "alice");
    assert_eq!(prompt.credentials.password, " pw ");
    assert_eq!(prompt.credentials.private_key_password, "pk");
    assert!(prompt.credentials.legacy_auth);
    assert!(prompt.save);

    let prompt = connect_result(false, "", "", "", false, false).unwrap().unwrap();
    assert!(prompt.credentials.username.is_empty());
    assert!(!prompt.save);
}

#[test]
fn countdown_connects_after_the_delay_unless_changed() {
    assert!(auto_connect_enabled(true, 5));
    assert!(!auto_connect_enabled(false, 5));
    assert!(!auto_connect_enabled(true, 0));

    let mut remaining = 5;
    let mut ticks = 0;
    loop {
        ticks += 1;
        match countdown_tick(false, remaining) {
            CountdownTick::Continue { remaining: next } => {
                assert_eq!(next, remaining - 1);
                remaining = next;
            }
            CountdownTick::Connect => break,
            CountdownTick::Stop => panic!("nothing changed"),
        }
    }
    assert_eq!(ticks, 5);
    assert!(matches!(countdown_tick(true, 3), CountdownTick::Stop));
}

#[test]
fn keyring_item_is_read_only_when_nothing_is_locked() {
    assert_eq!(stored_item_index(2, 0), Some(0));
    assert_eq!(stored_item_index(1, 1), None);
    assert_eq!(stored_item_index(0, 0), None);
    assert_eq!(stored_item_index(0, 3), None);
}
