//! The decisions of the options dialog: what pressing "Verbinden" yields,
//! and how the auto-connect countdown of a dialog prefilled from the
//! keyring proceeds.

use vstd::prelude::*;

use super::{CredentialPrompt, CredentialsView, VpnCredentials};
use crate::text::{chars_of, string_from_range, trim, trim_of};

verus! {

/// The error when credentials are required but missing.
pub open spec fn empty_credentials_message() -> Seq<char> {
    "VPN username and password must not be empty"@
}

/// What pressing "Verbinden" in the options dialog yields for the given
/// entries: the user name is taken without surrounding whitespace; when the
/// configuration requires credentials, an empty user name or password is an
/// error.
pub fn connect_result(
    requires_user_pass: bool,
    username: &str,
    password: &str,
    private_key_password: &str,
    legacy_auth: bool,
    save: bool,
) -> (r: Result<Option<CredentialPrompt>, String>)
    ensures
        if requires_user_pass && (trim_of(username@).len() == 0 || password@.len() == 0) {
            r matches Err(m) && m@ == empty_credentials_message()
        } else {
            &&& r matches Ok(Some(p))
            &&& r->Ok_0->Some_0.credentials@ == (CredentialsView {
                username: trim_of(username@),
                password: password@,
                private_key_password: private_key_password@,
                legacy_auth,
            })
            &&& r->Ok_0->Some_0.save == save
        },
{
    let chars = chars_of(username);
    let trimmed = trim(&chars);
    let username = string_from_range(&trimmed, 0, trimmed.len());
    assert(trimmed@.subrange(0, trimmed@.len() as int) =~= trimmed@);
    if requires_user_pass && (username.as_str().is_empty() || password.is_empty()) {
        return Err("VPN username and password must not be empty".to_owned());
    }
    Ok(
        Some(
            CredentialPrompt {
                credentials: VpnCredentials {
                    username,
                    password: password.to_owned(),
                    private_key_password: private_key_password.to_owned(),
                    legacy_auth,
                },
                save,
            },
        ),
    )
}

/// Whether a dialog counts down to connecting on its own: only when it was
/// prefilled from the keyring and the delay is positive.
pub fn auto_connect_enabled(has_stored_credentials: bool, delay_seconds: i32) -> (r: bool)
    ensures
        r == (has_stored_credentials && delay_seconds > 0),
{
    has_stored_credentials && delay_seconds > 0
}

/// What one tick of the auto-connect countdown does.
pub enum CountdownTick {
    /// The user changed something: stop counting and restore the plain label.
    Stop,
    /// Time is up: connect with what the dialog holds.
    Connect,
    /// Keep counting; `remaining` seconds are left.
    Continue { remaining: i32 },
}

/// What a tick does, `remaining` seconds before it.
pub open spec fn countdown_next(credentials_changed: bool, remaining: int) -> CountdownTick {
    if credentials_changed {
        CountdownTick::Stop
    } else if remaining - 1 <= 0 {
        CountdownTick::Connect
    } else {
        CountdownTick::Continue { remaining: (remaining - 1) as i32 }
    }
}

/// Left alone, a countdown that starts at `delay` seconds keeps counting
/// down one second per tick and connects on tick number `delay`.
pub proof fn lemma_countdown_connects_after_delay(delay: i32, tick: int)
    requires
        1 <= tick <= delay,
    ensures
        countdown_next(false, delay - (tick - 1)) == if tick < delay {
            CountdownTick::Continue { remaining: (delay - tick) as i32 }
        } else {
            CountdownTick::Connect
        },
{
}

/// A dialog the user has changed never connects on its own: whatever time
/// is left, the tick stops the countdown; and only a change stops it.
pub proof fn lemma_changed_dialog_never_connects(credentials_changed: bool, remaining: int)
    ensures
        credentials_changed ==> countdown_next(credentials_changed, remaining) is Stop,
        countdown_next(credentials_changed, remaining) is Stop ==> credentials_changed,
{
}

/// One tick of the countdown, `remaining` seconds before it.
pub fn countdown_tick(credentials_changed: bool, remaining: i32) -> (r: CountdownTick)
    requires
        remaining > i32::MIN,
    ensures
        r == countdown_next(credentials_changed, remaining as int),
        credentials_changed <==> r is Stop,
{
    if credentials_changed {
        return CountdownTick::Stop;
    }
    let next = remaining - 1;
    if next <= 0 {
        CountdownTick::Connect
    } else {
        CountdownTick::Continue { remaining: next }
    }
}

} // verus!
