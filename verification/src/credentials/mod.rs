//! VPN credentials and connection options: what is stored in the keyring,
//! what the options dialog hands back, and the order in which looking up,
//! prompting and storing happen.

pub mod payload;
pub mod prompt;

use vstd::prelude::*;

verus! {

/// Credentials and options for one VPN configuration.
pub struct VpnCredentials {
    pub username: String,
    pub password: String,
    pub private_key_password: String,
    pub legacy_auth: bool,
}

/// The mathematical value of [`VpnCredentials`].
pub struct CredentialsView {
    pub username: Seq<char>,
    pub password: Seq<char>,
    pub private_key_password: Seq<char>,
    pub legacy_auth: bool,
}

impl View for VpnCredentials {
    type V = CredentialsView;

    open spec fn view(&self) -> CredentialsView {
        CredentialsView {
            username: self.username@,
            password: self.password@,
            private_key_password: self.private_key_password@,
            legacy_auth: self.legacy_auth,
        }
    }
}

pub open spec fn credentials_view(c: Option<VpnCredentials>) -> Option<CredentialsView> {
    match c {
        Some(c) => Some(c@),
        None => None,
    }
}

/// Seconds after which a dialog prefilled from the keyring connects on its
/// own.
pub const AUTO_CONNECT_DELAY_SECONDS: i32 = 5;

impl VpnCredentials {
    /// A field-by-field copy.
    pub fn duplicate(&self) -> (r: VpnCredentials)
        ensures
            r == *self,
    {
        VpnCredentials {
            username: self.username.clone(),
            password: self.password.clone(),
            private_key_password: self.private_key_password.clone(),
            legacy_auth: self.legacy_auth,
        }
    }
}

/// Which result of a keyring search holds the stored credentials, given how
/// many unlocked and locked items matched: the first unlocked item, and none
/// when any matching item is locked or no unlocked item matched.
pub fn stored_item_index(unlocked: usize, locked: usize) -> (r: Option<usize>)
    ensures
        r == (if locked == 0 && unlocked > 0 {
            Some(0usize)
        } else {
            None
        }),
{
    if locked != 0 || unlocked == 0 {
        None
    } else {
        Some(0)
    }
}

/// What the options dialog hands back when the user connects.
pub struct CredentialPrompt {
    pub credentials: VpnCredentials,
    pub save: bool,
}

/// The outside work that obtaining credentials asks for next.
pub enum CredentialAction {
    /// Look up stored credentials for the configuration in the keyring.
    LookUpStored,
    /// Show the options dialog, prefilled with what the keyring held.
    Prompt { stored: Option<VpnCredentials>, auto_connect_delay_seconds: i32, requires_user_pass: bool },
    /// Store these credentials in the keyring.
    Store { credentials: VpnCredentials },
    /// Done: hand this result to the caller.
    Finish { result: Result<Option<VpnCredentials>, String> },
}

/// The outcome of the outside work that the last action asked for.
pub enum CredentialEvent {
    LookedUp { lookup: Result<Option<VpnCredentials>, String> },
    Prompted { answer: Result<Option<CredentialPrompt>, String> },
    Stored { outcome: Result<(), String> },
}

/// Where obtaining credentials for one activation stands.
pub enum CredentialFlow {
    AwaitingLookup { requires_user_pass: bool },
    AwaitingPrompt,
    AwaitingStore { credentials: VpnCredentials },
    Finished,
}

impl CredentialFlow {
    /// The event that answers the action the flow is waiting on.
    pub open spec fn expects(&self, event: &CredentialEvent) -> bool {
        match (self, event) {
            (CredentialFlow::AwaitingLookup { .. }, CredentialEvent::LookedUp { .. }) => true,
            (CredentialFlow::AwaitingPrompt, CredentialEvent::Prompted { .. }) => true,
            (CredentialFlow::AwaitingStore { .. }, CredentialEvent::Stored { .. }) => true,
            _ => false,
        }
    }

    /// The number of steps the flow can still take.
    pub open spec fn steps_left(&self) -> nat {
        match self {
            CredentialFlow::AwaitingLookup { .. } => 3,
            CredentialFlow::AwaitingPrompt => 2,
            CredentialFlow::AwaitingStore { .. } => 1,
            CredentialFlow::Finished => 0,
        }
    }

    /// Obtaining credentials starts with a keyring lookup.
    pub fn start(requires_user_pass: bool) -> (r: (CredentialFlow, CredentialAction))
        ensures
            r.0 == (CredentialFlow::AwaitingLookup { requires_user_pass }),
            r.1 is LookUpStored,
    {
        (CredentialFlow::AwaitingLookup { requires_user_pass }, CredentialAction::LookUpStored)
    }

    /// The next state and action once the awaited outside work is done.
    ///
    /// Any error of the outside work ends the flow with that error. The
    /// dialog is always shown, prefilled with what the keyring held; a
    /// cancelled dialog ends with `Ok(None)`. Credentials are stored only
    /// when the user asked for it, and are returned once stored.
    pub fn step(self, event: CredentialEvent) -> (r: (CredentialFlow, CredentialAction))
        requires
            self.expects(&event),
        ensures
            r.0.steps_left() < self.steps_left(),
            r.1 is Finish <==> r.0 is Finished,
            match (self, event) {
                (
                    CredentialFlow::AwaitingLookup { requires_user_pass },
                    CredentialEvent::LookedUp { lookup },
                ) => match lookup {
                    Err(e) => r.1 == (CredentialAction::Finish { result: Err(e) }),
                    Ok(stored) => r.0 is AwaitingPrompt && r.1 == (CredentialAction::Prompt {
                        stored,
                        auto_connect_delay_seconds: AUTO_CONNECT_DELAY_SECONDS,
                        requires_user_pass,
                    }),
                },
                (CredentialFlow::AwaitingPrompt, CredentialEvent::Prompted { answer }) => match answer {
                    Err(e) => r.1 == (CredentialAction::Finish { result: Err(e) }),
                    Ok(None) => r.1 == (CredentialAction::Finish { result: Ok(None) }),
                    Ok(Some(prompt)) => if prompt.save {
                        &&& r.0 == (CredentialFlow::AwaitingStore { credentials: prompt.credentials })
                        &&& r.1 == (CredentialAction::Store { credentials: prompt.credentials })
                    } else {
                        r.1 == (CredentialAction::Finish { result: Ok(Some(prompt.credentials)) })
                    },
                },
                (CredentialFlow::AwaitingStore { credentials }, CredentialEvent::Stored { outcome }) => match outcome {
                    Err(e) => r.1 == (CredentialAction::Finish { result: Err(e) }),
                    Ok(()) => r.1 == (CredentialAction::Finish { result: Ok(Some(credentials)) }),
                },
                _ => false,
            },
    {
        match (self, event) {
            (
                CredentialFlow::AwaitingLookup { requires_user_pass },
                CredentialEvent::LookedUp { lookup },
            ) => match lookup {
                Err(e) => (CredentialFlow::Finished, CredentialAction::Finish { result: Err(e) }),
                Ok(stored) => (
                    CredentialFlow::AwaitingPrompt,
                    CredentialAction::Prompt {
                        stored,
                        auto_connect_delay_seconds: AUTO_CONNECT_DELAY_SECONDS,
                        requires_user_pass,
                    },
                ),
            },
            (CredentialFlow::AwaitingPrompt, CredentialEvent::Prompted { answer }) => match answer {
                Err(e) => (CredentialFlow::Finished, CredentialAction::Finish { result: Err(e) }),
                Ok(None) => (CredentialFlow::Finished, CredentialAction::Finish { result: Ok(None) }),
                Ok(Some(prompt)) => {
                    if prompt.save {
                        let copy = prompt.credentials.duplicate();
                        (
                            CredentialFlow::AwaitingStore { credentials: prompt.credentials },
                            CredentialAction::Store { credentials: copy },
                        )
                    } else {
                        (
                            CredentialFlow::Finished,
                            CredentialAction::Finish { result: Ok(Some(prompt.credentials)) },
                        )
                    }
                },
            },
            (CredentialFlow::AwaitingStore { credentials }, CredentialEvent::Stored { outcome }) => match outcome {
                Err(e) => (CredentialFlow::Finished, CredentialAction::Finish { result: Err(e) }),
                Ok(()) => (
                    CredentialFlow::Finished,
                    CredentialAction::Finish { result: Ok(Some(credentials)) },
                ),
            },
            // Excluded by `expects`: an event answers the action that was asked for.
            _ => (CredentialFlow::Finished, CredentialAction::LookUpStored),
        }
    }
}

} // verus!
