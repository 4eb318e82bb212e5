//! Provider API keys live in separate entries of the operating system's
//! credential store and never in the configuration file. An environment
//! variable can bootstrap an empty entry. This module holds the decisions;
//! reading and writing the store is done by the shell.

use vstd::prelude::*;
use crate::text::{concat, trim, trimmed};

verus! {

/// Service name of the credential-store entries.
pub const SERVICE: &'static str = "WhisperOSS";

#[derive(Debug, Clone, Copy, PartialEq, Eq, Structural)]
pub enum Provider {
    Groq,
    Gemini,
}

impl Provider {
    /// Account name of this provider's credential-store entry.
    pub fn account(self) -> (r: &'static str)
        ensures
            self == Provider::Groq ==> r@ == "groq_api_key"@,
            self == Provider::Gemini ==> r@ == "gemini_api_key"@,
    {
        match self {
            Provider::Groq => "groq_api_key",
            Provider::Gemini => "gemini_api_key",
        }
    }

    /// Environment variable that can bootstrap this provider's key.
    pub fn env_var(self) -> (r: &'static str)
        ensures
            self == Provider::Groq ==> r@ == "WHISPEROSS_GROQ_KEY"@,
            self == Provider::Gemini ==> r@ == "GEMINI_API_KEY"@,
    {
        match self {
            Provider::Groq => "WHISPEROSS_GROQ_KEY",
            Provider::Gemini => "GEMINI_API_KEY",
        }
    }

    /// Name used in diagnostic log events.
    pub fn log_name(self) -> (r: &'static str)
        ensures
            self == Provider::Groq ==> r@ == "groq"@,
            self == Provider::Gemini ==> r@ == "gemini"@,
    {
        match self {
            Provider::Groq => "groq",
            Provider::Gemini => "gemini",
        }
    }
}

/// Whether a key value holds anything but white space.
pub open spec fn present(k: Seq<char>) -> bool {
    trim(k).len() > 0
}

fn is_present(k: &str) -> (b: bool)
    ensures
        b == present(k@),
{
    let t = trimmed(k);
    !t.as_str().is_empty()
}

/// Which key to use at startup and whether it should be written to the store:
/// a non-blank stored key wins as it is; otherwise a non-blank environment
/// value is used, trimmed, and flagged for saving; otherwise nothing.
pub fn resolve(store_val: Option<String>, env_val: Option<String>) -> (r: (Option<String>, bool))
    ensures
        match store_val {
            Some(k) if present(k@) => r.0 == Some(k) && !r.1,
            _ => match env_val {
                Some(e) if present(e@) => r.0 matches Some(k) && k@ == trim(e@) && r.1,
                _ => r.0 is None && !r.1,
            },
        },
{
    if let Some(k) = store_val {
        if is_present(k.as_str()) {
            return (Some(k), false);
        }
    }
    match env_val {
        Some(k) => {
            if is_present(k.as_str()) {
                (Some(trimmed(k.as_str())), true)
            } else {
                (None, false)
            }
        },
        None => (None, false),
    }
}

/// The key to use for a dictation: a non-blank value read from the store
/// wins over the in-memory key and is reported as a change when it differs;
/// anything else keeps the in-memory key.
pub fn refreshed_key(current: &str, vault_val: Option<String>) -> (r: (String, bool))
    ensures
        match vault_val {
            Some(v) if present(v@) => r.0@ == v@ && r.1 == (v@ != current@),
            _ => r.0@ == current@ && !r.1,
        },
{
    match vault_val {
        Some(v) => {
            if is_present(v.as_str()) {
                let changed = !crate::text::same_text(v.as_str(), current);
                (v, changed)
            } else {
                (current.to_owned(), false)
            }
        },
        None => (current.to_owned(), false),
    }
}

/// A failed or cleared store read never wipes a working key: if the
/// in-memory key is usable, so is the refreshed one.
pub proof fn lemma_refresh_keeps_usable_key(current: Seq<char>, vault_val: Option<Seq<char>>, result: Seq<char>)
    requires
        present(current),
        match vault_val {
            Some(v) if present(v) => result == v,
            _ => result == current,
        },
    ensures
        present(result),
{
}

/// What loading a key at startup does besides returning it: whether the
/// key is written to the store, and the log event.
pub struct LoadStep {
    pub store: bool,
    pub event: Option<String>,
}

/// The name of this provider in log events.
pub open spec fn log_name_of(p: Provider) -> Seq<char> {
    match p {
        Provider::Groq => "groq"@,
        Provider::Gemini => "gemini"@,
    }
}

/// After [`resolve`] gave `key` and the flag `save`: a key taken from the
/// environment is written to the store when the store can be opened
/// (`has_entry`); the event tells where the key came from, or that there is
/// none.
pub fn load_step(provider: Provider, key: &Option<String>, save: bool, has_entry: bool) -> (s: LoadStep)
    ensures
        s.store == (key is Some && save && has_entry),
        key is Some && save && has_entry ==> (s.event matches Some(e) && e@ == log_name_of(provider)
            + "-key-bootstrapped-from-env"@),
        key is Some && !save ==> (s.event matches Some(e) && e@ == log_name_of(provider)
            + "-key-from-credential-manager"@),
        key is None ==> (s.event matches Some(e) && e@ == log_name_of(provider) + "-key-missing"@),
        key is Some && save && !has_entry ==> s.event is None,
{
    let name = provider.log_name();
    match key {
        Some(_) => if save && has_entry {
            LoadStep { store: true, event: Some(concat(name, "-key-bootstrapped-from-env")) }
        } else if !save {
            LoadStep { store: false, event: Some(concat(name, "-key-from-credential-manager")) }
        } else {
            LoadStep { store: false, event: None }
        },
        None => LoadStep { store: false, event: Some(concat(name, "-key-missing")) },
    }
}

} // verus!
