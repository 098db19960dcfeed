//! Where the API key comes from, and what a key given at login must be.
use vstd::prelude::*;
use crate::error::CliError;
use crate::textops::{to_owned, trim, trim_seq};

verus! {

/// Where the API key was found.
#[derive(Debug, Clone, Copy, PartialEq, Eq, Structural)]
pub enum Source {
    /// The `ELVANTO_API_KEY` environment variable.
    Env,
    /// The OS keyring.
    Keyring,
    /// Nowhere.
    Missing,
}

/// The label shown for a key source.
pub open spec fn source_label(s: Source) -> Seq<char> {
    match s {
        Source::Env => "env (ELVANTO_API_KEY)"@,
        Source::Keyring => "keyring"@,
        Source::Missing => "none"@,
    }
}

impl Source {
    /// The label shown for this source.
    pub fn label(&self) -> (r: &'static str)
        ensures
            r@ == source_label(*self),
    {
        match self {
            Source::Env => "env (ELVANTO_API_KEY)",
            Source::Keyring => "keyring",
            Source::Missing => "none",
        }
    }
}

/// A present, non-empty text.
pub open spec fn usable(k: Option<Seq<char>>) -> bool {
    k matches Some(s) && s.len() > 0
}

/// The key to use and where it came from: the environment variable when it
/// is set and not empty, else the stored key when there is a non-empty one.
pub fn discover_key(env: Option<String>, stored: Option<String>) -> (r: (Source, Option<String>))
    ensures
        usable(crate::domain::person::opt_view(env)) ==> r.0 == Source::Env && r.1 == env,
        !usable(crate::domain::person::opt_view(env)) && usable(crate::domain::person::opt_view(stored)) ==> r.0
            == Source::Keyring && r.1 == stored,
        !usable(crate::domain::person::opt_view(env)) && !usable(crate::domain::person::opt_view(stored)) ==> r.0
            == Source::Missing && r.1 is None,
{
    match env {
        Some(k) => {
            if k.unicode_len() > 0 {
                return (Source::Env, Some(k));
            }
        },
        None => {},
    }
    match stored {
        Some(k) => {
            if k.unicode_len() > 0 {
                (Source::Keyring, Some(k))
            } else {
                (Source::Missing, None)
            }
        },
        None => (Source::Missing, None),
    }
}

/// The key commands run with: the environment variable when set and not
/// empty, else the stored key when not empty; otherwise a usage error.
pub fn resolve_api_key(env: Option<String>, stored: Option<String>) -> (r: Result<String, CliError>)
    ensures
        usable(crate::domain::person::opt_view(env)) ==> r == Ok::<String, CliError>(env->Some_0),
        !usable(crate::domain::person::opt_view(env)) && usable(crate::domain::person::opt_view(stored)) ==> r
            == Ok::<String, CliError>(stored->Some_0),
        !usable(crate::domain::person::opt_view(env)) && !usable(crate::domain::person::opt_view(stored)) ==> (r matches Err(
            CliError::Usage(m),
        ) && m@ == "no API key found; set ELVANTO_API_KEY or run `elvanto auth login`"@),
{
    match discover_key(env, stored) {
        (_, Some(k)) => Ok(k),
        (_, None) => Err(
            CliError::Usage(to_owned("no API key found; set ELVANTO_API_KEY or run `elvanto auth login`")),
        ),
    }
}

/// The key to store at login: the entered text without surrounding
/// whitespace; an empty key is a usage error.
pub fn login_key(entered: &str) -> (r: Result<String, CliError>)
    ensures
        trim_seq(entered@).len() > 0 ==> (r matches Ok(k) && k@ == trim_seq(entered@)),
        trim_seq(entered@).len() == 0 ==> (r matches Err(CliError::Usage(m)) && m@ == "API key is empty"@),
{
    let t = trim(entered);
    if t.unicode_len() == 0 {
        Err(CliError::Usage(to_owned("API key is empty")))
    } else {
        Ok(to_owned(t))
    }
}

} // verus!
