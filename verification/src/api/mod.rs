//! What the library knows of the Elvanto API: the client's settings, the
//! rules for reading an answer's envelope, and the records it returns.
pub mod raw;
pub mod paging;
pub mod service_songs;

use vstd::prelude::*;
use crate::api::raw::ApiError;
use crate::error::CliError;
use crate::textops::{debug_quoted, debug_str, push_char, to_owned};

verus! {

/// The address of the Elvanto API used when none is given.
pub const DEFAULT_BASE_URL: &'static str = "https://api.elvanto.com/v1";

/// The settings requests to the Elvanto API are made with: the API key and
/// the base address. The HTTP connection itself is opened by the program.
pub struct Client {
    base_url: String,
    api_key: String,
}

/// What `redacted_key` shows of an API key: keys of at most eight characters
/// become as many `*`; longer keys keep their first and last four characters
/// around an ellipsis.
pub open spec fn redact_spec(key: Seq<char>) -> Seq<char> {
    if key.len() <= 8 {
        Seq::new(key.len(), |i: int| '*')
    } else {
        key.take(4) + seq!['\u{2026}'] + key.skip(key.len() - 4)
    }
}

/// An API key with all but its ends hidden (see `redact_spec`).
pub fn redact_key(key: &str) -> (r: String)
    ensures
        r@ == redact_spec(key@),
{
    let n = key.unicode_len();
    if n <= 8 {
        let mut out = String::new();
        let mut i: usize = 0;
        while i < n
            invariant
                i <= n,
                out@ =~= Seq::new(i as nat, |j: int| '*'),
            decreases n - i,
        {
            push_char(&mut out, '*');
            i = i + 1;
        }
        out
    } else {
        let mut out = to_owned(key.substring_char(0, 4));
        push_char(&mut out, '\u{2026}');
        out.append(key.substring_char(n - 4, n));
        proof {
            assert(out@ =~= redact_spec(key@));
        }
        out
    }
}

impl Client {
    /// The key requests are made with.
    pub closed spec fn key(&self) -> Seq<char> {
        self.api_key@
    }

    /// The base address requests go to.
    pub closed spec fn base(&self) -> Seq<char> {
        self.base_url@
    }

    /// A client for the public Elvanto API.
    pub fn new(api_key: String) -> (r: Result<Client, CliError>)
        ensures
            api_key@.len() == 0 ==> (r matches Err(CliError::Usage(m)) && m@
                == "ELVANTO_API_KEY is empty"@),
            api_key@.len() > 0 ==> (r matches Ok(c) && c.key() == api_key@ && c.base()
                == DEFAULT_BASE_URL@),
    {
        Self::with_base_url(api_key, to_owned(DEFAULT_BASE_URL))
    }

    /// A client for the API at `base_url`; an empty key is a usage error.
    pub fn with_base_url(api_key: String, base_url: String) -> (r: Result<Client, CliError>)
        ensures
            api_key@.len() == 0 ==> (r matches Err(CliError::Usage(m)) && m@
                == "ELVANTO_API_KEY is empty"@),
            api_key@.len() > 0 ==> (r matches Ok(c) && c.key() == api_key@ && c.base()
                == base_url@),
    {
        if api_key.unicode_len() == 0 {
            return Err(CliError::Usage(to_owned("ELVANTO_API_KEY is empty")));
        }
        Ok(Client { base_url, api_key })
    }

    /// The key shown with all but its ends hidden.
    pub fn redacted_key(&self) -> (r: String)
        ensures
            r@ == redact_spec(self.key()),
    {
        redact_key(self.api_key.as_str())
    }

    /// The base address requests go to.
    pub fn base_url(&self) -> (r: &str)
        ensures
            r@ == self.base(),
    {
        self.base_url.as_str()
    }

    /// The key requests are made with.
    pub fn api_key(&self) -> (r: &str)
        ensures
            r@ == self.key(),
    {
        self.api_key.as_str()
    }
}

/// How an answer's envelope reads, by its `status` field.
#[derive(Debug, Clone, Copy, PartialEq, Eq, Structural)]
pub enum EnvelopeStatus {
    /// `"ok"`: the payload is the answer.
    Payload,
    /// `"error"`: the `error` object says what went wrong.
    Failure,
    /// Anything else, or no status.
    Unexpected,
}

/// The reading of a `status` field.
pub open spec fn envelope_status_spec(status: Option<Seq<char>>) -> EnvelopeStatus {
    match status {
        Some(s) => if s == "ok"@ {
            EnvelopeStatus::Payload
        } else if s == "error"@ {
            EnvelopeStatus::Failure
        } else {
            EnvelopeStatus::Unexpected
        },
        None => EnvelopeStatus::Unexpected,
    }
}

/// Reads the `status` field of an answer (`None` when it is missing or not
/// a string).
pub fn envelope_status(status: Option<&str>) -> (r: EnvelopeStatus)
    ensures
        r == envelope_status_spec(match status {
            Some(s) => Some(s@),
            None => None,
        }),
{
    match status {
        Some(s) => if crate::textops::str_eq(s, "ok") {
            EnvelopeStatus::Payload
        } else if crate::textops::str_eq(s, "error") {
            EnvelopeStatus::Failure
        } else {
            EnvelopeStatus::Unexpected
        },
        None => EnvelopeStatus::Unexpected,
    }
}

/// The error for an error envelope.
pub fn api_error(e: ApiError) -> (r: CliError)
    ensures
        r == (CliError::Api { code: e.code, message: e.message }),
{
    CliError::Api { code: e.code, message: e.message }
}

/// The message for an answer whose status is neither `ok` nor `error`: the
/// status as `{:?}` shows an `Option<&str>`.
pub open spec fn unexpected_status_message(status: Option<Seq<char>>) -> Seq<char> {
    match status {
        Some(s) => "unexpected status: Some("@ + debug_str(s) + ")"@,
        None => "unexpected status: None"@,
    }
}

/// The error for an answer whose status is neither `ok` nor `error`.
pub fn unexpected_status(status: Option<&str>) -> (r: CliError)
    ensures
        r matches CliError::Network(m) && m@ == unexpected_status_message(match status {
            Some(s) => Some(s@),
            None => None,
        }),
{
    match status {
        Some(s) => {
            let mut m = to_owned("unexpected status: Some(");
            let q = debug_quoted(s);
            m.append(q.as_str());
            m.append(")");
            CliError::Network(m)
        },
        None => CliError::Network(to_owned("unexpected status: None")),
    }
}

} // verus!
