//! What the HTTP client needs from a profile: base URLs, request URLs, and
//! the session cookie of a login response.
use vstd::prelude::*;

use crate::global_config::GlobalProjectProfile;
use crate::text::{
    is_char, owned, push_str, split_once_char, strip_prefix, trim, trim_end_by, trim_end_char,
    trim_seq, trim_start_by, trim_start_char, first_index_of,
};

verus! {

/// Why a client call cannot be made.
#[derive(PartialEq, Eq, Structural, Debug, Clone, Copy)]
pub enum ClientError {
    /// The profile has neither a console API URL nor a console URL.
    MissingConsoleUrls,
    /// The profile has no API URL.
    MissingApiUrl,
    /// A `set-cookie` header of a login response is not text.
    InvalidCookieHeader,
    /// No `set-cookie` header of a login response holds an `nc_session`.
    SessionNotFound,
}

/// The console API URL of a profile, falling back to its console URL.
pub fn ensure_console_api_url(profile: &GlobalProjectProfile) -> (r: Result<String, ClientError>)
    ensures
        match profile.console_api_url {
            Some(u) => r matches Ok(x) && x@ == u@,
            None => match profile.console_url {
                Some(u) => r matches Ok(x) && x@ == u@,
                None => r == Err::<String, ClientError>(ClientError::MissingConsoleUrls),
            },
        },
{
    if let Some(u) = &profile.console_api_url {
        return Ok(owned(u.as_str()));
    }
    if let Some(u) = &profile.console_url {
        return Ok(owned(u.as_str()));
    }
    Err(ClientError::MissingConsoleUrls)
}

/// The console URL of a profile, falling back to its console API URL.
pub fn ensure_console_url(profile: &GlobalProjectProfile) -> (r: Result<String, ClientError>)
    ensures
        match profile.console_url {
            Some(u) => r matches Ok(x) && x@ == u@,
            None => match profile.console_api_url {
                Some(u) => r matches Ok(x) && x@ == u@,
                None => r == Err::<String, ClientError>(ClientError::MissingConsoleUrls),
            },
        },
{
    if let Some(u) = &profile.console_url {
        return Ok(owned(u.as_str()));
    }
    if let Some(u) = &profile.console_api_url {
        return Ok(owned(u.as_str()));
    }
    Err(ClientError::MissingConsoleUrls)
}

/// The API URL of a profile.
pub fn ensure_api_url(profile: &GlobalProjectProfile) -> (r: Result<String, ClientError>)
    ensures
        match profile.api_url {
            Some(u) => r matches Ok(x) && x@ == u@,
            None => r == Err::<String, ClientError>(ClientError::MissingApiUrl),
        },
{
    match &profile.api_url {
        Some(u) => Ok(owned(u.as_str())),
        None => Err(ClientError::MissingApiUrl),
    }
}

/// A base URL without trailing slashes.
pub fn client_base_url(base_url: &str) -> (r: String)
    ensures
        r@ == trim_end_by(base_url@, is_char('/')),
{
    trim_end_char(base_url, '/')
}

/// The URL of `path` under a base URL that has no trailing slash.
pub fn request_url(base_url: &str, path: &str) -> (r: String)
    ensures
        r@ == base_url@ + "/"@ + trim_start_by(path@, is_char('/')),
{
    let mut out = owned(base_url);
    push_str(&mut out, "/");
    let p = trim_start_char(path, '/');
    push_str(&mut out, p.as_str());
    out
}

/// The URL of the e-mail login endpoint under a base URL.
pub fn login_url(base_url: &str) -> (r: String)
    ensures
        r@ == trim_end_by(base_url@, is_char('/')) + "/sessions/email"@,
{
    let mut out = trim_end_char(base_url, '/');
    push_str(&mut out, "/sessions/email");
    out
}

/// The `nc_session` value a `set-cookie` header carries, if any.
pub open spec fn cookie_session(header: Seq<char>) -> Option<Seq<char>> {
    let cookie = trim_seq(header);
    if "nc_session="@.is_prefix_of(cookie) {
        let raw = cookie.skip("nc_session="@.len() as int);
        let first = match first_index_of(raw, ';') {
            Some(i) => raw.take(i),
            None => raw,
        };
        let session = trim_seq(first);
        if session.len() > 0 {
            Some(session)
        } else {
            None
        }
    } else {
        None
    }
}

/// The session found in the first `n` headers, read in order; a header that
/// is not text (`None`) stops the search.
pub open spec fn session_in_headers(headers: Seq<Option<String>>, n: int) -> Result<
    Seq<char>,
    ClientError,
>
    decreases n,
{
    if n <= 0 {
        Err(ClientError::SessionNotFound)
    } else {
        match session_in_headers(headers, n - 1) {
            Ok(s) => Ok(s),
            Err(ClientError::SessionNotFound) => match headers[n - 1] {
                None => Err(ClientError::InvalidCookieHeader),
                Some(h) => match cookie_session(h@) {
                    Some(s) => Ok(s),
                    None => Err(ClientError::SessionNotFound),
                },
            },
            Err(e) => Err(e),
        }
    }
}

proof fn lemma_session_stable(headers: Seq<Option<String>>, k: int, n: int)
    requires
        k <= n,
        !(session_in_headers(headers, k) == Err::<Seq<char>, ClientError>(
            ClientError::SessionNotFound,
        )),
    ensures
        session_in_headers(headers, n) == session_in_headers(headers, k),
    decreases n - k,
{
    if k < n {
        lemma_session_stable(headers, k, n - 1);
    }
}

/// The `nc_session` of a login response, from its `set-cookie` headers in
/// order (`None` for a header that is not text).
pub fn extract_nc_session(headers: &Vec<Option<String>>) -> (r: Result<String, ClientError>)
    ensures
        match r {
            Ok(s) => session_in_headers(headers@, headers@.len() as int) == Ok::<
                Seq<char>,
                ClientError,
            >(s@),
            Err(e) => session_in_headers(headers@, headers@.len() as int) == Err::<
                Seq<char>,
                ClientError,
            >(e),
        },
{
    let mut i: usize = 0;
    while i < headers.len()
        invariant
            i <= headers.len(),
            session_in_headers(headers@, i as int) == Err::<Seq<char>, ClientError>(
                ClientError::SessionNotFound,
            ),
        decreases headers.len() - i,
    {
        match &headers[i] {
            None => {
                proof {
                    lemma_session_stable(headers@, i + 1, headers@.len() as int);
                }
                return Err(ClientError::InvalidCookieHeader);
            },
            Some(h) => {
                let cookie = trim(h.as_str());
                if let Some(raw) = strip_prefix(cookie.as_str(), "nc_session=") {
                    let (first, _) = split_once_char(raw.as_str(), ';');
                    let session = trim(first.as_str());
                    if !session.as_str().is_empty() {
                        proof {
                            lemma_session_stable(headers@, i + 1, headers@.len() as int);
                        }
                        return Ok(session);
                    }
                }
            },
        }
        i = i + 1;
    }
    Err(ClientError::SessionNotFound)
}

} // verus!
