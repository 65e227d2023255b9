use vstd::prelude::*;
use vstd::string::StringExecFns;

use crate::duration::TimeSpan;

verus! {

/// The name the configuration file is stored under.
pub const CONFIG_NAME: &'static str = "mega-cli-rs";

/// The remote API's default origin.
pub const DEFAULT_API_ORIGIN: &'static str = "https://g.api.mega.co.nz/";

/// Authentication configuration: the serialized session string, if a
/// session has been stored.
#[derive(Debug)]
pub struct AuthConfig {
    pub session: Option<String>,
}

impl Default for AuthConfig {
    /// A fresh authentication configuration holds no session.
    fn default() -> (r: AuthConfig)
        ensures
            r.session is None,
    {
        AuthConfig { session: None }
    }
}

/// Configuration for the remote API client, with durations counted in
/// nanoseconds and the origin kept as text.
#[derive(Debug)]
pub struct ClientSettings {
    pub origin: String,
    pub max_retries: usize,
    pub min_retry_delay: TimeSpan,
    pub max_retry_delay: TimeSpan,
    pub timeout: Option<TimeSpan>,
    pub https: bool,
}

impl Default for ClientSettings {
    /// The stock client settings: the default origin, ten retries, delays
    /// between ten milliseconds and five seconds, a ten-second timeout, and
    /// plain transfers (content is already encrypted).
    fn default() -> (r: ClientSettings)
        ensures
            r.origin@ == DEFAULT_API_ORIGIN@,
            r.max_retries == 10,
            r.min_retry_delay.nanos == 10000000,
            r.max_retry_delay.nanos == 5000000000,
            r.timeout == Some(TimeSpan { nanos: 10000000000 }),
            r.https == false,
    {
        ClientSettings {
            origin: String::from_str(DEFAULT_API_ORIGIN),
            max_retries: 10,
            min_retry_delay: TimeSpan { nanos: 10000000 },
            max_retry_delay: TimeSpan { nanos: 5000000000 },
            timeout: Some(TimeSpan { nanos: 10000000000 }),
            https: false,
        }
    }
}

/// Command-line overrides for the client settings: absent fields fall back
/// to the stored configuration.
#[derive(Debug)]
pub struct ClientOverrides {
    pub origin: Option<String>,
    pub max_retries: Option<usize>,
    pub min_retry_delay: Option<TimeSpan>,
    pub max_retry_delay: Option<TimeSpan>,
    pub timeout: Option<TimeSpan>,
    pub https: Option<bool>,
}

/// The settings the client is actually built with: each override wins over
/// the stored value; an absent override leaves the stored value in force.
pub fn effective_settings(overrides: ClientOverrides, base: ClientSettings) -> (r: ClientSettings)
    ensures
        r.origin@ == match overrides.origin {
            Some(o) => o@,
            None => base.origin@,
        },
        r.max_retries == match overrides.max_retries {
            Some(m) => m,
            None => base.max_retries,
        },
        r.min_retry_delay == match overrides.min_retry_delay {
            Some(d) => d,
            None => base.min_retry_delay,
        },
        r.max_retry_delay == match overrides.max_retry_delay {
            Some(d) => d,
            None => base.max_retry_delay,
        },
        r.timeout == match overrides.timeout {
            Some(t) => Some(t),
            None => base.timeout,
        },
        r.https == match overrides.https {
            Some(h) => h,
            None => base.https,
        },
{
    ClientSettings {
        origin: match overrides.origin {
            Some(o) => o,
            None => base.origin,
        },
        max_retries: match overrides.max_retries {
            Some(m) => m,
            None => base.max_retries,
        },
        min_retry_delay: match overrides.min_retry_delay {
            Some(d) => d,
            None => base.min_retry_delay,
        },
        max_retry_delay: match overrides.max_retry_delay {
            Some(d) => d,
            None => base.max_retry_delay,
        },
        timeout: match overrides.timeout {
            Some(t) => Some(t),
            None => base.timeout,
        },
        https: match overrides.https {
            Some(h) => h,
            None => base.https,
        },
    }
}

/// Which stored session to resume: none when running anonymously, the
/// stored one otherwise, if any was stored.
pub fn session_to_resume<'a>(anonymous: bool, auth: &'a AuthConfig) -> (r: Option<&'a String>)
    ensures
        anonymous ==> r is None,
        !anonymous ==> match r {
            Some(s) => auth.session == Some(*s),
            None => auth.session is None,
        },
{
    if anonymous {
        None
    } else {
        match &auth.session {
            Some(s) => Some(s),
            None => None,
        }
    }
}

} // verus!
