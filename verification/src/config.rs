//! Application configuration: the Flickr API credentials, checked as
//! `Config::from_env` checks the two environment variables.

use vstd::prelude::*;

verus! {

/// Application configuration loaded from environment variables.
pub struct Config {
    pub flickr_api_key: String,
    pub flickr_api_secret: String,
}

/// Why the credentials were refused.
#[derive(Debug, Clone, Copy, PartialEq, Eq, Structural)]
pub enum ConfigError {
    /// `FLICKR_API_KEY` is not set.
    MissingApiKey,
    /// `FLICKR_API_SECRET` is not set.
    MissingApiSecret,
    /// One of them is set but empty.
    Empty,
}

/// The message of each refusal.
pub open spec fn config_error_message(e: ConfigError) -> Seq<char> {
    match e {
        ConfigError::MissingApiKey => "FLICKR_API_KEY environment variable not set"@,
        ConfigError::MissingApiSecret => "FLICKR_API_SECRET environment variable not set"@,
        ConfigError::Empty => "FLICKR_API_KEY and FLICKR_API_SECRET must not be empty"@,
    }
}

impl ConfigError {
    /// The message shown for the refusal.
    pub fn message(&self) -> (s: &'static str)
        ensures
            s@ == config_error_message(*self),
    {
        match self {
            ConfigError::MissingApiKey => "FLICKR_API_KEY environment variable not set",
            ConfigError::MissingApiSecret => "FLICKR_API_SECRET environment variable not set",
            ConfigError::Empty => "FLICKR_API_KEY and FLICKR_API_SECRET must not be empty",
        }
    }
}

impl Config {
    /// The configuration from the values of `FLICKR_API_KEY` and
    /// `FLICKR_API_SECRET` (`None` when a variable is unset): both must be set
    /// (the key is checked first) and non-empty.
    pub fn from_values(api_key: Option<String>, api_secret: Option<String>) -> (r: Result<
        Config,
        ConfigError,
    >)
        ensures
            match (api_key, api_secret) {
                (None, _) => r == Err::<Config, ConfigError>(ConfigError::MissingApiKey),
                (Some(_), None) => r == Err::<Config, ConfigError>(ConfigError::MissingApiSecret),
                (Some(k), Some(s)) => if k@.len() == 0 || s@.len() == 0 {
                    r == Err::<Config, ConfigError>(ConfigError::Empty)
                } else {
                    r matches Ok(c) && c.flickr_api_key@ == k@ && c.flickr_api_secret@ == s@
                },
            },
    {
        let key = match api_key {
            Some(k) => k,
            None => {
                return Err(ConfigError::MissingApiKey);
            },
        };
        let secret = match api_secret {
            Some(s) => s,
            None => {
                return Err(ConfigError::MissingApiSecret);
            },
        };
        if key.as_str().unicode_len() == 0 || secret.as_str().unicode_len() == 0 {
            return Err(ConfigError::Empty);
        }
        Ok(Config { flickr_api_key: key, flickr_api_secret: secret })
    }
}

} // verus!
