//! The settings of the service.
//!
//! The caller reads them from wherever they are kept and hands over what it
//! found. The database address and the shared secret are required; the
//! address to listen on has defaults.
use vstd::prelude::*;
use vstd::string::*;

verus! {

/// What the service needs to start. It holds the secret and so cannot be
/// printed.
#[derive(PartialEq, Eq)]
pub struct Settings {
    /// Where the database is.
    pub database_url: String,
    /// The secret shared with the sender of the webhooks.
    pub secret: String,
    /// The address to listen on: host, a colon, port.
    pub address: String,
}

/// A setting that is required and absent.
#[derive(Debug, Clone, Copy, PartialEq, Eq)]
pub enum ConfigError {
    MissingDatabaseUrl,
    MissingSecret,
}

/// The host to listen on where none is set: every interface.
pub open spec fn default_host() -> Seq<char> {
    "0.0.0.0"@
}

/// The port to listen on where none is set.
pub open spec fn default_port() -> Seq<char> {
    "3000"@
}

/// The address to listen on.
pub open spec fn address_of(host: Option<Seq<char>>, port: Option<Seq<char>>) -> Seq<char> {
    let host = match host {
        Some(h) => h,
        None => default_host(),
    };
    let port = match port {
        Some(p) => p,
        None => default_port(),
    };
    host + ":"@ + port
}

/// The text of an optional setting.
pub open spec fn text_of(setting: Option<String>) -> Option<Seq<char>> {
    match setting {
        Some(s) => Some(s@),
        None => None,
    }
}

/// Puts the settings together, or names the first required one that is
/// absent: the database address is looked for before the secret.
pub fn load(
    database_url: Option<String>,
    secret: Option<String>,
    host: Option<String>,
    port: Option<String>,
) -> (r: Result<Settings, ConfigError>)
    ensures
        match (database_url, secret) {
            (None, _) => r == Err::<Settings, ConfigError>(ConfigError::MissingDatabaseUrl),
            (Some(_), None) => r == Err::<Settings, ConfigError>(ConfigError::MissingSecret),
            (Some(url), Some(key)) => {
                &&& r matches Ok(settings)
                &&& settings.database_url@ == url@
                &&& settings.secret@ == key@
                &&& settings.address@ == address_of(text_of(host), text_of(port))
            },
        },
{
    let database_url = match database_url {
        Some(url) => url,
        None => {
            return Err(ConfigError::MissingDatabaseUrl);
        },
    };
    let secret = match secret {
        Some(key) => key,
        None => {
            return Err(ConfigError::MissingSecret);
        },
    };
    let mut address = match host {
        Some(h) => h,
        None => String::from_str("0.0.0.0"),
    };
    address.append(":");
    match port {
        Some(p) => address.append(p.as_str()),
        None => address.append("3000"),
    }
    Ok(Settings { database_url, secret, address })
}

impl ConfigError {
    /// The message with which the service refuses to start.
    pub fn describe(&self) -> (text: String)
        ensures
            text@ == match self {
                ConfigError::MissingDatabaseUrl => "DATABASE_URL must be set"@,
                ConfigError::MissingSecret => "Missing GITHUB_SECRET Environment Variable"@,
            },
    {
        match self {
            ConfigError::MissingDatabaseUrl => String::from_str("DATABASE_URL must be set"),
            ConfigError::MissingSecret => String::from_str(
                "Missing GITHUB_SECRET Environment Variable",
            ),
        }
    }
}

} // verus!
