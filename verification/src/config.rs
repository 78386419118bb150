//! Startup configuration, assembled from the values that the surroundings
//! supply as text.

use crate::envelope::KeyEncryptionKey;
use crate::registry::SharedLinkRegistry;
use vstd::prelude::*;
use vstd::utf8::encode_utf8;

verus! {

/// The port served where none is configured.
pub const DEFAULT_PORT: u16 = 8000;

/// What the process is configured with.
#[derive(Debug, Clone)]
pub struct Config {
    pub database_url: String,
    pub jwt_secret: String,
    pub jwt_max_age: i64,
    pub port: u16,
}

/// What every request handler shares: the configuration, the registry and
/// the key-encryption key, each set once at startup.
pub struct AppState {
    pub env: Config,
    pub registry: SharedLinkRegistry,
    pub key_encryption_key: KeyEncryptionKey,
}

/// Why no configuration could be assembled.
#[derive(Debug, Clone, Copy, PartialEq, Eq, Structural)]
pub enum ConfigError {
    MissingDatabaseUrl,
    MissingJwtSecret,
    MissingJwtMaxAge,
    InvalidPort,
    InvalidJwtMaxAge,
}

/// Mathematical content of a [`Config`].
pub struct ConfigView {
    pub database_url: Seq<char>,
    pub jwt_secret: Seq<char>,
    pub jwt_max_age: i64,
    pub port: u16,
}

impl View for Config {
    type V = ConfigView;

    open spec fn view(&self) -> ConfigView {
        ConfigView {
            database_url: self.database_url@,
            jwt_secret: self.jwt_secret@,
            jwt_max_age: self.jwt_max_age,
            port: self.port,
        }
    }
}

/// Whether a byte is an ASCII decimal digit.
pub open spec fn is_digit(byte: u8) -> bool {
    0x30 <= byte <= 0x39
}

/// The number that a string of decimal digits writes.
pub open spec fn digits_value(digits: Seq<u8>) -> nat
    decreases digits.len(),
{
    if digits.len() == 0 {
        0
    } else {
        digits_value(digits.drop_last()) * 10 + (digits.last() - 0x30) as nat
    }
}

/// The number that a non-empty string of decimal digits writes; `None` for
/// an empty string or one with anything but digits in it.
pub open spec fn magnitude(digits: Seq<u8>) -> Option<nat> {
    if digits.len() > 0 && (forall|i: int| 0 <= i < digits.len() ==> is_digit(#[trigger] digits[i])) {
        Some(digits_value(digits))
    } else {
        None
    }
}

/// The port that a text writes: decimal digits, after an optional `+`,
/// whose number fits 16 bits. No sign `-`, no blanks.
pub open spec fn parsed_port(text: Seq<u8>) -> Option<u16> {
    let digits = if text.len() > 0 && text[0] == 0x2b {
        text.skip(1)
    } else {
        text
    };
    match magnitude(digits) {
        Some(value) => if value <= u16::MAX {
            Some(value as u16)
        } else {
            None
        },
        None => None,
    }
}

/// The number of seconds that a text writes: decimal digits, after an
/// optional `+` or `-`, whose number fits 64 bits with sign. No blanks.
pub open spec fn parsed_seconds(text: Seq<u8>) -> Option<i64> {
    if text.len() > 0 && text[0] == 0x2d {
        match magnitude(text.skip(1)) {
            Some(value) => if value <= 0x8000_0000_0000_0000 {
                Some((-value) as i64)
            } else {
                None
            },
            None => None,
        }
    } else {
        let digits = if text.len() > 0 && text[0] == 0x2b {
            text.skip(1)
        } else {
            text
        };
        match magnitude(digits) {
            Some(value) => if value <= i64::MAX {
                Some(value as i64)
            } else {
                None
            },
            None => None,
        }
    }
}

/// A string of digits writes at least what any of its prefixes writes.
proof fn lemma_digits_value_grows(digits: Seq<u8>, k: int)
    requires
        0 <= k <= digits.len(),
    ensures
        digits_value(digits.subrange(0, k)) <= digits_value(digits),
    decreases digits.len(),
{
    if k == digits.len() {
        assert(digits.subrange(0, k) =~= digits);
    } else {
        lemma_digits_value_grows(digits.drop_last(), k);
        assert(digits.drop_last().subrange(0, k) =~= digits.subrange(0, k));
    }
}

/// Reads the digits of `text` from `start` on as a number no larger than
/// `limit`.
fn parse_magnitude(text: &[u8], start: usize, limit: u64) -> (res: Option<u64>)
    requires
        start <= text@.len(),
        limit >= 9,
    ensures
        res == match magnitude(text@.skip(start as int)) {
            Some(value) => if value <= limit {
                Some(value as u64)
            } else {
                None
            },
            None => None,
        },
{
    let ghost digits = text@.skip(start as int);
    if start == text.len() {
        return None;
    }
    let mut value: u64 = 0;
    let mut i: usize = start;
    while i < text.len()
        invariant
            start <= i <= text@.len(),
            digits == text@.skip(start as int),
            limit >= 9,
            value <= limit,
            value == digits_value(digits.subrange(0, i - start)),
            forall|j: int| 0 <= j < i - start ==> is_digit(#[trigger] digits[j]),
        decreases text@.len() - i,
    {
        let byte = text[i];
        if byte < 0x30 || byte > 0x39 {
            assert(!is_digit(digits[i - start]));
            return None;
        }
        let digit: u64 = (byte - 0x30) as u64;
        proof {
            let next = digits.subrange(0, i - start + 1);
            assert(next.drop_last() =~= digits.subrange(0, i - start));
            assert(next.last() == byte);
            assert(digits_value(next) == value * 10 + digit);
        }
        if value > (limit - digit) / 10 {
            proof {
                lemma_digits_value_grows(digits, i - start + 1);
            }
            return None;
        }
        value = value * 10 + digit;
        i += 1;
    }
    proof {
        assert(digits.subrange(0, i - start) =~= digits);
    }
    Some(value)
}

/// Reads a port number.
pub fn parse_port(text: &str) -> (res: Option<u16>)
    ensures
        res == parsed_port(encode_utf8(text@)),
{
    let bytes = text.as_bytes();
    let start: usize = if bytes.len() > 0 && bytes[0] == 0x2b {
        1
    } else {
        0
    };
    proof {
        assert(bytes@.skip(0) =~= bytes@);
    }
    match parse_magnitude(bytes, start, 65535) {
        Some(value) => Some(value as u16),
        None => None,
    }
}

/// Reads a number of seconds.
pub fn parse_seconds(text: &str) -> (res: Option<i64>)
    ensures
        res == parsed_seconds(encode_utf8(text@)),
{
    let bytes = text.as_bytes();
    proof {
        assert(bytes@.skip(0) =~= bytes@);
    }
    if bytes.len() > 0 && bytes[0] == 0x2d {
        match parse_magnitude(bytes, 1, 0x8000_0000_0000_0000) {
            Some(value) => if value == 0x8000_0000_0000_0000 {
                Some(i64::MIN)
            } else {
                Some(-(value as i64))
            },
            None => None,
        }
    } else {
        let start: usize = if bytes.len() > 0 && bytes[0] == 0x2b {
            1
        } else {
            0
        };
        match parse_magnitude(bytes, start, 0x7fff_ffff_ffff_ffff) {
            Some(value) => Some(value as i64),
            None => None,
        }
    }
}

/// The text of an optional value.
pub open spec fn text_of(value: Option<String>) -> Option<Seq<char>> {
    match value {
        Some(text) => Some(text@),
        None => None,
    }
}

/// The configuration that the supplied values give. The database address,
/// the token secret and the token lifetime must be there; the port is
/// `DEFAULT_PORT` where none is supplied. What is missing is reported before
/// what is malformed, the port before the lifetime.
pub open spec fn assembled(
    database_url: Option<Seq<char>>,
    jwt_secret: Option<Seq<char>>,
    jwt_max_age: Option<Seq<char>>,
    port: Option<Seq<char>>,
) -> Result<ConfigView, ConfigError> {
    if database_url is None {
        Err(ConfigError::MissingDatabaseUrl)
    } else if jwt_secret is None {
        Err(ConfigError::MissingJwtSecret)
    } else if jwt_max_age is None {
        Err(ConfigError::MissingJwtMaxAge)
    } else {
        let port_number = match port {
            Some(text) => parsed_port(encode_utf8(text)),
            None => Some(DEFAULT_PORT),
        };
        if port_number is None {
            Err(ConfigError::InvalidPort)
        } else {
            match parsed_seconds(encode_utf8(jwt_max_age.unwrap())) {
                None => Err(ConfigError::InvalidJwtMaxAge),
                Some(seconds) => Ok(
                    ConfigView {
                        database_url: database_url.unwrap(),
                        jwt_secret: jwt_secret.unwrap(),
                        jwt_max_age: seconds,
                        port: port_number.unwrap(),
                    },
                ),
            }
        }
    }
}

impl ConfigError {
    /// What to tell the operator before the process stops.
    pub fn message(&self) -> (text: &'static str)
        ensures
            text@ == match *self {
                ConfigError::MissingDatabaseUrl => "DATABASE_URL must be set"@,
                ConfigError::MissingJwtSecret => "JWT_SECRET must be set"@,
                ConfigError::MissingJwtMaxAge => "JWT_MAX_AGE must be set"@,
                ConfigError::InvalidPort => "PORT must be a valid number"@,
                ConfigError::InvalidJwtMaxAge => "JWT_MAX_AGE must be a valid number"@,
            },
    {
        match self {
            ConfigError::MissingDatabaseUrl => "DATABASE_URL must be set",
            ConfigError::MissingJwtSecret => "JWT_SECRET must be set",
            ConfigError::MissingJwtMaxAge => "JWT_MAX_AGE must be set",
            ConfigError::InvalidPort => "PORT must be a valid number",
            ConfigError::InvalidJwtMaxAge => "JWT_MAX_AGE must be a valid number",
        }
    }
}

impl Config {
    /// Assembles the configuration from values that are known to give one:
    /// the database address, the token secret and the token lifetime are
    /// there, the lifetime is a number of seconds, and the port, where one
    /// is supplied, is a port number. `check` tells whether they do.
    pub fn new(
        database_url: Option<String>,
        jwt_secret: Option<String>,
        jwt_max_age: Option<String>,
        port: Option<String>,
    ) -> (config: Config)
        requires
            assembled(
                text_of(database_url),
                text_of(jwt_secret),
                text_of(jwt_max_age),
                text_of(port),
            ) is Ok,
        ensures
            Ok::<ConfigView, ConfigError>(config@) == assembled(
                text_of(database_url),
                text_of(jwt_secret),
                text_of(jwt_max_age),
                text_of(port),
            ),
    {
        let database_url = database_url.unwrap();
        let jwt_secret = jwt_secret.unwrap();
        let jwt_max_age = jwt_max_age.unwrap();
        let port = match port {
            Some(text) => parse_port(text.as_str()).unwrap(),
            None => DEFAULT_PORT,
        };
        let seconds = parse_seconds(jwt_max_age.as_str()).unwrap();
        Config { database_url, jwt_secret, jwt_max_age: seconds, port }
    }

    /// Tells whether the values supplied, each as the text it was given in
    /// or `None` where it was not given, give a configuration, and what is
    /// missing or malformed where they give none.
    pub fn check(
        database_url: &Option<String>,
        jwt_secret: &Option<String>,
        jwt_max_age: &Option<String>,
        port: &Option<String>,
    ) -> (res: Result<(), ConfigError>)
        ensures
            res == match assembled(
                text_of(*database_url),
                text_of(*jwt_secret),
                text_of(*jwt_max_age),
                text_of(*port),
            ) {
                Ok(_) => Ok::<(), ConfigError>(()),
                Err(e) => Err::<(), ConfigError>(e),
            },
    {
        if database_url.is_none() {
            return Err(ConfigError::MissingDatabaseUrl);
        }
        if jwt_secret.is_none() {
            return Err(ConfigError::MissingJwtSecret);
        }
        let lifetime = match jwt_max_age {
            Some(text) => text,
            None => {
                return Err(ConfigError::MissingJwtMaxAge);
            },
        };
        let port_is_valid = match port {
            Some(text) => parse_port(text.as_str()).is_some(),
            None => true,
        };
        if !port_is_valid {
            return Err(ConfigError::InvalidPort);
        }
        if parse_seconds(lifetime.as_str()).is_none() {
            return Err(ConfigError::InvalidJwtMaxAge);
        }
        Ok(())
    }
}

} // verus!
