//! Server settings: the listening port and whether drafts are served, read
//! from the raw values of the `PORT` and `INCLUDE_DRAFTS` settings.
use vstd::prelude::*;

use crate::bindings::{debug_quoted, debug_text, parse_u16, parsed_u16, utf8_text};

verus! {

/// The port served on when none is configured.
pub const DEFAULT_PORT: u16 = 3000;

/// Settings of the server.
#[derive(Debug)]
pub struct ServerConfig {
    pub port: u16,
}

impl ServerConfig {
    /// The settings for a configured port, if one was given, else for the
    /// default port.
    pub fn new(configured_port: Option<u16>) -> (c: ServerConfig)
        ensures
            c.port == match configured_port {
                Some(p) => p,
                None => DEFAULT_PORT,
            },
    {
        match configured_port {
            Some(port) => ServerConfig { port },
            None => ServerConfig { port: DEFAULT_PORT },
        }
    }
}

impl Default for ServerConfig {
    fn default() -> (c: ServerConfig)
        ensures
            c.port == DEFAULT_PORT,
    {
        ServerConfig { port: DEFAULT_PORT }
    }
}

/// Why a setting cannot be used. The raw values are the setting's bytes.
#[derive(Debug)]
pub enum ConfigError {
    InvalidPortUnicode(Vec<u8>),
    InvalidPort(std::num::ParseIntError),
    InvalidIncludeDraftsUnicode(Vec<u8>),
    InvalidIncludeDrafts(String),
}

/// The text a configuration error is shown with.
pub open spec fn config_message(e: ConfigError) -> Seq<char> {
    match e {
        ConfigError::InvalidPortUnicode(_) => "PORT is not valid Unicode"@,
        ConfigError::InvalidPort(_) => "PORT must be a valid u16"@,
        ConfigError::InvalidIncludeDraftsUnicode(_) => "INCLUDE_DRAFTS is not valid Unicode"@,
        ConfigError::InvalidIncludeDrafts(value) => "INCLUDE_DRAFTS must be one of: true, 1, false, 0; got "@
            + debug_quoted(value@),
    }
}

impl ConfigError {
    /// The text this error is shown with.
    pub fn message(&self) -> (m: String)
        ensures
            m@ == config_message(*self),
    {
        match self {
            ConfigError::InvalidPortUnicode(_) => "PORT is not valid Unicode".to_owned(),
            ConfigError::InvalidPort(_) => "PORT must be a valid u16".to_owned(),
            ConfigError::InvalidIncludeDraftsUnicode(_) => "INCLUDE_DRAFTS is not valid Unicode".to_owned(),
            ConfigError::InvalidIncludeDrafts(value) => {
                let mut m = "INCLUDE_DRAFTS must be one of: true, 1, false, 0; got ".to_owned();
                let quoted = debug_text(value);
                crate::text::append(&mut m, &quoted);
                m
            },
        }
    }
}

/// The port a raw `PORT` value asks for: the default when there is none,
/// else the value read as text and parsed as a `u16`.
pub open spec fn port_setting(value: Option<Seq<u8>>) -> Option<u16> {
    match value {
        None => Some(DEFAULT_PORT),
        Some(bytes) => if vstd::utf8::valid_utf8(bytes) {
            parsed_u16(vstd::utf8::decode_utf8(bytes))
        } else {
            None
        },
    }
}

/// Reads the port from the raw value of the `PORT` setting.
pub fn parse_server_port(value: Option<Vec<u8>>) -> (r: Result<u16, ConfigError>)
    ensures
        match value {
            None => r == Ok::<u16, ConfigError>(DEFAULT_PORT),
            Some(bytes) => if !vstd::utf8::valid_utf8(bytes@) {
                r matches Err(ConfigError::InvalidPortUnicode(raw)) && raw@ == bytes@
            } else {
                match parsed_u16(vstd::utf8::decode_utf8(bytes@)) {
                    Some(port) => r == Ok::<u16, ConfigError>(port),
                    None => r matches Err(ConfigError::InvalidPort(_)),
                }
            },
        },
        r is Ok <==> port_setting(opt_bytes(value)) is Some,
        r matches Ok(port) ==> port_setting(opt_bytes(value)) == Some(port),
{
    match value {
        None => Ok(DEFAULT_PORT),
        Some(bytes) => {
            let text = match utf8_text(bytes.as_slice()) {
                Ok(text) => text,
                Err(_) => return Err(ConfigError::InvalidPortUnicode(bytes)),
            };
            match parse_u16(text.as_str()) {
                Ok(port) => Ok(port),
                Err(e) => Err(ConfigError::InvalidPort(e)),
            }
        },
    }
}

/// The view of an optional byte vector.
pub open spec fn opt_bytes(value: Option<Vec<u8>>) -> Option<Seq<u8>> {
    match value {
        Some(b) => Some(b@),
        None => None,
    }
}

/// Whether drafts are served, as a raw `INCLUDE_DRAFTS` value asks: `true`
/// or `1` for yes, `false` or `0` for no, and no when the setting is absent.
pub open spec fn drafts_setting(value: Option<Seq<u8>>) -> Option<bool> {
    match value {
        None => Some(false),
        Some(bytes) => if !vstd::utf8::valid_utf8(bytes) {
            None
        } else {
            let text = vstd::utf8::decode_utf8(bytes);
            if text == "true"@ || text == "1"@ {
                Some(true)
            } else if text == "false"@ || text == "0"@ {
                Some(false)
            } else {
                None
            }
        },
    }
}

/// Reads whether drafts are served from the raw value of the
/// `INCLUDE_DRAFTS` setting.
pub fn parse_include_drafts(value: Option<Vec<u8>>) -> (r: Result<bool, ConfigError>)
    ensures
        r is Ok <==> drafts_setting(opt_bytes(value)) is Some,
        r matches Ok(b) ==> drafts_setting(opt_bytes(value)) == Some(b),
        match value {
            None => r == Ok::<bool, ConfigError>(false),
            Some(bytes) => if !vstd::utf8::valid_utf8(bytes@) {
                r matches Err(ConfigError::InvalidIncludeDraftsUnicode(raw)) && raw@ == bytes@
            } else {
                match drafts_setting(Some(bytes@)) {
                    Some(b) => r == Ok::<bool, ConfigError>(b),
                    None => r matches Err(ConfigError::InvalidIncludeDrafts(text)) && text@
                        == vstd::utf8::decode_utf8(bytes@),
                }
            },
        },
{
    match value {
        None => Ok(false),
        Some(bytes) => {
            let text = match utf8_text(bytes.as_slice()) {
                Ok(text) => text,
                Err(_) => return Err(ConfigError::InvalidIncludeDraftsUnicode(bytes)),
            };
            let t = text.as_str();
            if crate::text::str_equal(t, "true") || crate::text::str_equal(t, "1") {
                Ok(true)
            } else if crate::text::str_equal(t, "false") || crate::text::str_equal(t, "0") {
                Ok(false)
            } else {
                Err(ConfigError::InvalidIncludeDrafts(text))
            }
        },
    }
}

} // verus!
