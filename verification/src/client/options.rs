//! The settings of the client, from its command line.
use vstd::prelude::*;
use vstd::slice::slice_to_vec;
use vstd::utf8;

use crate::client::config::{Config, ConfigView};
use crate::text;
use crate::text::parse_u32;

verus! {

/// How many tunnels there are where none is told.
pub const DEFAULT_TUNNEL_MAX: u32 = 2;

/// The address to listen on where none is told.
pub const DEFAULT_LISTEN: &'static str = "127.0.0.1:1080";

/// The path of the log where none is told.
pub const DEFAULT_LOG: &'static str = "/var/log/bit-tunnel/client.log";

/// The key where none is told.
pub const DEFAULT_KEY: &'static str = "123456";

/// The values of the options on the command line; all but the address of the server may be absent.
#[derive(Debug)]
pub struct Options {
    /// `-s`, the address of the server.
    pub server: String,
    /// `-m`, the number of tunnels.
    pub tunnel_max: Option<String>,
    /// `-l`, the address to listen on.
    pub listen: Option<String>,
    /// `--log`, the path of the log.
    pub log: Option<String>,
    /// `-k`, the key.
    pub key: Option<String>,
}

/// What the client starts with.
#[derive(Debug)]
pub struct Settings {
    pub config: Config,
    pub log_path: String,
}

/// Why the client does not start.
#[derive(Clone, Copy, Debug, PartialEq, Eq, Structural)]
pub enum OptionError {
    /// The number of tunnels is not a number, or is zero.
    TunnelMax,
}

/// The text of an option, or its default.
pub open spec fn or_default(option: Option<String>, default: Seq<char>) -> Seq<char> {
    match option {
        Some(text) => text@,
        None => default,
    }
}

/// The number of tunnels that an option asks for.
pub open spec fn tunnels(option: Option<String>) -> Option<u32> {
    match option {
        Some(text) => match text::spelled_u32(utf8::encode_utf8(text@)) {
            Some(n) if n > 0 => Some(n),
            _ => None,
        },
        None => Some(DEFAULT_TUNNEL_MAX),
    }
}

/// The number of tunnels is the number that the option spells, whatever number above zero that is;
/// zero, and what spells no number or one that is too large, is refused.
pub proof fn law_told_number_is_taken(told: String, n: nat)
    requires
        utf8::encode_utf8(told@) == text::decimal(n) || utf8::encode_utf8(told@) == seq![0x2bu8]
            + text::decimal(n),
    ensures
        tunnels(Some(told)) == (if 0 < n <= u32::MAX {
            Some(n as u32)
        } else {
            None
        }),
{
    text::law_numbers_are_read_back(n);
}

/// A number of tunnels that is taken from an option is above zero and the number that the option's
/// digits spell.
pub proof fn law_taken_number_was_told(told: String, d: Seq<u8>)
    requires
        d.len() > 0,
        d[0] != 0x2b,
        utf8::encode_utf8(told@) == d || utf8::encode_utf8(told@) == seq![0x2bu8] + d,
    ensures
        tunnels(Some(told)) matches Some(n) ==> n > 0 && n == text::number(d) && text::is_number(d),
{
    text::law_only_numbers_are_read(d);
    assert((seq![0x2bu8] + d).skip(1) =~= d);
}

/// What an option says counts; the default counts only without it.
pub proof fn law_told_text_is_taken(told: String, default: Seq<char>)
    ensures
        or_default(Some(told), default) == told@,
        or_default(None, default) == default,
{
}

fn text_of(option: Option<String>, default: &str) -> (text: String)
    ensures
        text@ == or_default(option, default@),
{
    match option {
        Some(text) => text,
        None => default.to_owned(),
    }
}

impl Options {
    /// The settings that the options ask for.
    pub fn settings(self) -> (settings: Result<Settings, OptionError>)
        ensures
            match settings {
                Ok(settings) => {
                    &&& tunnels(self.tunnel_max) is Some
                    &&& settings.config@ == (ConfigView {
                        key: utf8::encode_utf8(or_default(self.key, DEFAULT_KEY@)),
                        listen_address: or_default(self.listen, DEFAULT_LISTEN@),
                        server_address: self.server@,
                        tunnel_max: tunnels(self.tunnel_max)->0,
                    })
                    &&& settings.log_path@ == or_default(self.log, DEFAULT_LOG@)
                },
                Err(error) => error == OptionError::TunnelMax && tunnels(self.tunnel_max) is None,
            },
    {
        let tunnel_max: u32 = match self.tunnel_max {
            Some(text) => match parse_u32(text.as_str()) {
                Some(n) => n,
                None => 0,
            },
            None => DEFAULT_TUNNEL_MAX,
        };
        if tunnel_max == 0 {
            return Err(OptionError::TunnelMax);
        }
        let key: String = text_of(self.key, DEFAULT_KEY);
        let key: Vec<u8> = slice_to_vec(key.as_str().as_bytes());
        let listen: String = text_of(self.listen, DEFAULT_LISTEN);
        let log_path: String = text_of(self.log, DEFAULT_LOG);
        Ok(Settings { config: Config::new(key, listen, self.server, tunnel_max), log_path })
    }
}

impl OptionError {
    /// What the user is told.
    pub fn message(&self) -> (text: &'static str)
        ensures
            text@ == "tunnel-count must greater than 0"@,
    {
        "tunnel-count must greater than 0"
    }
}

} // verus!
