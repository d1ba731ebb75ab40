//! The settings of the server, from its command line.
use vstd::prelude::*;
use vstd::slice::slice_to_vec;
use vstd::utf8;

use crate::server::config::{Config, ConfigView};

verus! {

/// The path of the log where none is told.
pub const DEFAULT_LOG: &'static str = "/var/log/bit-tunnel/server.log";

/// The key where none is told.
pub const DEFAULT_KEY: &'static str = "123456";

/// The values of the options on the command line; all but the address to listen on may be absent.
#[derive(Debug)]
pub struct Options {
    /// `-l`, the address to listen on.
    pub listen: String,
    /// `--log`, the path of the log.
    pub log: Option<String>,
    /// `-k`, the key.
    pub key: Option<String>,
}

/// What the server starts with.
#[derive(Debug)]
pub struct Settings {
    pub config: Config,
    pub log_path: String,
}

/// The text of an option, or its default.
pub open spec fn or_default(option: Option<String>, default: Seq<char>) -> Seq<char> {
    match option {
        Some(text) => text@,
        None => default,
    }
}

/// What an option says counts; the default counts only without it.
pub proof fn law_told_text_is_taken(told: String, default: Seq<char>)
    ensures
        or_default(Some(told), default) == told@,
        or_default(None, default) == default,
{
}

fn text_of(option: Option<String>, default: &str) -> (text: String)
    ensures
        text@ == or_default(option, default@),
{
    match option {
        Some(text) => text,
        None => default.to_owned(),
    }
}

impl Options {
    /// The settings that the options ask for.
    pub fn settings(self) -> (settings: Settings)
        ensures
            settings.config@ == (ConfigView {
                key: utf8::encode_utf8(or_default(self.key, DEFAULT_KEY@)),
                listen_address: self.listen@,
            }),
            settings.log_path@ == or_default(self.log, DEFAULT_LOG@),
    {
        let key: String = text_of(self.key, DEFAULT_KEY);
        let key: Vec<u8> = slice_to_vec(key.as_str().as_bytes());
        let log_path: String = text_of(self.log, DEFAULT_LOG);
        Settings { config: Config::new(key, self.listen), log_path }
    }
}

} // verus!
