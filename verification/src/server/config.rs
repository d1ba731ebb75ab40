//! What the server is told at its start.
use vstd::prelude::*;

verus! {

/// The settings of a server.
#[derive(Debug)]
pub struct Config {
    key: Vec<u8>,
    listen_address: String,
}

/// What a [`Config`] says.
#[verifier::ext_equal]
pub struct ConfigView {
    pub key: Seq<u8>,
    pub listen_address: Seq<char>,
}

impl View for Config {
    type V = ConfigView;

    closed spec fn view(&self) -> ConfigView {
        ConfigView { key: self.key@, listen_address: self.listen_address@ }
    }
}

impl Config {
    pub fn new(key: Vec<u8>, listen_address: String) -> (config: Config)
        ensures
            config@ == (ConfigView { key: key@, listen_address: listen_address@ }),
    {
        Config { key, listen_address }
    }

    pub fn get_key(&self) -> (key: &[u8])
        ensures
            key@ == self@.key,
    {
        self.key.as_slice()
    }

    pub fn get_listen_address(&self) -> (address: &str)
        ensures
            address@ == self@.listen_address,
    {
        self.listen_address.as_str()
    }
}

impl Clone for Config {
    fn clone(&self) -> (config: Config)
        ensures
            config@ == self@,
    {
        let config: Config = Config {
            key: self.key.clone(),
            listen_address: self.listen_address.clone(),
        };
        assert(config.key@ =~= self.key@);
        config
    }
}

} // verus!
