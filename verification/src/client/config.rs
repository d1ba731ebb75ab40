//! What the client is told at its start.
use vstd::prelude::*;

verus! {

/// The settings of a client.
#[derive(Debug)]
pub struct Config {
    key: Vec<u8>,
    listen_address: String,
    server_address: String,
    tunnel_max: u32,
}

/// What a [`Config`] says.
#[verifier::ext_equal]
pub struct ConfigView {
    pub key: Seq<u8>,
    pub listen_address: Seq<char>,
    pub server_address: Seq<char>,
    pub tunnel_max: u32,
}

impl View for Config {
    type V = ConfigView;

    closed spec fn view(&self) -> ConfigView {
        ConfigView {
            key: self.key@,
            listen_address: self.listen_address@,
            server_address: self.server_address@,
            tunnel_max: self.tunnel_max,
        }
    }
}

impl Config {
    pub fn new(
        key: Vec<u8>,
        listen_address: String,
        server_address: String,
        tunnel_max: u32,
    ) -> (config: Config)
        ensures
            config@ == (ConfigView {
                key: key@,
                listen_address: listen_address@,
                server_address: server_address@,
                tunnel_max,
            }),
    {
        Config { key, listen_address, server_address, tunnel_max }
    }

    pub fn get_key(&self) -> (key: &[u8])
        ensures
            key@ == self@.key,
    {
        self.key.as_slice()
    }

    pub fn get_listen_address(&self) -> (address: &str)
        ensures
            address@ == self@.listen_address,
    {
        self.listen_address.as_str()
    }

    pub fn get_server_address(&self) -> (address: &str)
        ensures
            address@ == self@.server_address,
    {
        self.server_address.as_str()
    }

    pub fn get_tunnel_max(&self) -> (max: u32)
        ensures
            max == self@.tunnel_max,
    {
        self.tunnel_max
    }
}

impl Clone for Config {
    fn clone(&self) -> (config: Config)
        ensures
            config@ == self@,
    {
        let config: Config = Config {
            key: self.key.clone(),
            listen_address: self.listen_address.clone(),
            server_address: self.server_address.clone(),
            tunnel_max: self.tunnel_max,
        };
        assert(config.key@ =~= self.key@);
        config
    }
}

} // verus!
