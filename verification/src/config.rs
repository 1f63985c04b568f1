//! The server configuration: transports, credentials, limits and paths, as
//! the TOML file supplies them.

use vstd::prelude::*;

verus! {

/// One transport's listener settings.
#[derive(Debug, PartialEq)]
pub struct ConnectionConfig {
    pub enabled: bool,
    pub address: String,
    pub port: u16,
    pub tls: bool,
}

/// The TLS material, as paths to a PKCS#8 certificate and key.
#[derive(Debug, PartialEq)]
pub struct TlsConfig {
    pub cert: String,
    pub key: String,
}

impl Default for TlsConfig {
    /// The default TLS material is empty.
    fn default() -> (r: Self)
        ensures
            r.cert@.len() == 0,
            r.key@.len() == 0,
    {
        TlsConfig { cert: String::new(), key: String::new() }
    }
}

/// Everything the server reads at startup.
#[derive(Debug, PartialEq)]
pub struct Config {
    pub tcp: ConnectionConfig,
    pub ws: ConnectionConfig,
    pub tls: Option<TlsConfig>,
    pub autosave_interval: u64,
    pub username: String,
    pub password: String,
    pub max_conns: usize,
    pub max_message_size: usize,
    pub compress_threshold: usize,
}

impl Default for Config {
    /// The defaults written to a fresh configuration file: the framed
    /// transport on, the WebSocket transport off, and the stock limits.
    fn default() -> (r: Self)
        ensures
            r.tcp.enabled && r.tcp.address@ == "0.0.0.0"@ && r.tcp.port == 6380 && !r.tcp.tls,
            !r.ws.enabled && r.ws.address@ == "0.0.0.0"@ && r.ws.port == 6381 && !r.ws.tls,
            r.tls is Some,
            r.autosave_interval == 60,
            r.username@ == "admin"@,
            r.password@ == "password"@,
            r.max_conns == 10000,
            r.max_message_size == 8 * 1024 * 1024,
            r.compress_threshold == 128 * 1204,
    {
        Config {
            tcp: ConnectionConfig {
                enabled: true,
                address: "0.0.0.0".to_owned(),
                port: 6380,
                tls: false,
            },
            ws: ConnectionConfig {
                enabled: false,
                address: "0.0.0.0".to_owned(),
                port: 6381,
                tls: false,
            },
            tls: Option::Some(TlsConfig::default()),
            autosave_interval: 60,
            username: "admin".to_owned(),
            password: "password".to_owned(),
            max_conns: 10000,
            max_message_size: 8 * 1024 * 1024,
            compress_threshold: 128 * 1204,
        }
    }
}

/// A listener may start only with a transport enabled, and TLS only with
/// TLS material configured.
pub fn startup_check(c: &Config) -> (r: bool)
    ensures
        r <==> (c.tcp.enabled || c.ws.enabled) && (((c.tcp.enabled && c.tcp.tls) || (c.ws.enabled
            && c.ws.tls)) ==> c.tls is Some),
{
    if !c.tcp.enabled && !c.ws.enabled {
        return false;
    }
    if (c.tcp.enabled && c.tcp.tls) || (c.ws.enabled && c.ws.tls) {
        matches!(c.tls, Option::Some(_))
    } else {
        true
    }
}

} // verus!
