//! Configuration: which role this process plays and how it reaches the
//! rest of the overlay.
//!
//! Reading and writing the configuration file is I/O and lives outside
//! the library; the shapes and the first-run defaults are fixed here.

use vstd::prelude::*;
use vstd::string::StringExecFns;

verus! {

/// Which role this process plays.
#[derive(Debug, Clone, Copy, PartialEq, Eq, Structural)]
pub enum Mode {
    Directory,
    Node,
    Proxy,
}

/// How to reach (or run) the directory authority.
#[derive(Debug)]
pub struct DirectoryConfig {
    pub listen_addr: String,
    pub secret: String,
}

/// How a relay node listens and where it keeps its key.
#[derive(Debug)]
pub struct NodeConfig {
    pub listen_addr: String,
    pub key_file: String,
}

/// Where the local SOCKS5 proxy listens.
#[derive(Debug)]
pub struct ProxyConfig {
    pub listen_addr: String,
}

/// Where the TLS material lives.
#[derive(Debug)]
pub struct TlsConfig {
    pub ca_cert_path: String,
    pub cert_path: String,
    pub key_path: String,
}

/// The whole configuration document.
#[derive(Debug)]
pub struct Config {
    pub mode: Mode,
    pub directory: DirectoryConfig,
    pub node: NodeConfig,
    pub proxy: ProxyConfig,
    pub tls: TlsConfig,
}

/// Shortest shared secret the first-run setup accepts.
pub const MIN_SECRET_LEN: usize = 8;

/// Whether a shared secret is long enough to be accepted at setup.
pub fn secret_is_long_enough(secret: &[u8]) -> (b: bool)
    ensures
        b == (secret@.len() >= MIN_SECRET_LEN),
{
    secret.len() >= MIN_SECRET_LEN
}

/// The configuration the first-run setup produces: the chosen role and
/// network settings, with the conventional file locations filled in.
pub fn build_setup_config(
    mode: Mode,
    directory_addr: String,
    secret: String,
    node_listen_addr: String,
) -> (c: Config)
    ensures
        c.mode == mode,
        c.directory.listen_addr == directory_addr,
        c.directory.secret == secret,
        c.node.listen_addr == node_listen_addr,
        c.node.key_file@ == "node_key"@,
        c.proxy.listen_addr@ == "127.0.0.1:9050"@,
        c.tls.ca_cert_path@ == "cert.pem"@,
        c.tls.cert_path@ == "cert.pem"@,
        c.tls.key_path@ == "key.pem"@,
{
    Config {
        mode,
        directory: DirectoryConfig { listen_addr: directory_addr, secret },
        node: NodeConfig { listen_addr: node_listen_addr, key_file: String::from_str("node_key") },
        proxy: ProxyConfig { listen_addr: String::from_str("127.0.0.1:9050") },
        tls: TlsConfig {
            ca_cert_path: String::from_str("cert.pem"),
            cert_path: String::from_str("cert.pem"),
            key_path: String::from_str("key.pem"),
        },
    }
}

} // verus!
