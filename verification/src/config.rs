//! Startup configuration.
//!
//! A configuration document has two sections: `[server]` with the mode,
//! listen address and port, and `[client]` with the cloud URL and the
//! two enable flags. Loading the document from disk is the caller's
//! business; this module holds the defaults and the translation to a
//! `NodeConfig`, where the mode string is read case-insensitively.

use vstd::prelude::*;
use vstd::string::{StrSliceExecFns, StringExecFns};
use crate::codec::push_char;
use crate::node::{NodeConfig, ServerMode};
use crate::strorder::str_equal;

verus! {

/// The `[server]` section: mode, listen address, port.
#[derive(Debug, Clone)]
pub struct ServerConfig {
    /// `auto`, `server-preferred` or `client-only`.
    pub mode: String,
    /// The address to listen on.
    pub listen: String,
    /// The port to listen on.
    pub port: u16,
}

/// The `[client]` section: cloud URL and the enable flags.
#[derive(Debug, Clone)]
pub struct ClientConfig {
    pub cloud_url: String,
    pub enable_cloud: bool,
    pub enable_lan: bool,
}

/// The whole configuration document.
#[derive(Debug, Clone)]
pub struct Config {
    pub server: ServerConfig,
    pub client: ClientConfig,
}

/// The default listen address.
pub fn default_listen_addr() -> (r: String)
    ensures
        r@ == "127.0.0.1"@,
{
    String::from_str("127.0.0.1")
}

/// The default LAN port.
pub fn default_lan_port() -> (r: u16)
    ensures
        r == 8765,
{
    8765
}

/// The default cloud relay URL.
pub fn default_cloud_url() -> (r: String)
    ensures
        r@ == "ws://localhost:8080"@,
{
    String::from_str("ws://localhost:8080")
}

/// The default for both enable flags.
pub fn default_true() -> (r: bool)
    ensures
        r,
{
    true
}

impl Default for ServerConfig {
    /// Mode `auto`, listening locally on the default port.
    fn default() -> (r: Self)
        ensures
            r.mode@ == "auto"@,
            r.listen@ == "127.0.0.1"@,
            r.port == 8765,
    {
        ServerConfig {
            mode: String::from_str("auto"),
            listen: default_listen_addr(),
            port: default_lan_port(),
        }
    }
}

impl Default for ClientConfig {
    /// The default cloud URL, with cloud and LAN both enabled.
    fn default() -> (r: Self)
        ensures
            r.cloud_url@ == "ws://localhost:8080"@,
            r.enable_cloud,
            r.enable_lan,
    {
        ClientConfig {
            cloud_url: default_cloud_url(),
            enable_cloud: default_true(),
            enable_lan: default_true(),
        }
    }
}

impl Default for Config {
    /// Both sections at their defaults.
    fn default() -> (r: Self)
        ensures
            r.server.mode@ == "auto"@,
            r.server.listen@ == "127.0.0.1"@,
            r.server.port == 8765,
            r.client.cloud_url@ == "ws://localhost:8080"@,
            r.client.enable_cloud,
            r.client.enable_lan,
    {
        Config { server: ServerConfig::default(), client: ClientConfig::default() }
    }
}

/// One character folded to lower case, for the ASCII letters.
pub open spec fn lower_char(c: char) -> char {
    if 65 <= c as u32 <= 90 {
        ((c as u32 + 32) as u8) as char
    } else {
        c
    }
}

/// A string folded to lower case, for the ASCII letters.
pub open spec fn spec_lower(s: Seq<char>) -> Seq<char> {
    s.map_values(|c: char| lower_char(c))
}

/// Fold the ASCII letters of `s` to lower case.
#[verifier::loop_isolation(false)]
pub fn to_ascii_lower(s: &str) -> (r: String)
    ensures
        r@ == spec_lower(s@),
{
    let n: usize = s.unicode_len();
    let mut out = String::new();
    let mut i: usize = 0;
    proof {
        assert(out@ =~= spec_lower(s@.take(0)));
    }
    while i < n
        invariant
            0 <= i <= n,
            n == s@.len(),
            out@ == spec_lower(s@.take(i as int)),
        decreases n - i,
    {
        let c = s.get_char(i);
        let u = c as u32;
        let lc: char = if 65 <= u && u <= 90 {
            ((u + 32) as u8) as char
        } else {
            c
        };
        push_char(&mut out, lc);
        proof {
            assert(lc == lower_char(c));
            assert(s@.take(i as int + 1) =~= s@.take(i as int).push(c));
            assert(out@ =~= spec_lower(s@.take(i as int + 1)));
        }
        i = i + 1;
    }
    proof {
        assert(s@.take(n as int) =~= s@);
    }
    out
}

/// The server mode named by a mode string: `server-preferred` and
/// `client-only` (with `-` or `_`), compared without regard to ASCII
/// case; anything else means `Auto`.
pub open spec fn spec_server_mode(mode: Seq<char>) -> ServerMode {
    let lm = spec_lower(mode);
    if lm == "server-preferred"@ || lm == "server_preferred"@ {
        ServerMode::ServerPreferred
    } else if lm == "client-only"@ || lm == "client_only"@ {
        ServerMode::ClientOnly
    } else {
        ServerMode::Auto
    }
}

impl Config {
    /// The node configuration this document asks for: the mode string
    /// decides the server mode, the rest carries over.
    pub fn to_node_config(&self) -> (r: NodeConfig)
        ensures
            r.cloud_url@ == self.client.cloud_url@,
            r.lan_port == self.server.port,
            r.listen_addr@ == self.server.listen@,
            r.enable_cloud == self.client.enable_cloud,
            r.enable_lan == self.client.enable_lan,
            r.server_mode == spec_server_mode(self.server.mode@),
    {
        let lower = to_ascii_lower(self.server.mode.as_str());
        let server_mode = if str_equal(lower.as_str(), "server-preferred") || str_equal(
            lower.as_str(),
            "server_preferred",
        ) {
            ServerMode::ServerPreferred
        } else if str_equal(lower.as_str(), "client-only") || str_equal(
            lower.as_str(),
            "client_only",
        ) {
            ServerMode::ClientOnly
        } else {
            ServerMode::Auto
        };
        NodeConfig {
            cloud_url: self.client.cloud_url.clone(),
            lan_port: self.server.port,
            listen_addr: self.server.listen.clone(),
            enable_cloud: self.client.enable_cloud,
            enable_lan: self.client.enable_lan,
            server_mode,
        }
    }
}

} // verus!
