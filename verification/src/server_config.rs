//! The dedicated server's configuration: defaults, which file to read,
//! the checks on it, and the startup banner.
use vstd::prelude::*;
use crate::scores::GameConfig;
use crate::server::ServerPorts;
use crate::text::{decimal, push_all, push_char, push_decimal, string_from, to_chars};

verus! {

/// All server settings; every field of the file is optional.
pub struct ServerConfig {
    /// UDP port for native clients.
    pub port: u16,
    /// WebTransport port for browser clients.
    pub web_port: u16,
    /// Address of the map archive sent to joining clients.
    pub map_url: Option<String>,
    /// Kills that end the round.
    pub kill_limit: u32,
    /// TLS certificate chain (PEM file path) for WebTransport.
    pub cert: Option<String>,
    /// TLS private key (PEM file path) for WebTransport.
    pub key: Option<String>,
}

impl Default for ServerConfig {
    fn default() -> (c: Self)
        ensures
            c.port == 7777,
            c.web_port == 7778,
            c.map_url is None,
            c.kill_limit == 20,
            c.cert is None,
            c.key is None,
    {
        ServerConfig { port: 7777, web_port: 7778, map_url: None, kill_limit: 20, cert: None, key: None }
    }
}

/// Where the configuration comes from.
pub enum ConfigSource {
    /// Read and parse this file.
    File(String),
    /// No file: the built-in defaults.
    Defaults,
    /// Stop with this message.
    Fail(String),
}

/// The configuration file to look at: the first command-line argument, or
/// `server_config.toml`.
pub fn config_path(explicit: &Option<String>) -> (p: String)
    ensures
        explicit is Some ==> p@ == explicit->0@,
        explicit is None ==> p@ == "server_config.toml"@,
{
    match explicit {
        Some(p) => p.clone(),
        None => string_from("server_config.toml"),
    }
}

/// Where the configuration comes from, given whether the file exists: an
/// existing file is read; a missing file named on the command line is an
/// error; otherwise the defaults are used.
pub fn config_source(explicit: &Option<String>, exists: bool) -> (s: ConfigSource)
    ensures
        exists ==> s is File && s->File_0@ == config_path_of(explicit),
        !exists && explicit is Some ==> s is Fail && s->Fail_0@ == "ERROR: config file '"@
            + explicit->0@ + "' not found."@,
        !exists && explicit is None ==> s is Defaults,
{
    let path = config_path(explicit);
    if exists {
        return ConfigSource::File(path);
    }
    if explicit.is_some() {
        let mut m = string_from("ERROR: config file '");
        push_all(&mut m, path.as_str());
        push_all(&mut m, "' not found.");
        return ConfigSource::Fail(m);
    }
    ConfigSource::Defaults
}

/// The configuration file's path as characters.
pub open spec fn config_path_of(explicit: &Option<String>) -> Seq<char> {
    match explicit {
        Some(p) => p@,
        None => "server_config.toml"@,
    }
}

/// The message when the file cannot be read.
pub fn read_error_message(path: &str, reason: &str) -> (m: String)
    ensures
        m@ == "ERROR: could not read config file '"@ + path@ + "': "@ + reason@,
{
    let mut m = string_from("ERROR: could not read config file '");
    push_all(&mut m, path);
    push_all(&mut m, "': ");
    push_all(&mut m, reason);
    m
}

/// The message when the file cannot be parsed.
pub fn parse_error_message(path: &str, reason: &str) -> (m: String)
    ensures
        m@ == "ERROR: failed to parse config file '"@ + path@ + "': "@ + reason@,
{
    let mut m = string_from("ERROR: failed to parse config file '");
    push_all(&mut m, path);
    push_all(&mut m, "': ");
    push_all(&mut m, reason);
    m
}

/// The certificate and the key must be given together or not at all.
pub fn check_tls_pair(config: &ServerConfig) -> (r: Result<(), String>)
    ensures
        (config.cert is Some) == (config.key is Some) ==> r is Ok,
        (config.cert is Some) != (config.key is Some) ==> r is Err && r->Err_0@
            == "ERROR: 'cert' and 'key' must both be set or both be absent in the config."@,
{
    if config.cert.is_some() != config.key.is_some() {
        return Err(
            string_from("ERROR: 'cert' and 'key' must both be set or both be absent in the config."),
        );
    }
    Ok(())
}

/// The round settings the configuration gives.
pub fn game_config(config: &ServerConfig) -> (g: GameConfig)
    ensures
        g.kill_limit == config.kill_limit,
{
    GameConfig { kill_limit: config.kill_limit }
}

/// The ports the configuration gives.
pub fn server_ports(config: &ServerConfig) -> (p: ServerPorts)
    ensures
        p.udp == config.port,
        p.web == config.web_port,
{
    ServerPorts { udp: config.port, web: config.web_port }
}

/// The lines of the startup banner.
pub fn startup_banner(ports: &ServerPorts) -> (lines: Vec<String>)
    ensures
        lines@.len() == 6,
        lines@[0]@ == "==========================================="@,
        lines@[1]@ == " RustShooter dedicated server is running  "@,
        lines@[2]@ == "==========================================="@,
        lines@[3]@ == " UDP  (native clients)  : [::]:"@ + decimal(ports.udp as nat),
        lines@[4]@ == " WebTransport (browser) : [::]:"@ + decimal(ports.web as nat),
        lines@[5]@ == "==========================================="@,
{
    let mut lines: Vec<String> = Vec::new();
    lines.push(string_from("==========================================="));
    lines.push(string_from(" RustShooter dedicated server is running  "));
    lines.push(string_from("==========================================="));
    let mut udp = string_from(" UDP  (native clients)  : [::]:");
    push_decimal(&mut udp, ports.udp as u64);
    lines.push(udp);
    let mut web = string_from(" WebTransport (browser) : [::]:");
    push_decimal(&mut web, ports.web as u64);
    lines.push(web);
    lines.push(string_from("==========================================="));
    lines
}

/// `s` without its colons.
pub open spec fn without_colons(s: Seq<char>) -> Seq<char>
    decreases s.len(),
{
    if s.len() == 0 {
        Seq::empty()
    } else if s.last() == ':' {
        without_colons(s.drop_last())
    } else {
        without_colons(s.drop_last()).push(s.last())
    }
}

/// A certificate digest printed as colon-separated hexadecimal pairs, with
/// the colons removed (the form browser builds are given).
pub fn cert_digest(dotted: &str) -> (d: String)
    ensures
        d@ == without_colons(dotted@),
{
    let v = to_chars(dotted);
    let mut d = String::new();
    let mut i: usize = 0;
    while i < v.len()
        invariant
            i <= v.len(),
            d@ == without_colons(v@.take(i as int)),
        decreases v.len() - i,
    {
        assert(v@.take(i + 1).drop_last() =~= v@.take(i as int));
        if v[i] != ':' {
            push_char(&mut d, v[i]);
        }
        i = i + 1;
    }
    assert(v@.take(v.len() as int) =~= v@);
    d
}

} // verus!
