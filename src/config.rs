use vstd::prelude::*;
use std::collections::HashMap;

verus! {

#[verifier::external_type_specification]
#[verifier::external_body]
pub struct ExYamlValue(serde_yaml::Value);

/// Whether `c` is an ASCII decimal digit.
pub open spec fn is_digit(c: char) -> bool {
    '0' <= c <= '9'
}

/// The number that a run of decimal digits writes.
pub open spec fn decimal_value(d: Seq<char>) -> int
    decreases d.len(),
{
    if d.len() == 0 {
        0
    } else {
        decimal_value(d.drop_last()) * 10 + (d.last() as int - '0' as int)
    }
}

/// An unsigned number as std's integer parsing reads it: an optional `+`,
/// then one or more decimal digits, with no other character, and a value no
/// larger than `max`.
pub open spec fn parse_unsigned(s: Seq<char>, max: int) -> Option<int> {
    let d = if s.len() > 0 && s[0] == '+' {
        s.drop_first()
    } else {
        s
    };
    if d.len() > 0 && (forall|i: int| 0 <= i < d.len() ==> is_digit(#[trigger] d[i]))
        && decimal_value(d) <= max {
        Some(decimal_value(d))
    } else {
        None
    }
}

/// Relies on `u16::from_str`: a decimal number with an optional `+` that fits
/// in 16 bits, and an error for anything else.
#[verifier::external_body]
fn parse_u16(s: &str) -> (r: Option<u16>)
    ensures
        match r {
            Some(n) => parse_unsigned(s@, 0xffff) == Some(n as int),
            None => parse_unsigned(s@, 0xffff) is None,
        },
{
    s.parse::<u16>().ok()
}

/// Relies on `u32::from_str`: a decimal number with an optional `+` that fits
/// in 32 bits, and an error for anything else.
#[verifier::external_body]
fn parse_u32(s: &str) -> (r: Option<u32>)
    ensures
        match r {
            Some(n) => parse_unsigned(s@, 0xffff_ffff) == Some(n as int),
            None => parse_unsigned(s@, 0xffff_ffff) is None,
        },
{
    s.parse::<u32>().ok()
}

/// The bytes in one unit of `max_msg_size` (a megabyte).
pub const BYTES_PER_MB: u64 = 1048576;

/// The settings of one process.
pub struct Config {
    pub host: String,
    pub port: u16,
    pub route: String,
    pub ssl: bool,
    /// The largest message, in megabytes.
    pub max_msg_size: u32,
    /// The other keys of the settings file's `websocket` section.
    pub extra: HashMap<String, serde_yaml::Value>,
}

/// A settings file, as read.
pub struct RootConfig {
    pub websocket: Option<WebSocketConfig>,
}

/// The `websocket` section of a settings file: each key may be absent.
pub struct WebSocketConfig {
    pub host: Option<String>,
    pub port: Option<u16>,
    pub route: Option<String>,
    pub ssl: Option<bool>,
    pub max_msg_size: Option<u32>,
    pub extra: HashMap<String, serde_yaml::Value>,
}

/// The value when one is given, else the fallback.
pub open spec fn or_else<T>(o: Option<T>, fallback: T) -> T {
    match o {
        Some(v) => v,
        None => fallback,
    }
}

/// The `websocket` section of the settings file, if there is one.
pub open spec fn section(file: Option<RootConfig>) -> Option<WebSocketConfig> {
    match file {
        Some(root) => root.websocket,
        None => None,
    }
}

/// A number from the environment, when the variable is set and parses;
/// otherwise the value that stood before.
pub open spec fn env_number(v: Option<String>, max: int, current: int) -> int {
    match v {
        Some(s) => match parse_unsigned(s@, max) {
            Some(n) => n,
            None => current,
        },
        None => current,
    }
}

impl Config {
    /// The built-in settings.
    pub fn defaults() -> (r: Config)
        ensures
            r.host@ == "0.0.0.0"@,
            r.port == 8181,
            r.route@ == "/core"@,
            r.ssl == false,
            r.max_msg_size == 25,
            r.extra@ == Map::<String, serde_yaml::Value>::empty(),
    {
        Config {
            host: "0.0.0.0".to_string(),
            port: 8181,
            route: "/core".to_string(),
            ssl: false,
            max_msg_size: 25,
            extra: HashMap::new(),
        }
    }

    /// Lays the settings file's `websocket` section over `config`: each key
    /// that the section gives replaces the value, and its other keys become
    /// `extra`. Without such a section `config` is returned as it is.
    pub fn apply_config(root_config: RootConfig, config: Config) -> (r: Config)
        ensures
            match root_config.websocket {
                None => r == config,
                Some(ws) => {
                    &&& r.host == or_else(ws.host, config.host)
                    &&& r.port == or_else(ws.port, config.port)
                    &&& r.route == or_else(ws.route, config.route)
                    &&& r.ssl == or_else(ws.ssl, config.ssl)
                    &&& r.max_msg_size == or_else(ws.max_msg_size, config.max_msg_size)
                    &&& r.extra == ws.extra
                },
            },
    {
        match root_config.websocket {
            None => config,
            Some(ws) => Config {
                host: match ws.host {
                    Some(h) => h,
                    None => config.host,
                },
                port: match ws.port {
                    Some(p) => p,
                    None => config.port,
                },
                route: match ws.route {
                    Some(r) => r,
                    None => config.route,
                },
                ssl: match ws.ssl {
                    Some(s) => s,
                    None => config.ssl,
                },
                max_msg_size: match ws.max_msg_size {
                    Some(m) => m,
                    None => config.max_msg_size,
                },
                extra: ws.extra,
            },
        }
    }

    /// Lays the environment's values over `config`: a host replaces the host,
    /// and a port or a size replaces its value when it parses as a number
    /// that fits; one that does not parse is ignored.
    pub fn apply_env(
        config: Config,
        host: Option<String>,
        port: Option<String>,
        max_msg_size: Option<String>,
    ) -> (r: Config)
        ensures
            r.host == or_else(host, config.host),
            r.port as int == env_number(port, 0xffff, config.port as int),
            r.route == config.route,
            r.ssl == config.ssl,
            r.max_msg_size as int == env_number(max_msg_size, 0xffff_ffff, config.max_msg_size as int),
            r.extra == config.extra,
    {
        let mut config = config;
        match host {
            Some(h) => {
                config.host = h;
            },
            None => {},
        }
        match port {
            Some(s) => match parse_u16(s.as_str()) {
                Some(p) => {
                    config.port = p;
                },
                None => {},
            },
            None => {},
        }
        match max_msg_size {
            Some(s) => match parse_u32(s.as_str()) {
                Some(m) => {
                    config.max_msg_size = m;
                },
                None => {},
            },
            None => {},
        }
        config
    }

    /// The settings of the process: the built-in ones, then the settings
    /// file's (when it could be read and parsed), then the environment's.
    pub fn new(
        file: Option<RootConfig>,
        host: Option<String>,
        port: Option<String>,
        max_msg_size: Option<String>,
    ) -> (r: Config)
        ensures
            r.host@ == match host {
                Some(h) => h@,
                None => match section(file) {
                    Some(ws) => match ws.host {
                        Some(h) => h@,
                        None => "0.0.0.0"@,
                    },
                    None => "0.0.0.0"@,
                },
            },
            r.port as int == env_number(
                port,
                0xffff,
                match section(file) {
                    Some(ws) => or_else(ws.port, 8181u16),
                    None => 8181u16,
                } as int,
            ),
            r.route@ == match section(file) {
                Some(ws) => match ws.route {
                    Some(rt) => rt@,
                    None => "/core"@,
                },
                None => "/core"@,
            },
            r.ssl == match section(file) {
                Some(ws) => or_else(ws.ssl, false),
                None => false,
            },
            r.max_msg_size as int == env_number(
                max_msg_size,
                0xffff_ffff,
                match section(file) {
                    Some(ws) => or_else(ws.max_msg_size, 25u32),
                    None => 25u32,
                } as int,
            ),
            r.extra@ == match section(file) {
                Some(ws) => ws.extra@,
                None => Map::<String, serde_yaml::Value>::empty(),
            },
    {
        let base = Config::defaults();
        let layered = match file {
            Some(root) => Config::apply_config(root, base),
            None => base,
        };
        Config::apply_env(layered, host, port, max_msg_size)
    }

    /// The largest message that is relayed, in bytes.
    pub fn max_msg_bytes(&self) -> (r: u64)
        ensures
            r == self.max_msg_size as u64 * BYTES_PER_MB,
    {
        self.max_msg_size as u64 * BYTES_PER_MB
    }
}

} // verus!
