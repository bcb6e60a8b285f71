//! What the process was asked to do.
use std::time::Duration;
use vstd::prelude::*;
use crate::addr::{IpAddr, SocketAddr};
use crate::time;

verus! {

/// Server flags and an optional subcommand.
#[derive(Debug)]
pub struct Cli {
    pub config: AppConfig,
    pub command: Option<Command>,
}

/// What to do instead of serving.
#[derive(Debug)]
pub enum Command {
    /// Manage the program as a system service.
    Service(ServiceCommand),
}

/// How much is logged.
#[derive(Debug, Clone, Copy, PartialEq, Eq, Structural)]
pub enum LogLevel {
    Trace,
    Debug,
    Info,
    Warn,
    Error,
}

/// Protocol modes that can be switched on.
#[derive(Debug, Clone, Copy, PartialEq, Eq, Structural)]
pub enum EnableProtocol {
    /// HTTP/3 MASQUE over QUIC.
    H3,
}

/// Protocol modes that can be switched off.
#[derive(Debug, Clone, Copy, PartialEq, Eq, Structural)]
pub enum DisableProtocol {
    /// The TCP listener: SOCKS4, SOCKS5 and HTTP CONNECT together.
    Http,
}

/// The service subcommand.
#[derive(Debug, Clone)]
pub struct ServiceCommand {
    pub action: ServiceAction,
}

/// What to do with the system service.
#[derive(Debug, Clone)]
pub enum ServiceAction {
    /// Write the unit or init script. `bin_path` is where the binary is copied
    /// to first; `args` are handed on to it.
    Install { bin_path: Option<String>, args: Vec<String> },
    /// Start at boot.
    Enable,
    /// Start now.
    Start,
    /// Stop now.
    Stop,
    /// Remove the service and its files.
    Uninstall,
}

/// Server configuration.
#[derive(Debug, Clone)]
pub struct AppConfig {
    pub listen: SocketAddr,
    pub dns_server: Option<SocketAddr>,
    pub handshake_timeout_ms: u64,
    pub connect_timeout_ms: u64,
    pub log_level: LogLevel,
    pub auto_upgrade: Option<String>,
    pub pre_release: bool,
    pub no_loopback: bool,
    pub acl_no_rfc6890: bool,
    pub enable: Option<EnableProtocol>,
    pub key: Option<String>,
    pub cert_chain: Option<String>,
    pub auth_token: Option<String>,
    /// The UDP port of the QUIC listener, on the IP address of `listen`.
    pub udp_port: u16,
    pub ip_pool: String,
    pub disable: Option<DisableProtocol>,
}

/// Why a configuration is refused.
#[derive(Debug, Clone, Copy, PartialEq, Eq, Structural)]
pub enum ConfigError {
    /// The TCP listener is off and nothing else is on.
    NothingListening,
    /// The HTTP/3 mode lacks its key, its certificate chain or its token.
    MissingH3Material,
}

/// The message for [`ConfigError::NothingListening`].
pub const NOTHING_LISTENING: &'static str =
    "--disable http requires --enable h3: nothing would be listening";

/// The message for [`ConfigError::MissingH3Material`].
pub const MISSING_H3_MATERIAL: &'static str =
    "--enable h3 requires --key, --cert-chain and --auth-token to be set";

impl ConfigError {
    /// The message that the user sees.
    pub open spec fn spec_message(self) -> Seq<char> {
        match self {
            ConfigError::NothingListening => NOTHING_LISTENING@,
            ConfigError::MissingH3Material => MISSING_H3_MATERIAL@,
        }
    }

    /// The message that the user sees.
    pub fn message(&self) -> (r: String)
        ensures
            r@ == self.spec_message(),
    {
        match self {
            ConfigError::NothingListening => NOTHING_LISTENING.to_string(),
            ConfigError::MissingH3Material => MISSING_H3_MATERIAL.to_string(),
        }
    }
}

/// The address pool that is used unless another is named.
pub const DEFAULT_IP_POOL: &'static str = "198.18.0.0/15";

impl AppConfig {
    /// Whether the TCP listener is started.
    pub open spec fn tcp_proxy(self) -> bool {
        !(self.disable matches Some(DisableProtocol::Http))
    }

    /// Whether the HTTP/3 listener is started.
    pub open spec fn h3(self) -> bool {
        self.enable matches Some(EnableProtocol::H3)
    }

    /// Whether special-purpose destinations are refused.
    pub open spec fn blocks_special(self) -> bool {
        self.no_loopback || self.acl_no_rfc6890
    }

    /// Whether the HTTP/3 listener has its key, chain and token.
    pub open spec fn has_h3_material(self) -> bool {
        self.key is Some && self.cert_chain is Some && self.auth_token is Some
    }

    /// Whether the configuration leaves something listening.
    pub open spec fn validity(self) -> Result<(), ConfigError> {
        if !self.tcp_proxy() && !self.h3() {
            Err(ConfigError::NothingListening)
        } else {
            Ok(())
        }
    }

    /// How long a client may take to show its protocol.
    pub fn handshake_timeout(&self) -> (r: Duration)
        ensures
            r == time::milliseconds(self.handshake_timeout_ms),
    {
        Duration::from_millis(self.handshake_timeout_ms)
    }

    /// How long an upstream connection may take.
    pub fn connect_timeout(&self) -> (r: Duration)
        ensures
            r == time::milliseconds(self.connect_timeout_ms),
    {
        Duration::from_millis(self.connect_timeout_ms)
    }

    /// Whether special-purpose destinations are refused. The two flags mean the
    /// same.
    pub fn block_special_addrs(&self) -> (r: bool)
        ensures
            r == self.blocks_special(),
    {
        self.no_loopback || self.acl_no_rfc6890
    }

    /// Whether the TCP listener is started.
    pub fn run_tcp_proxy(&self) -> (r: bool)
        ensures
            r == self.tcp_proxy(),
    {
        match self.disable {
            Some(DisableProtocol::Http) => false,
            None => true,
        }
    }

    /// Refuses a configuration that would leave nothing listening.
    pub fn validate(&self) -> (r: Result<(), ConfigError>)
        ensures
            r == self.validity(),
    {
        let h3 = match self.enable {
            Some(EnableProtocol::H3) => true,
            None => false,
        };
        if !self.run_tcp_proxy() && !h3 {
            return Err(ConfigError::NothingListening);
        }
        Ok(())
    }
}

impl Default for AppConfig {
    fn default() -> (r: AppConfig)
        ensures
            r.listen == (SocketAddr { ip: IpAddr::V4(0), port: 1080 }),
            r.dns_server is None,
            r.handshake_timeout_ms == 5000,
            r.connect_timeout_ms == 10000,
            r.log_level == LogLevel::Info,
            r.auto_upgrade is None,
            !r.pre_release,
            !r.blocks_special(),
            r.enable is None,
            r.disable is None,
            r.key is None,
            r.cert_chain is None,
            r.auth_token is None,
            r.udp_port == 443,
            r.ip_pool@ == DEFAULT_IP_POOL@,
    {
        AppConfig {
            listen: SocketAddr { ip: IpAddr::V4(0), port: 1080 },
            dns_server: None,
            handshake_timeout_ms: 5000,
            connect_timeout_ms: 10000,
            log_level: LogLevel::Info,
            auto_upgrade: None,
            pre_release: false,
            no_loopback: false,
            acl_no_rfc6890: false,
            enable: None,
            key: None,
            cert_chain: None,
            auth_token: None,
            udp_port: 443,
            ip_pool: DEFAULT_IP_POOL.to_string(),
            disable: None,
        }
    }
}

// ---------------------------------------------------------------------------
// Laws
// ---------------------------------------------------------------------------

/// The TCP listener runs unless it is switched off, the HTTP/3 listener only when
/// it is switched on, and a configuration is refused exactly when neither runs.
pub proof fn lemma_listeners(config: AppConfig)
    ensures
        config.disable is None ==> config.tcp_proxy(),
        config.disable is Some ==> !config.tcp_proxy(),
        config.enable is None ==> !config.h3(),
        config.enable is Some ==> config.h3(),
        config.validity() == Err::<(), ConfigError>(ConfigError::NothingListening)
            <==> config.disable is Some && config.enable is None,
        config.validity() == Ok::<(), ConfigError>(()) <==> config.disable is None
            || config.enable is Some,
{
}

/// Either of the two flags blocks special-purpose destinations, and nothing else
/// does.
pub proof fn lemma_blocking(config: AppConfig)
    ensures
        config.no_loopback ==> config.blocks_special(),
        config.acl_no_rfc6890 ==> config.blocks_special(),
        !config.no_loopback && !config.acl_no_rfc6890 ==> !config.blocks_special(),
{
}

/// The HTTP/3 listener needs all three: the key, the chain and the token.
pub proof fn lemma_h3_material(config: AppConfig)
    ensures
        config.key is None ==> !config.has_h3_material(),
        config.cert_chain is None ==> !config.has_h3_material(),
        config.auth_token is None ==> !config.has_h3_material(),
        config.key is Some && config.cert_chain is Some && config.auth_token is Some
            ==> config.has_h3_material(),
{
}

/// What the user is told of a configuration that is refused.
pub proof fn lemma_messages()
    ensures
        ConfigError::NothingListening.spec_message()
            == "--disable http requires --enable h3: nothing would be listening"@,
        ConfigError::MissingH3Material.spec_message()
            == "--enable h3 requires --key, --cert-chain and --auth-token to be set"@,
        DEFAULT_IP_POOL@ == "198.18.0.0/15"@,
{
}

} // verus!
