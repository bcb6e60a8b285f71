//! Decision core of the auto-detecting SOCKS / HTTP CONNECT / MASQUE proxy.
//!
//! Every module turns bytes, text and events into decisions; reading, sending
//! and waiting is left to the program around it.
pub mod addr;
pub mod auth;
pub mod be;
pub mod capsule;
pub mod config;
pub mod connect;
pub mod ext;
pub mod http_connect;
pub mod ip_tunnel;
pub mod masque;
pub mod pem;
pub mod routes;
pub mod server;
pub mod service;
pub mod socks4;
pub mod socks5;
pub mod text;
pub mod time;
pub mod tun;
pub mod tunnel;
pub mod udp_relay;
pub mod upgrade;
pub mod wire;

use std::time::Duration;
use vstd::prelude::*;

pub use config::{AppConfig, Cli, Command, EnableProtocol};
use config::ConfigError;

verus! {

/// What is started for a configuration.
#[derive(Debug)]
pub struct ServePlan {
    /// How often to look for upgrades, if at all.
    pub upgrade: Option<Duration>,
    /// Whether the TCP proxy is started.
    pub tcp: bool,
    /// Whether the HTTP/3 server is started.
    pub h3: bool,
}

/// Why nothing is started.
#[derive(Debug)]
pub enum RunError {
    Config(ConfigError),
    /// The upgrade interval is refused with this message.
    InvalidInterval(String),
}

/// What a [`RunError`] denotes.
#[verifier::ext_equal]
pub enum RunErrorView {
    Config(ConfigError),
    InvalidInterval(Seq<char>),
}

impl View for RunError {
    type V = RunErrorView;

    open spec fn view(&self) -> RunErrorView {
        match self {
            RunError::Config(e) => RunErrorView::Config(*e),
            RunError::InvalidInterval(m) => RunErrorView::InvalidInterval(m@),
        }
    }
}

/// The message that refuses the upgrade interval, if it is refused.
pub open spec fn interval_error(config: AppConfig) -> Option<Seq<char>> {
    match config.auto_upgrade {
        Some(s) => match upgrade::interval_of(s@) {
            Err(message) => Some(message),
            Ok(_) => None,
        },
        None => None,
    }
}

/// Why nothing is started for a configuration, if so: a configuration that
/// leaves nothing listening comes first, then a bad upgrade interval, then an
/// HTTP/3 server without its key, chain or token.
pub open spec fn run_error(config: AppConfig) -> Option<RunErrorView> {
    if !config.tcp_proxy() && !config.h3() {
        Some(RunErrorView::Config(ConfigError::NothingListening))
    } else if interval_error(config) is Some {
        Some(RunErrorView::InvalidInterval(interval_error(config).unwrap()))
    } else if config.h3() && !config.has_h3_material() {
        Some(RunErrorView::Config(ConfigError::MissingH3Material))
    } else {
        None
    }
}

/// Plans what is started for a configuration. Nothing is bound before all of it
/// was checked.
pub fn run(config: &AppConfig) -> (r: Result<ServePlan, RunError>)
    requires
        config.auto_upgrade matches Some(s) ==> upgrade::interval_fits(s@),
    ensures
        match run_error(*config) {
            Some(error) => r matches Err(e) && e@ == error,
            None => {
                &&& r matches Ok(plan)
                &&& plan.tcp == config.tcp_proxy()
                &&& plan.h3 == config.h3()
                &&& match config.auto_upgrade {
                    Some(s) => upgrade::interval_of(s@) matches Ok(n) && plan.upgrade == Some(
                        time::seconds(n as u64),
                    ),
                    None => plan.upgrade is None,
                }
            },
        },
{
    if let Err(e) = config.validate() {
        return Err(RunError::Config(e));
    }
    let interval: Option<Duration> = match &config.auto_upgrade {
        Some(s) => match upgrade::parse_interval(s.as_str()) {
            Ok(d) => Some(d),
            Err(m) => return Err(RunError::InvalidInterval(m)),
        },
        None => None,
    };
    let h3 = match config.enable {
        Some(EnableProtocol::H3) => true,
        None => false,
    };
    if h3 && (config.key.is_none() || config.cert_chain.is_none() || config.auth_token.is_none()) {
        return Err(RunError::Config(ConfigError::MissingH3Material));
    }
    Ok(ServePlan { upgrade: interval, tcp: config.run_tcp_proxy(), h3 })
}

/// Something is always listening: a plan starts at least one of the two servers,
/// and the HTTP/3 server only with its key, chain and token.
pub proof fn lemma_plan_listens(config: AppConfig)
    requires
        run_error(config) is None,
    ensures
        config.tcp_proxy() || config.h3(),
        config.h3() ==> config.has_h3_material(),
{
}

/// What is wrong with a configuration is reported in one order: nothing to listen
/// on, then a bad interval, then an HTTP/3 server that lacks its key, its chain
/// or its token. Everything else is started.
pub proof fn lemma_run_errors(config: AppConfig)
    ensures
        ({
            let http = !(config.disable matches Some(config::DisableProtocol::Http));
            let h3 = config.enable matches Some(EnableProtocol::H3);
            let bad = config.auto_upgrade matches Some(s) && upgrade::interval_of(s@) is Err;
            let lacking = config.key is None || config.cert_chain is None
                || config.auth_token is None;
            &&& !http && !h3 ==> run_error(config) == Some(
                RunErrorView::Config(ConfigError::NothingListening),
            )
            &&& (http || h3) && bad ==> (run_error(config) matches Some(
                RunErrorView::InvalidInterval(message),
            ) && (config.auto_upgrade matches Some(s) && upgrade::interval_of(s@) == Err::<
                nat,
                Seq<char>,
            >(message)))
            &&& (http || h3) && !bad && h3 && lacking ==> run_error(config) == Some(
                RunErrorView::Config(ConfigError::MissingH3Material),
            )
            &&& (http || h3) && !bad && !(h3 && lacking) ==> run_error(config) is None
        }),
{
}

} // verus!
