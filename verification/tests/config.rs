use auto_server::config::{AppConfig, ConfigError, DisableProtocol, EnableProtocol, LogLevel};
use auto_server::{run, RunError};
use std::time::Duration;

/// The configuration of `--enable h3` with what it requires.
fn h3_config() -> AppConfig {
    AppConfig {
        enable: Some(EnableProtocol::H3),
        key: Some("key.pem".to_string()),
        cert_chain: Some("cert.pem".to_string()),
        auth_token: Some("s3cr3t".to_string()),
        ..AppConfig::default()
    }
}

/// The configuration of `--disable http`.
fn disable_http() -> AppConfig {
    AppConfig {
        disable: Some(DisableProtocol::Http),
        ..AppConfig::default()
    }
}

#[test]
fn tcp_proxy_runs_unless_disabled() {
    assert!(AppConfig::default().run_tcp_proxy());
    assert!(h3_config().run_tcp_proxy());
    assert!(!disable_http().run_tcp_proxy());
}

#[test]
fn validate_rejects_disable_http_without_enable_h3() {
    let err = disable_http()
        .validate()
        .expect_err("disable http without enable h3 must be rejected");
    let message = err.message();
    assert!(
        message.contains("--enable h3"),
        "error should point at --enable h3, got: {message}"
    );
    assert_eq!(
        message,
        "--disable http requires --enable h3: nothing would be listening"
    );
}

#[test]
fn validate_accepts_disable_http_with_enable_h3() {
    let config = AppConfig {
        disable: Some(DisableProtocol::Http),
        ..h3_config()
    };
    config.validate().expect("disable http + enable h3 is valid");
}

#[test]
fn validate_accepts_configs_that_listen_on_something() {
    AppConfig::default()
        .validate()
        .expect("default config is valid");
    h3_config().validate().expect("enable h3 is valid");
}

#[test]
fn defaults_are_the_documented_ones() {
    let config = AppConfig::default();
    assert_eq!(config.listen.port, 1080);
    assert_eq!(config.handshake_timeout(), Duration::from_millis(5000));
    assert_eq!(config.connect_timeout(), Duration::from_millis(10000));
    assert_eq!(config.log_level, LogLevel::Info);
    assert_eq!(config.udp_port, 443);
    assert_eq!(config.ip_pool, "198.18.0.0/15");
    assert!(!config.block_special_addrs());
}

#[test]
fn either_flag_blocks_special_addresses() {
    let a = AppConfig {
        no_loopback: true,
        ..AppConfig::default()
    };
    let b = AppConfig {
        acl_no_rfc6890: true,
        ..AppConfig::default()
    };
    assert!(a.block_special_addrs());
    assert!(b.block_special_addrs());
}

#[test]
fn run_plans_the_listeners() {
    let plan = run(&AppConfig::default()).expect("default config runs");
    assert!(plan.tcp && !plan.h3);
    assert_eq!(plan.upgrade, None);

    let plan = run(&h3_config()).expect("h3 config runs");
    assert!(plan.tcp && plan.h3);

    let only = AppConfig {
        disable: Some(DisableProtocol::Http),
        auto_upgrade: Some("3d".to_string()),
        ..h3_config()
    };
    let plan = run(&only).expect("h3 only runs");
    assert!(!plan.tcp && plan.h3);
    assert_eq!(plan.upgrade, Some(Duration::from_secs(3 * 86400)));
}

#[test]
fn run_refuses_in_order() {
    // Nothing listening comes before a bad interval.
    let config = AppConfig {
        auto_upgrade: Some("nonsense".to_string()),
        ..disable_http()
    };
    assert!(matches!(
        run(&config),
        Err(RunError::Config(ConfigError::NothingListening))
    ));

    // A bad interval comes before missing key material.
    let config = AppConfig {
        auto_upgrade: Some("0h".to_string()),
        key: None,
        ..h3_config()
    };
    match run(&config) {
        Err(RunError::InvalidInterval(m)) => {
            assert_eq!(m, "minimum auto-upgrade interval is 1h")
        }
        _ => panic!("expected an interval error"),
    }

    for i in 0..3 {
        let mut config = h3_config();
        match i {
            0 => config.key = None,
            1 => config.cert_chain = None,
            _ => config.auth_token = None,
        }
        match run(&config) {
            Err(RunError::Config(e)) => {
                assert_eq!(e, ConfigError::MissingH3Material);
                assert_eq!(
                    e.message(),
                    "--enable h3 requires --key, --cert-chain and --auth-token to be set"
                );
            }
            _ => panic!("expected a configuration error"),
        }
    }
}
