use auto_server::config::ServiceAction;
use auto_server::service::{
    detect_init, dq_quote, ensure_root, init_script, is_root, run, sh_quote, sh_quote_join, systemd_exec,
    systemd_quote, systemd_unit, InitSystem, Machine, ServiceError, Step,
};

/// A machine of the superuser with nothing on it.
fn bare() -> Machine {
    Machine {
        root: true,
        systemd: false,
        openrc: false,
        init_d: false,
        update_rc_d: false,
        chkconfig: false,
        binary: "/opt/bin/auto-server".to_string(),
    }
}

fn strings(parts: &[&str]) -> Vec<String> {
    parts.iter().map(|s| s.to_string()).collect()
}

/// A plan, written down one step per line.
fn lines(steps: &[Step]) -> Vec<String> {
    steps
        .iter()
        .map(|s| match s {
            Step::CopyBinary(dest) => format!("copy {dest}"),
            Step::WriteFile { path, mode, .. } => format!("write {path} {mode:o}"),
            Step::Run { program, args } => format!("run {program} {}", args.join(" ")),
            Step::Attempt { program, args } => format!("try {program} {}", args.join(" ")),
            Step::RemoveFile(path) => format!("remove {path}"),
            Step::Say(message) => format!("say {message}"),
            Step::Fail(e) => format!("fail {e:?}"),
        })
        .collect()
}

#[test]
fn systemd_unit_contains_exec_start() {
    let unit = systemd_unit("/opt/bin/auto-server", &vec![]);
    assert!(unit.contains(r#"ExecStart="/opt/bin/auto-server""#));
    assert!(unit.contains("WantedBy=multi-user.target"));
}

#[test]
fn systemd_unit_forwards_args() {
    let unit = systemd_unit(
        "/opt/bin/auto-server",
        &vec![
            "--listen".into(),
            "0.0.0.0:9999".into(),
            "--acl-no-rfc6890".into(),
        ],
    );
    assert!(unit.contains(
        r#"ExecStart="/opt/bin/auto-server" "--listen" "0.0.0.0:9999" "--acl-no-rfc6890""#
    ));
}

#[test]
fn systemd_unit_exact_text() {
    assert_eq!(
        systemd_unit("/a b", &vec![]),
        "[Unit]\nDescription=auto-server SOCKS + HTTP CONNECT proxy\n\
         After=network-online.target\nWants=network-online.target\n\n\
         [Service]\nType=simple\nExecStart=\"/a b\"\nRestart=on-failure\nRestartSec=5\n\n\
         [Install]\nWantedBy=multi-user.target\n"
    );
}

#[test]
fn init_script_is_valid_sh_with_braces() {
    let script = init_script("/opt/bin/auto-server", &vec![]);
    assert!(script.contains("Usage: $0 {start|stop|restart|status}"));
    assert!(script.contains(r#"DAEMON="/opt/bin/auto-server""#));
    assert!(script.contains("setsid"));
}

#[test]
fn init_script_forwards_args() {
    let script = init_script(
        "/opt/bin/auto-server",
        &vec!["--listen".into(), "0.0.0.0:9999".into()],
    );
    assert!(script.contains(r#"DAEMON_ARGS="'--listen' '0.0.0.0:9999'"#));
    assert!(script.contains(r#"setsid "$DAEMON" $DAEMON_ARGS >"$LOGFILE""#));
}

#[test]
fn init_script_keeps_special_characters() {
    let script = init_script(
        r#"/opt/a b/$x"y"#,
        &vec!["a b".into(), "".into(), "it's".into(), r#"$HOME `id` "q" \"#.into()],
    );
    assert!(script.contains(
        r#"
DAEMON="/opt/a b/\$x\"y"
DAEMON_ARGS="'a b' '' 'it'\\''s' '\$HOME \`id\` \"q\" \\'"
PIDFILE="#
    ));
    assert_eq!(dq_quote(""), r#""""#);
    assert_eq!(dq_quote("a\nb!*"), "\"a\nb!*\"");
    assert_eq!(dq_quote(r#"\ " $ `"#), r#""\\ \" \$ \`""#);
}

#[test]
fn init_script_exact_text() {
    let script = init_script(
        "/opt/bin/auto-server",
        &vec!["--listen".into(), "0.0.0.0:9999".into()],
    );
    assert_eq!(script, SCRIPT);
}

const SCRIPT: &str = r#"#!/bin/sh
### BEGIN INIT INFO
# Provides:          auto-server
# Required-Start:    $network $remote_fs $syslog
# Required-Stop:     $network $remote_fs $syslog
# Default-Start:     2 3 4 5
# Default-Stop:      0 1 6
# Short-Description: auto-server SOCKS + HTTP CONNECT proxy
# Description:       auto-server proxy server
### END INIT INFO

NAME=auto-server
DAEMON="/opt/bin/auto-server"
DAEMON_ARGS="'--listen' '0.0.0.0:9999'"
PIDFILE=/var/run/auto-server.pid
LOGFILE=/var/log/auto-server.log

start() {
    if [ -f "$PIDFILE" ] && kill -0 "$(cat "$PIDFILE")" 2>/dev/null; then
        echo "$NAME is already running"
        return 0
    fi
    echo "Starting $NAME..."
    eval "$(
        DAEMON='$DAEMON'
        cat <<EOF
setsid "$DAEMON" $DAEMON_ARGS >"$LOGFILE" 2>&1 < /dev/null &
EOF
    )"
    echo $! > "$PIDFILE"
    return 0
}

stop() {
    if [ ! -f "$PIDFILE" ] || ! kill -0 "$(cat "$PIDFILE")" 2>/dev/null; then
        echo "$NAME is not running"
        return 0
    fi
    echo "Stopping $NAME..."
    kill "$(cat "$PIDFILE")" 2>/dev/null
    rm -f "$PIDFILE"
    return 0
}

case "$1" in
    start) start ;;
    stop) stop ;;
    restart) stop; start ;;
    status)
        if [ -f "$PIDFILE" ] && kill -0 "$(cat "$PIDFILE")" 2>/dev/null; then
            echo "$NAME is running (pid $(cat "$PIDFILE"))"; exit 0
        else
            echo "$NAME is not running"; exit 3
        fi
        ;;
    *) echo "Usage: $0 {start|stop|restart|status}"; exit 1 ;;
esac
exit 0
"#;

#[test]
fn init_script_begins_and_ends() {
    let script = init_script("/x", &vec![]);
    assert!(script.starts_with("#!/bin/sh\n### BEGIN INIT INFO\n# Provides:          auto-server\n"));
    assert!(script.contains("\nNAME=auto-server\nDAEMON=\"/x\"\nDAEMON_ARGS=\"\"\nPIDFILE="));
    assert!(script.ends_with("esac\nexit 0\n"));
}

#[test]
fn quotes_for_systemd() {
    assert_eq!(systemd_quote("plain"), r#""plain""#);
    assert_eq!(systemd_quote(r#"a"b\c"#), r#""a\"b\\c""#);
    assert_eq!(
        systemd_exec("/bin/x", &strings(&["a b", ""])),
        r#""/bin/x" "a b" """#
    );
}

#[test]
fn quotes_for_sh() {
    assert_eq!(sh_quote("it's"), r"'it'\''s'");
    assert_eq!(sh_quote(""), "''");
    assert_eq!(sh_quote_join(&strings(&["a", "b c", "d'"])), r"'a' 'b c' 'd'\'''");
    assert_eq!(sh_quote_join(&vec![]), "");
}

#[test]
fn root_is_told_by_the_uid_line() {
    assert!(is_root(Some("Name:\tx\nUid:\t0\t0\t0\t0\nGid:\t0\n")));
    assert!(!is_root(Some("Name:\tx\nUid:\t1000\t0\t0\t0\n")));
    assert!(!is_root(Some("Name:\tx\n")));
    assert!(!is_root(Some("Uid:\n")));
    assert!(!is_root(Some("Uid:\tzero\nUid:\t0\n")));
    assert!(!is_root(None));
}

#[test]
fn only_root_may_run() {
    let machine = Machine {
        root: false,
        systemd: true,
        ..bare()
    };
    assert_eq!(ensure_root(&machine), Err(ServiceError::NotRoot));
    assert_eq!(
        run(ServiceAction::Start, &machine).unwrap_err(),
        ServiceError::NotRoot
    );
    assert_eq!(ensure_root(&bare()), Ok(()));
    assert_eq!(
        ServiceError::NotRoot.message(),
        "This command must be run as root (e.g. `sudo auto-server service ...`)."
    );
}

#[test]
fn init_systems_in_order() {
    let all = Machine {
        systemd: true,
        openrc: true,
        init_d: true,
        ..bare()
    };
    assert_eq!(detect_init(&all), Ok(InitSystem::Systemd));
    let openrc = Machine {
        openrc: true,
        init_d: true,
        ..bare()
    };
    assert_eq!(detect_init(&openrc), Ok(InitSystem::OpenRc));
    let sysv = Machine {
        init_d: true,
        ..bare()
    };
    assert_eq!(detect_init(&sysv), Ok(InitSystem::SysV));
    assert_eq!(detect_init(&bare()), Err(ServiceError::NoInitSystem));
}

#[test]
fn install_plans() {
    let systemd = Machine {
        systemd: true,
        ..bare()
    };
    let steps = run(
        ServiceAction::Install {
            bin_path: Some("/usr/local/bin/auto-server".to_string()),
            args: strings(&["--listen", "0.0.0.0:9999"]),
        },
        &systemd,
    )
    .unwrap();
    assert_eq!(
        lines(&steps),
        [
            "copy /usr/local/bin/auto-server",
            "write /etc/systemd/system/auto-server.service 644",
            "run systemctl daemon-reload",
            "say Installed systemd unit at /etc/systemd/system/auto-server.service",
            "say ExecStart uses binary: /usr/local/bin/auto-server",
            "say Forwarded args: --listen 0.0.0.0:9999",
            "say Next: `auto-server service enable` then `auto-server service start`",
        ]
    );
    match &steps[1] {
        Step::WriteFile { content, .. } => assert!(content
            .contains(r#"ExecStart="/usr/local/bin/auto-server" "--listen" "0.0.0.0:9999""#)),
        _ => panic!("expected a file"),
    }

    let openrc = Machine {
        openrc: true,
        ..bare()
    };
    let install = |m: &Machine| {
        lines(
            &run(
                ServiceAction::Install {
                    bin_path: None,
                    args: vec![],
                },
                m,
            )
            .unwrap(),
        )
    };
    assert_eq!(
        install(&openrc),
        [
            "write /etc/init.d/auto-server 755",
            "say Installed OpenRC init script at /etc/init.d/auto-server",
            "say DAEMON uses binary: /opt/bin/auto-server",
        ]
    );
    assert_eq!(install(&bare()), ["fail NoInitSystem"]);
    assert_eq!(install(&systemd).len(), 5);
}

#[test]
fn enable_start_stop_plans() {
    let systemd = Machine {
        systemd: true,
        ..bare()
    };
    let sysv = Machine {
        init_d: true,
        ..bare()
    };
    let rc_d = Machine {
        init_d: true,
        update_rc_d: true,
        chkconfig: true,
        ..bare()
    };
    let chk = Machine {
        init_d: true,
        chkconfig: true,
        ..bare()
    };
    assert_eq!(
        lines(&run(ServiceAction::Enable, &systemd).unwrap()),
        [
            "run systemctl enable auto-server",
            "say Enabled auto-server (starts at boot)"
        ]
    );
    assert_eq!(
        lines(&run(ServiceAction::Enable, &rc_d).unwrap()),
        [
            "run update-rc.d auto-server defaults",
            "say Enabled auto-server"
        ]
    );
    assert_eq!(
        lines(&run(ServiceAction::Enable, &chk).unwrap()),
        [
            "run chkconfig --add auto-server",
            "run chkconfig auto-server on",
            "say Enabled auto-server"
        ]
    );
    assert_eq!(
        lines(&run(ServiceAction::Enable, &sysv).unwrap()),
        ["fail NoEnableTool"]
    );
    assert_eq!(
        lines(&run(ServiceAction::Start, &systemd).unwrap()),
        ["run systemctl start auto-server", "say Started auto-server"]
    );
    assert_eq!(
        lines(&run(ServiceAction::Stop, &sysv).unwrap()),
        ["run service auto-server stop", "say Stopped auto-server"]
    );
}

#[test]
fn uninstall_plans() {
    let systemd = Machine {
        systemd: true,
        ..bare()
    };
    let chk = Machine {
        init_d: true,
        chkconfig: true,
        ..bare()
    };
    assert_eq!(
        lines(&run(ServiceAction::Uninstall, &systemd).unwrap()),
        [
            "try systemctl stop auto-server",
            "try systemctl disable auto-server",
            "remove /etc/systemd/system/auto-server.service",
            "run systemctl daemon-reload",
            "say Removed systemd unit at /etc/systemd/system/auto-server.service",
        ]
    );
    assert_eq!(
        lines(&run(ServiceAction::Uninstall, &chk).unwrap()),
        [
            "try service auto-server stop",
            "try chkconfig auto-server off",
            "try chkconfig --del auto-server",
            "remove /etc/init.d/auto-server",
            "say Removed SysV init script at /etc/init.d/auto-server",
        ]
    );
}
