use qemu_ipmi_relay::config::Config;
use qemu_ipmi_relay::error::RelayError;
use qemu_ipmi_relay::startup::{parse_args, passed_socket, remove_stale_socket, Occupant};
use std::path::PathBuf;
use std::time::Duration;

fn config_error(text: &str) -> RelayError {
    RelayError::Config(text.to_string())
}

#[test]
fn parses_config_argument() {
    assert_eq!(
        parse_args(vec!["--config".into(), "/tmp/relay.toml".into()])
            .unwrap()
            .map(PathBuf::from),
        Some(PathBuf::from("/tmp/relay.toml"))
    );
    assert!(parse_args(vec!["--unknown".into()]).is_err());
}

#[test]
fn no_arguments_mean_no_file() {
    assert_eq!(parse_args(vec![]), Ok(None));
}

#[test]
fn refuses_other_arguments() {
    let usage = config_error("usage: qemu-ipmi-relay [--config PATH]");
    for args in [
        vec!["--config"],
        vec!["--conf", "/tmp/relay.toml"],
        vec!["--config", "/a", "/b"],
    ] {
        let args = args.into_iter().map(String::from).collect::<Vec<_>>();
        assert_eq!(parse_args(args), Err(usage.clone()));
    }
}

#[test]
fn replaces_only_sockets() {
    assert_eq!(remove_stale_socket("/run/s", Occupant::Absent), Ok(false));
    assert_eq!(remove_stale_socket("/run/s", Occupant::Socket), Ok(true));
    assert_eq!(
        remove_stale_socket("/run/s", Occupant::Other),
        Err(config_error("refusing to replace non-socket path /run/s"))
    );
    assert_eq!(
        remove_stale_socket("/run/s", Occupant::Unknown("denied".to_string())),
        Err(RelayError::Io("denied".to_string()))
    );
}

#[test]
fn default_configuration_is_valid() {
    let config = Config::default();
    assert_eq!(config.socket, "/run/qemu-ipmi-relay/ipmi.sock");
    assert_eq!(config.device, "/dev/ipmi0");
    assert_eq!(config.request_timeout_ms, 3000);
    assert_eq!(config.max_frame_size, 303);
    assert_eq!(config.validate(), Ok(()));
    assert_eq!(config.request_timeout(), Duration::from_secs(3));
    assert_eq!(config.device_wait_timeout_ms, 0);
    assert_eq!(config.device_wait_timeout(), Duration::ZERO);
}

#[test]
fn refuses_relative_paths() {
    let mut config = Config::default();
    config.device = "dev/ipmi0".to_string();
    assert_eq!(
        config.validate(),
        Err(config_error("device must be an absolute path"))
    );
    config.socket = String::new();
    assert_eq!(
        config.validate(),
        Err(config_error("socket must be an absolute path"))
    );
}

#[test]
fn bounds_the_timeout() {
    let mut config = Config::default();
    for (millis, good) in [(0, false), (1, true), (60_000, true), (60_001, false)] {
        config.request_timeout_ms = millis;
        let expected = if good {
            Ok(())
        } else {
            Err(config_error("request_timeout_ms must be 1..=60000"))
        };
        assert_eq!(config.validate(), expected);
    }
}

#[test]
fn bounds_the_frame_size() {
    let mut config = Config::default();
    for (size, good) in [(7, false), (8, true), (4096, true), (4097, false)] {
        config.max_frame_size = size;
        let expected = if good {
            Ok(())
        } else {
            Err(config_error("max_frame_size must be 8..=4096"))
        };
        assert_eq!(config.validate(), expected);
    }
}

#[test]
fn errors_describe_themselves() {
    let cause = || "cause".to_string();
    for (error, line) in [
        (RelayError::Io(cause()), "I/O error: cause"),
        (RelayError::Config(cause()), "configuration error: cause"),
        (
            RelayError::ConfigParse(cause()),
            "configuration parse error: cause",
        ),
        (RelayError::Protocol(cause()), "protocol error: cause"),
        (RelayError::OpenIpmi(cause()), "OpenIPMI error: cause"),
        (
            RelayError::BmcWorkerUnavailable,
            "BMC worker is unavailable",
        ),
    ] {
        assert_eq!(error.message(), line);
    }
}

#[test]
fn any_wait_for_the_device_is_valid() {
    let mut config = Config::default();
    for (millis, wait) in [
        (30_000, Duration::from_secs(30)),
        (u64::MAX, Duration::from_millis(u64::MAX)),
    ] {
        config.device_wait_timeout_ms = millis;
        assert_eq!(config.validate(), Ok(()));
        assert_eq!(config.device_wait_timeout(), wait);
    }
}

#[test]
fn takes_a_socket_that_was_passed_to_this_process() {
    assert_eq!(passed_socket(7, Some(7), Some(1)), Some(3));
    assert_eq!(passed_socket(7, Some(7), Some(2)), Some(3));
    assert_eq!(passed_socket(7, Some(7), Some(0)), None);
    assert_eq!(passed_socket(7, Some(8), Some(1)), None);
    assert_eq!(passed_socket(7, None, Some(1)), None);
    assert_eq!(passed_socket(7, Some(7), None), None);
}
