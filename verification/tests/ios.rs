use quadcontrol::ios::{
    check_version, extract_device_list, list_devices, parse_ios_devices, parse_version,
    short_ios_name, Error,
};
use std::path::PathBuf;

const VERSION_FIXTURE: &str = "{\"version\":\"1.2.1\"}\n";
const LIST_EMPTY_STDOUT: &str = "{\"deviceList\":[]}\n";
const LIST_EMPTY_STDERR: &str = "{\"level\":\"warning\",\"msg\":\"could not get tunnel info, is the tunnel running?\",\"time\":\"2026-09-14T08:05:03+08:00\"}\n";

#[test]
fn parses_go_ios_json_device_list() {
    let devices =
        parse_ios_devices(r#"{"deviceList":["REDACTEDSERIAL1","REDACTEDSERIAL2"]}"#).unwrap();

    assert_eq!(devices.len(), 2);
    assert_eq!(devices[0].id, "REDACTEDSERIAL1");
    assert_eq!(devices[0].name, "iPhone ····IAL1");
}

#[test]
fn parses_plain_line_device_list() {
    let devices =
        parse_ios_devices("List of attached devices:\nREDACTEDSERIAL\nUDID: REDACTEDSERIAL2\n")
            .unwrap();

    assert_eq!(devices.len(), 2);
    assert_eq!(devices[1].id, "REDACTEDSERIAL2");
}

#[test]
fn empty_output_yields_no_devices() {
    assert!(parse_ios_devices("").unwrap().is_empty());
    assert!(parse_ios_devices(r#"{"deviceList":[]}"#)
        .unwrap()
        .is_empty());
}

#[test]
fn fixture_empty_device_list_parses_to_nothing() {
    assert!(parse_ios_devices(LIST_EMPTY_STDOUT).unwrap().is_empty());
}

#[test]
fn fixture_stderr_is_not_parsed_as_devices() {
    assert!(parse_ios_devices(LIST_EMPTY_STDERR).is_err());
}

#[test]
fn rejects_unparsable_line() {
    assert!(parse_ios_devices("REDACTEDSERIAL with-space\n").is_err());
}

#[test]
fn ignores_non_matching_json_shape() {
    assert!(extract_device_list(r#"{"other":[1]}"#).is_none());
}

#[test]
fn short_name_keeps_only_the_tail() {
    assert_eq!(short_ios_name("REDACTEDSERIAL"), "iPhone ····RIAL");
    assert_eq!(short_ios_name("ab"), "iPhone ····ab");
}

#[test]
fn version_clamp_rejects_old_and_flags_newer() {
    let exact = parse_version(r#"{"version":"1.2.1"}"#).unwrap();
    assert_eq!((exact.major, exact.minor, exact.patch), (1, 2, 1));
    assert!(!exact.newer_than_verified);

    assert!(
        parse_version(r#"{"version":"1.3.0"}"#)
            .unwrap()
            .newer_than_verified
    );
    assert!(parse_version(r#"{"version":"v1.2.1"}"#).is_ok());
    assert!(parse_version(r#"{"version":"1.2"}"#).is_err());
    assert!(parse_version(r#"{"version":"1.2.0"}"#).is_err());
    assert!(parse_version(r#"{"version":"0.9.9"}"#).is_err());
    assert!(parse_version(r#"{"version":"1.3.0-rc1"}"#).is_err());
    assert!(parse_version(r#"{"other":"1.2.1"}"#).is_err());
    assert!(parse_version("not json").is_err());
}

#[test]
fn fixture_version_output_parses() {
    assert_eq!(parse_version(VERSION_FIXTURE).unwrap().text(), "1.2.1");
}

#[test]
fn error_codes_match_the_plan() {
    let cases: Vec<(Error, &str)> = vec![
        (Error::IosNotFound(PathBuf::from("ios")), "ios_not_found"),
        (Error::IosVersion(String::new()), "ios_version"),
        (
            Error::UsbmuxdUnavailable(String::new()),
            "usbmuxd_unavailable",
        ),
        (Error::TunnelPortBusy(28100), "tunnel_port_busy"),
        (Error::TunnelFailed(String::new()), "tunnel_failed"),
        (Error::NoActiveElement, "no_active_element"),
        (Error::WdaNotInstalled(String::new()), "wda_not_installed"),
        (
            Error::WdaSignatureExpired(String::new()),
            "wda_signature_expired",
        ),
        (Error::WdaUnreachable(String::new()), "wda_unreachable"),
        (Error::WdaSessionFailed(String::new()), "wda_session_failed"),
        (Error::ForwardFailed(String::new()), "forward_failed"),
        (Error::ProxyFailed(String::new()), "proxy_failed"),
        (Error::DeviceLocked, "device_locked"),
        (Error::TextUnconfirmed, "text_unconfirmed"),
        (Error::ScreenshotFailed(String::new()), "screenshot_failed"),
        (Error::AlreadyRunning, "ios_session_already_running"),
        (
            Error::WindowsSessionUnsupported,
            "windows_session_unsupported",
        ),
    ];
    for (error, expected) in cases {
        assert_eq!(error.code(), expected);
    }
}

#[test]
fn version_messages_name_the_raw_value() {
    assert_eq!(
        parse_version(r#"{"version":"1.3.0-rc1"}"#).unwrap_err().message(),
        "go-ios prerelease 1.3.0-rc1 is not supported; install stable go-ios 1.2.1 or newer"
    );
    assert_eq!(
        parse_version(r#"{"version":"1.2"}"#).unwrap_err().message(),
        "go-ios 1.2 is too old; install go-ios 1.2.1 or newer"
    );
    assert_eq!(
        parse_version(r#"{"version":"x.1"}"#).unwrap_err().message(),
        "go-ios version x.1 has no major"
    );
    assert_eq!(
        parse_version(r#"{"version":"2"}"#).unwrap_err().message(),
        "go-ios version 2 has no minor"
    );
    assert_eq!(
        parse_version(r#"{"other":"1.2.1"}"#).unwrap_err().message(),
        "`ios version` output has no version field"
    );
    assert!(parse_version("not json")
        .unwrap_err()
        .message()
        .starts_with("could not parse `ios version` output: "));
    assert_eq!(
        check_version(false, Some(2), b"").unwrap_err().message(),
        "`ios version` exited with 2"
    );
    assert!(check_version(true, Some(0), VERSION_FIXTURE.as_bytes()).is_ok());
    assert_eq!(
        Error::TunnelPortBusy(28100).message(),
        "the go-ios tunnel info port 28100 is already in use; stop the other go-ios tunnel first"
    );
}

#[test]
fn ios_list_failures_are_told_apart() {
    assert_eq!(
        list_devices(false, Some(1), b"", b"dial unix /var/run/usbmuxd: Connection Refused")
            .unwrap_err()
            .message(),
        "usbmuxd is not reachable; make sure the usbmuxd service is running"
    );
    assert_eq!(
        list_devices(false, None, b"", b"boom").unwrap_err().message(),
        "`ios list` exited with -1"
    );
    assert_eq!(
        list_devices(true, Some(0), LIST_EMPTY_STDERR.as_bytes(), b"")
            .unwrap_err()
            .code(),
        "ios_process_error"
    );
    assert_eq!(
        list_devices(true, Some(0), br#"{"deviceList":[ "A1" ,""]}"#, b"")
            .unwrap_err()
            .code(),
        "ios_process_error"
    );
    assert_eq!(
        list_devices(true, Some(0), br#"{"deviceList":[ "A1" ]}"#, b"")
            .unwrap()[0]
            .id,
        "A1"
    );
}

#[test]
fn an_empty_udid_in_the_json_list_rejects_it() {
    assert_eq!(
        parse_ios_devices(r#"{"deviceList":["REDACTEDSERIAL1",""]}"#),
        Err("go-ios returned an unparsable device list".to_string())
    );
    assert!(parse_ios_devices(r#"{"deviceList":[ ]}"#).unwrap().is_empty());
    assert_eq!(
        extract_device_list(r#"{"deviceList":["a",""]}"#),
        Some(vec!["a".to_string(), String::new()])
    );
}

#[test]
fn no_two_error_variants_share_a_code() {
    let errors = vec![
        Error::IosNotFound(PathBuf::from("ios")),
        Error::IosVersion("x".into()),
        Error::UsbmuxdUnavailable("x".into()),
        Error::TunnelPortBusy(1),
        Error::TunnelFailed("x".into()),
        Error::WdaNotInstalled("x".into()),
        Error::WdaSignatureExpired("x".into()),
        Error::WdaUnreachable("x".into()),
        Error::WdaSessionFailed("x".into()),
        Error::ForwardFailed("x".into()),
        Error::ProxyFailed("x".into()),
        Error::DeviceLocked,
        Error::TextUnconfirmed,
        Error::NoActiveElement,
        Error::ScreenshotFailed("x".into()),
        Error::AlreadyRunning,
        Error::WindowsSessionUnsupported,
        Error::Process(std::io::Error::new(std::io::ErrorKind::Other, "x")),
    ];
    let codes: Vec<&str> = errors.iter().map(|e| e.code()).collect();
    for i in 0..codes.len() {
        for j in 0..codes.len() {
            assert_eq!(codes[i] == codes[j], i == j, "{} {}", codes[i], codes[j]);
        }
    }
    assert_eq!(Error::TunnelPortBusy(28100).code(), Error::TunnelPortBusy(1).code());
}

#[test]
fn missing_go_ios_message_names_its_path() {
    assert_eq!(
        Error::IosNotFound(PathBuf::from("/usr/local/bin/ios")).message(),
        "go-ios was not found at /usr/local/bin/ios. Install go-ios 1.2.1 or newer, then try again."
    );
}
