use quadcontrol::process::append_limited;
use quadcontrol::adb_probe::{
    cli_args_are_valid, exit_code_for, json_escape, parse_devices, parse_mdns, parse_version,
    report_json, run_probe, AdbCommand, CommandOutput, CommandRunner, Device, DeviceState,
    ExecutionError, MdnsAvailability, MdnsReport, PairingObservation, ProbeError, ProbeReport,
    Transport,
};
use std::cell::RefCell;
use std::collections::VecDeque;

struct FakeRunner {
    responses: RefCell<VecDeque<(AdbCommand, Result<CommandOutput, ExecutionError>)>>,
    calls: RefCell<Vec<AdbCommand>>,
}

impl FakeRunner {
    fn new(responses: Vec<(AdbCommand, Result<CommandOutput, ExecutionError>)>) -> Self {
        Self {
            responses: RefCell::new(responses.into()),
            calls: RefCell::new(Vec::new()),
        }
    }
}

impl CommandRunner for FakeRunner {
    fn run(&self, command: AdbCommand) -> Result<CommandOutput, ExecutionError> {
        self.calls.borrow_mut().push(command);
        let (expected, result) = self
            .responses
            .borrow_mut()
            .pop_front()
            .expect("unexpected command");
        assert_eq!(command, expected);
        result
    }
}

fn ok(stdout: &str) -> Result<CommandOutput, ExecutionError> {
    Ok(CommandOutput {
        status: 0,
        stdout: stdout.to_owned(),
        stderr: String::new(),
    })
}

fn success_runner(devices: &str, mdns: &str) -> FakeRunner {
    FakeRunner::new(vec![
        (
            AdbCommand::Version,
            ok("Android Debug Bridge version 1.0.41\nVersion 35.0.2\n"),
        ),
        (AdbCommand::DevicesLong, ok(devices)),
        (AdbCommand::MdnsServices, ok(mdns)),
    ])
}

#[test]
fn commands_are_an_exact_read_only_whitelist() {
    assert_eq!(AdbCommand::Version.args(), ["version"]);
    assert_eq!(AdbCommand::DevicesLong.args(), ["devices", "-l"]);
    assert_eq!(AdbCommand::MdnsServices.args(), ["mdns", "services"]);
}

#[test]
fn parses_version_and_rejects_empty_output() {
    assert_eq!(
        parse_version("Android Debug Bridge version 1.0.41\n").unwrap(),
        "1.0.41"
    );
    assert!(matches!(
        parse_version(""),
        Err(ProbeError::InvalidOutput {
            command: AdbCommand::Version,
            ..
        })
    ));
}

#[test]
fn parses_states_and_explicit_transport_evidence() {
    let devices = parse_devices("List of devices attached\nUSB123 device usb:1-2 product:pixel transport_id:1\n10.0.0.2:5555 offline product:pixel transport_id:2\nemulator-5554 unauthorized transport_id:3\nadb-ABC._adb-tls-connect._tcp device product:pixel\nSERIAL recovery product:pixel\n")
    .unwrap();

    assert_eq!(devices[0].transport, Transport::Usb);
    assert_eq!(devices[0].state, DeviceState::Device);
    assert_eq!(devices[1].transport, Transport::Tcp);
    assert_eq!(devices[1].state, DeviceState::Offline);
    assert_eq!(devices[2].transport, Transport::Emulator);
    assert_eq!(devices[2].state, DeviceState::Unauthorized);
    assert_eq!(devices[3].transport, Transport::Tcp);
    assert_eq!(devices[4].transport, Transport::Unknown);
    assert_eq!(devices[4].state, DeviceState::Other("recovery".to_owned()));
}

#[test]
fn parses_real_hardware_device_line() {
    let devices = parse_devices("List of devices attached\nREDACTEDSERIAL         device usb:1048576X product:dm3qzcx model:SM_S9180 device:dm3q transport_id:1\n")
    .unwrap();

    assert_eq!(devices.len(), 1);
    assert_eq!(devices[0].state, DeviceState::Device);
    assert_eq!(devices[0].transport, Transport::Usb);
    assert_eq!(devices[0].serial, "REDACTEDSERIAL");
}

#[test]
fn parses_real_hardware_unauthorized_line() {
    let devices = parse_devices("List of devices attached\nREDACTEDSERIAL         unauthorized usb:1048576X transport_id:1\n")
    .unwrap();

    assert_eq!(devices[0].state, DeviceState::Unauthorized);
    assert_eq!(devices[0].transport, Transport::Usb);
}

#[test]
fn parses_real_hardware_version_output() {
    let version = parse_version("Android Debug Bridge version 1.0.41\nVersion 37.0.1-15733141\nInstalled as /opt/homebrew/bin/adb\nRunning on Darwin 25.5.0 (arm64)\n")
    .unwrap();

    assert_eq!(version, "1.0.41");
}

#[test]
fn rejects_empty_or_unframed_device_output() {
    for output in ["", "USB123 device usb:1-2\n"] {
        assert!(matches!(
            parse_devices(output),
            Err(ProbeError::InvalidOutput {
                command: AdbCommand::DevicesLong,
                ..
            })
        ));
    }
}

#[test]
fn mdns_distinguishes_services_duplicates_headers_and_malformed_lines() {
    let report = parse_mdns("List of discovered mdns services\nphone _adb-tls-pairing._tcp. 192.0.2.1:37001\nphone _adb-tls-pairing._tcp. 192.0.2.1:37001\nphone _adb-tls-connect._tcp. 192.0.2.1:37002\nbad _adb-tls-connect._tcp.\ngarbage\n");

    assert!(report.pairing_service_advertised);
    assert!(report.connect_service_advertised);
    assert_eq!(report.malformed_lines, 2);
}

#[test]
fn empty_mdns_output_is_available_without_advertisements() {
    let report = parse_mdns("");
    assert_eq!(report.availability, MdnsAvailability::Available);
    assert!(!report.pairing_service_advertised);
    assert!(!report.connect_service_advertised);
}

#[test]
fn wireless_connection_is_derived_from_devices_not_mdns() {
    let disconnected = success_runner(
        "List of devices attached\n",
        "phone _adb-tls-connect._tcp. 192.0.2.1:37002\n",
    );
    let report = run_probe(&disconnected).unwrap();
    assert!(report.mdns.connect_service_advertised);
    assert!(!report.wireless_connected);

    let connected = success_runner(
        "List of devices attached\n192.0.2.1:5555 device product:pixel\n",
        "",
    );
    let report = run_probe(&connected).unwrap();
    assert!(!report.mdns.connect_service_advertised);
    assert!(report.wireless_connected);
}

#[test]
fn successful_probe_runs_exact_sequence_and_keeps_pairing_unknown() {
    let runner = success_runner("List of devices attached\n", "");
    let report = run_probe(&runner).unwrap();
    assert_eq!(report.paired_with_this_host, PairingObservation::Unknown);
    assert_eq!(
        *runner.calls.borrow(),
        [
            AdbCommand::Version,
            AdbCommand::DevicesLong,
            AdbCommand::MdnsServices,
        ]
    );
}

#[test]
fn unsupported_mdns_is_partial_success() {
    let runner = FakeRunner::new(vec![
        (
            AdbCommand::Version,
            ok("Android Debug Bridge version 1.0.41\n"),
        ),
        (AdbCommand::DevicesLong, ok("List of devices attached\n")),
        (
            AdbCommand::MdnsServices,
            Ok(CommandOutput {
                status: 1,
                stdout: String::new(),
                stderr: "adb: unknown command mdns".to_owned(),
            }),
        ),
    ]);

    assert_eq!(
        run_probe(&runner).unwrap().mdns.availability,
        MdnsAvailability::Unsupported
    );
}

#[test]
fn missing_adb_and_timeout_remain_clear_execution_errors() {
    for error in [
        ExecutionError::AdbNotFound,
        ExecutionError::TimedOut(AdbCommand::Version),
    ] {
        let runner = FakeRunner::new(vec![(AdbCommand::Version, Err(error.clone()))]);
        assert_eq!(run_probe(&runner), Err(ProbeError::Execution(error)));
    }
}

#[test]
fn failed_core_command_preserves_status_and_stderr() {
    let runner = FakeRunner::new(vec![(
        AdbCommand::Version,
        Ok(CommandOutput {
            status: 2,
            stdout: String::new(),
            stderr: "bad adb".to_owned(),
        }),
    )]);

    assert_eq!(
        run_probe(&runner),
        Err(ProbeError::CommandFailed {
            command: AdbCommand::Version,
            status: 2,
            stderr: "bad adb".to_owned(),
        })
    );
}

#[test]
fn report_json_uses_stable_fields_and_valid_control_escapes() {
    let report = ProbeReport {
        adb_version: "1.0.41\npreview".to_owned(),
        devices: vec![Device {
            serial: "quoted\"\\\u{0001}".to_owned(),
            state: DeviceState::Other("recovery\tmode".to_owned()),
            transport: Transport::Unknown,
        }],
        mdns: MdnsReport {
            availability: MdnsAvailability::Available,
            pairing_service_advertised: true,
            connect_service_advertised: false,
            malformed_lines: 0,
        },
        wireless_connected: false,
        paired_with_this_host: PairingObservation::Unknown,
    };
    let json = report_json(&report);

    assert!(json.starts_with('{') && json.ends_with('}'));
    assert!(json.contains("\"adb_version\":\"1.0.41\\npreview\""));
    assert!(json.contains("quoted\\\"\\\\\\u0001"));
    assert!(json.contains("recovery\\tmode"));
    assert!(json.contains("\"paired_with_this_host\":\"unknown\""));
}

#[test]
fn result_maps_to_cli_exit_code() {
    let ok = run_probe(&success_runner("List of devices attached\n", ""));
    assert_eq!(exit_code_for(&ok), 0);
    let error = Err(ProbeError::Execution(ExecutionError::AdbNotFound));
    assert_eq!(exit_code_for(&error), 1);
}

#[test]
fn validates_the_complete_cli_argument_list() {
    assert!(cli_args_are_valid(&[]));
    assert!(cli_args_are_valid(&[
        "--format".to_owned(),
        "json".to_owned(),
    ]));
    assert!(!cli_args_are_valid(&["--format".to_owned()]));
    assert!(!cli_args_are_valid(&[
        "--format".to_owned(),
        "json".to_owned(),
        "extra".to_owned(),
    ]));
}

// Further cases of this crate.

#[test]
fn report_json_exact_for_two_devices_and_counts() {
    let report = ProbeReport {
        adb_version: "1.0.41".to_owned(),
        devices: vec![
            Device {
                serial: "a".to_owned(),
                state: DeviceState::Device,
                transport: Transport::Usb,
            },
            Device {
                serial: "b:5555".to_owned(),
                state: DeviceState::Offline,
                transport: Transport::Tcp,
            },
        ],
        mdns: MdnsReport {
            availability: MdnsAvailability::Unsupported,
            pairing_service_advertised: false,
            connect_service_advertised: true,
            malformed_lines: 123,
        },
        wireless_connected: true,
        paired_with_this_host: PairingObservation::Unknown,
    };
    assert_eq!(
        report_json(&report),
        "{\"adb_version\":\"1.0.41\",\"devices\":[{\"serial\":\"a\",\"state\":\"device\",\"transport\":\"usb\"},{\"serial\":\"b:5555\",\"state\":\"offline\",\"transport\":\"tcp\"}],\"mdns\":{\"availability\":\"unsupported\",\"pairing_service_advertised\":false,\"connect_service_advertised\":true,\"malformed_lines\":123},\"wireless_connected\":true,\"paired_with_this_host\":\"unknown\"}"
    );
}

#[test]
fn json_escape_covers_every_named_and_control_escape() {
    assert_eq!(
        json_escape("a\"b\\c\n\r\t\u{8}\u{c}\u{1f}\u{7f}é"),
        "a\\\"b\\\\c\\n\\r\\t\\b\\f\\u001f\u{7f}é"
    );
}

#[test]
fn network_serial_needs_a_port_that_fits_u16() {
    let devices = parse_devices("List of devices attached\nhost:65536 device\n:5555 device\nhost:+80 device\n\r\nsolo\n")
    .unwrap();
    assert_eq!(devices.len(), 3);
    assert_eq!(devices[0].transport, Transport::Unknown);
    assert_eq!(devices[1].transport, Transport::Unknown);
    assert_eq!(devices[2].transport, Transport::Tcp);
}

#[test]
fn errors_render_their_messages() {
    assert_eq!(
        ExecutionError::TimedOut(AdbCommand::DevicesLong).message(),
        "adb DevicesLong timed out"
    );
    assert_eq!(
        ExecutionError::OutputTooLarge(AdbCommand::Version).message(),
        "adb Version exceeded the 65536-byte output limit"
    );
    let failed = ProbeError::CommandFailed {
        command: AdbCommand::Version,
        status: -3,
        stderr: "  oops \n".to_owned(),
    };
    assert_eq!(failed.message(), "adb Version failed with exit -3: oops");
}

#[test]
fn failing_mdns_without_unsupported_wording_is_an_error() {
    let runner = FakeRunner::new(vec![
        (
            AdbCommand::Version,
            ok("Android Debug Bridge version 1.0.41\n"),
        ),
        (AdbCommand::DevicesLong, ok("List of devices attached\n")),
        (
            AdbCommand::MdnsServices,
            Ok(CommandOutput {
                status: 1,
                stdout: String::new(),
                stderr: "daemon crashed".to_owned(),
            }),
        ),
    ]);
    assert!(matches!(
        run_probe(&runner),
        Err(ProbeError::CommandFailed {
            command: AdbCommand::MdnsServices,
            status: 1,
            ..
        })
    ));
}

#[test]
fn bounded_reader_drains_but_flags_oversized_output() {
    let mut kept = Vec::new();
    let truncated = append_limited(&mut kept, &[b'x'; 5], 4);
    assert_eq!(kept, b"xxxx");
    assert!(truncated);
}

#[test]
fn bounded_capture_in_pieces_keeps_the_first_bytes() {
    let mut kept = Vec::new();
    let mut truncated = false;
    for piece in [&b"ab"[..], &b"cd"[..], &b"ef"[..]] {
        truncated |= append_limited(&mut kept, piece, 5);
    }
    assert_eq!(kept, b"abcde");
    assert!(truncated);
    let mut exact = Vec::new();
    assert!(!append_limited(&mut exact, b"abcd", 4));
    assert!(!append_limited(&mut exact, b"", 4));
    assert!(append_limited(&mut exact, b"e", 4));
    assert_eq!(exact, b"abcd");
}
