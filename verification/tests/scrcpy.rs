use quadcontrol::adb_probe::{CommandOutput, Device, DeviceState, ExecutionError, Transport};
use quadcontrol::process::RingBuffer;
use quadcontrol::scrcpy::{
    build_args, devices, filtered_args, reaped_after_stop, select_device, settled_status,
    validate_scrcpy, validate_version_text, Error, LaunchOptions, SessionStatus,
};
use std::path::PathBuf;

#[test]
fn stable_versions_and_prereleases() {
    assert!(validate_version_text("scrcpy 4.1\n").is_ok());
    assert!(validate_version_text("scrcpy 4.2-rc1\n").is_err());
    assert!(validate_version_text("scrcpy 3.3\n").is_err());
    assert!(validate_version_text("not a version\n").is_err());
    assert!(validate_version_text("x\r\nscrcpy 4.1\r\n").is_ok());
}

#[test]
fn semantic_filter_is_systematic() {
    let conflicts = [
        ("serial", "wrapper-owned configuration"),
        ("select-usb", "wrapper-owned configuration"),
        ("select-tcpip", "wrapper-owned configuration"),
        ("window-title", "wrapper-owned configuration"),
        ("video-bit-rate", "wrapper-owned configuration"),
    ];
    for (name, reason) in conflicts {
        for args in [
            vec![format!("--{name}=value")],
            vec![format!("--{name}"), "value".into()],
        ] {
            let error = filtered_args(&args).unwrap_err().message();
            assert!(error.contains(reason), "{args:?}: {error}");
        }
    }

    let denied = [
        ("no-cleanup", "cleanup contract"),
        ("tcpip", "connection state"),
        ("screen-off-timeout", "device settings"),
        ("record", "recording"),
        ("stay-awake", "device settings"),
        ("show-touches", "device settings"),
        ("power-off-on-close", "device settings"),
        ("kill-adb-on-close", "other adb users"),
        ("no-window", "visible mirroring"),
        ("no-playback", "visible mirroring"),
        ("no-video-playback", "visible mirroring"),
        ("no-video", "visible mirroring"),
        ("otg", "visible mirroring"),
    ];
    for (name, reason) in denied {
        for args in [
            vec![format!("--{name}=value")],
            vec![format!("--{name}"), "value".into()],
        ] {
            let error = filtered_args(&args).unwrap_err().message();
            assert!(error.contains(reason), "{args:?}: {error}");
        }
    }

    for (alias, reason) in [
        ('s', "wrapper-owned configuration"),
        ('b', "wrapper-owned configuration"),
        ('d', "wrapper-owned configuration"),
        ('e', "wrapper-owned configuration"),
        ('w', "device settings"),
        ('t', "device settings"),
        ('N', "visible mirroring"),
        ('r', "recording"),
    ] {
        let args = if matches!(alias, 's' | 'b' | 'r') {
            vec![format!("-{alias}"), "value".into()]
        } else {
            vec![format!("-{alias}")]
        };
        let error = filtered_args(&args).unwrap_err().message();
        assert!(error.contains(reason), "{args:?}: {error}");
    }
    for combination in ["-wt", "-sN", "-ber", "-dT"] {
        assert!(
            filtered_args(&[combination.into()]).is_err(),
            "{combination}"
        );
    }
    assert!(filtered_args(&["-b".into()])
        .unwrap_err()
        .message()
        .contains("requires a value"));
    assert!(filtered_args(&["-s".into(), "--".into()]).is_err());
    assert!(filtered_args(&["--".into(), "--no-cleanup".into(), "-wt".into()]).is_ok());
}

fn device(serial: &str, state: DeviceState) -> Device {
    Device {
        serial: serial.into(),
        state,
        transport: Transport::Unknown,
    }
}

#[test]
fn selection_branches() {
    assert_eq!(
        select_device(&[device("REDACTEDSERIAL", DeviceState::Device)], None).unwrap(),
        "REDACTEDSERIAL"
    );
    assert!(select_device(
        &[device("a", DeviceState::Device), device("b", DeviceState::Device)],
        None
    )
    .is_err());
    assert!(select_device(&[device("a", DeviceState::Unauthorized)], None).is_err());
}

#[test]
fn selection_messages_name_the_device_and_its_state() {
    let list = [
        device("off1", DeviceState::Offline),
        device("ua1", DeviceState::Unauthorized),
    ];
    assert_eq!(
        select_device(&list, None).unwrap_err().message(),
        "device ua1 is unauthorized; approve this computer on the device"
    );
    assert_eq!(
        select_device(&[device("off1", DeviceState::Offline)], None)
            .unwrap_err()
            .message(),
        "device off1 is offline; reconnect the device"
    );
    assert_eq!(
        select_device(&[], None).unwrap_err().message(),
        "no adb device is ready"
    );
    assert_eq!(
        select_device(&list, Some("off1")).unwrap_err().message(),
        "device off1 is offline, not device"
    );
    assert_eq!(
        select_device(&list, Some("zz")).unwrap_err().message(),
        "device zz is not present in adb devices -l"
    );
    assert!(matches!(
        select_device(
            &[device("a", DeviceState::Device), device("b", DeviceState::Device)],
            None
        ),
        Err(Error::Usage(_))
    ));
    assert_eq!(
        select_device(
            &[device("a", DeviceState::Device), device("b", DeviceState::Device)],
            Some("b")
        )
        .unwrap(),
        "b"
    );
}

#[test]
fn version_errors_say_why() {
    assert_eq!(
        validate_version_text("scrcpy 4.2-rc1\n").unwrap_err().message(),
        "scrcpy prerelease 4.2-rc1 is not supported; install stable scrcpy 4.1 or newer"
    );
    assert_eq!(
        validate_version_text("scrcpy 3.3\n").unwrap_err().message(),
        "scrcpy 3.3 is too old; install stable scrcpy 4.1 or newer"
    );
    assert_eq!(
        validate_version_text("scrcpy 4.x\n").unwrap_err().message(),
        "invalid scrcpy version"
    );
    assert!(validate_version_text("scrcpy 5\n").is_ok());
    assert!(validate_version_text("scrcpy 4.0.9\n").is_err());
    assert!(validate_version_text("").is_err());
}

#[test]
fn accepted_passthrough_is_returned_unchanged() {
    let args: Vec<String> = vec![
        "--max-size=1024".into(),
        "-m".into(),
        "800".into(),
        "--".into(),
        "--record=x.mp4".into(),
    ];
    assert_eq!(filtered_args(&args).unwrap(), args);
}

fn options(passthrough: Vec<String>, screen_off: bool) -> LaunchOptions {
    LaunchOptions {
        adb: PathBuf::from("adb"),
        scrcpy: PathBuf::from("scrcpy"),
        serial: "SER".into(),
        bit_rate: "8M".into(),
        screen_off,
        passthrough,
        scrcpy_env: Vec::new(),
    }
}

#[test]
fn wrapper_options_come_first() {
    assert_eq!(
        build_args(&options(vec!["--max-fps=30".into()], true)).unwrap(),
        vec![
            "--serial",
            "SER",
            "--window-title=QuadControl",
            "--video-bit-rate",
            "8M",
            "--max-fps=30",
            "--turn-screen-off"
        ]
    );
    assert_eq!(build_args(&options(Vec::new(), false)).unwrap().len(), 5);
    assert!(build_args(&options(vec!["--serial=x".into()], false)).is_err());
}

#[test]
fn device_listing_failures_become_adb_errors() {
    let failed = Ok(CommandOutput {
        status: 1,
        stdout: String::new(),
        stderr: "  boom \n".into(),
    });
    assert_eq!(
        devices(failed).unwrap_err().message(),
        "adb devices -l failed with exit 1: boom"
    );
    assert_eq!(
        devices(Err(ExecutionError::AdbNotFound)).unwrap_err().message(),
        "adb executable was not found"
    );
    let listed = devices(Ok(CommandOutput {
        status: 0,
        stdout: "List of devices attached\nR5 device usb:1-1 product:x\n".into(),
        stderr: String::new(),
    }))
    .unwrap();
    assert_eq!(listed.len(), 1);
    assert_eq!(listed[0].serial, "R5");
}

#[test]
fn version_probe_output_is_judged() {
    assert!(validate_scrcpy(true, b"scrcpy 4.1 <https://github.com/Genymobile/scrcpy>\n", b"").is_ok());
    assert_eq!(
        validate_scrcpy(false, b"", b"  oops  ").unwrap_err().message(),
        "scrcpy --version failed: oops. Install scrcpy from https://github.com/Genymobile/scrcpy/releases."
    );
    assert!(validate_scrcpy(true, b"scrcpy 2.0\n", b"").is_err());
}

#[test]
fn supervision_outcomes_settle_the_status() {
    assert!(matches!(reaped_after_stop(Some(3)), Ok(3)));
    assert_eq!(
        reaped_after_stop(None).unwrap_err().message(),
        "stopped session was not reaped"
    );
    assert_eq!(
        settled_status(Ok(0), "tail".into()),
        SessionStatus::Exited {
            code: 0,
            stderr_tail: "tail".into()
        }
    );
    assert_eq!(
        settled_status(Err(Error::WrongState("x".into())), String::new()),
        SessionStatus::Failed { message: "x".into() }
    );
}

#[test]
fn ring_buffer_keeps_the_last_bytes() {
    let mut ring = RingBuffer::new(4);
    ring.push(b"ab");
    ring.push(b"cdef");
    assert_eq!(ring.text(), "cdef");
    ring.push(b"g");
    assert_eq!(ring.text(), "defg");
    let mut whole = RingBuffer::new(4);
    whole.push(b"abcdefg");
    assert_eq!(whole.text(), ring.text());
}

#[test]
fn helper_version_validation_covers_malformed_old_prerelease_and_nonzero_exit() {
    validate_scrcpy(true, b"scrcpy 4.1\nrevision: test\n", b"").unwrap();
    assert!(validate_scrcpy(true, b"scrcpy 4.1-rc1\n", b"").is_err());
    assert!(validate_scrcpy(true, b"not a version\n", b"").is_err());
    assert!(validate_scrcpy(true, b"scrcpy 3.3\n", b"").is_err());
    assert!(validate_scrcpy(false, b"", b"version command failed\n").is_err());
}

#[test]
fn a_zero_limit_buffer_keeps_nothing() {
    let mut ring = RingBuffer::new(0);
    ring.push(b"abc");
    assert_eq!(ring.text(), "");
}

#[test]
fn missing_scrcpy_message_names_its_path() {
    assert_eq!(
        Error::ScrcpyNotFound(PathBuf::from("/opt/tools/scrcpy")).message(),
        "scrcpy was not found at /opt/tools/scrcpy. Install scrcpy from https://github.com/Genymobile/scrcpy/releases, then try again."
    );
}
