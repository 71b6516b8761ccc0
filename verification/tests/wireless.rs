use quadcontrol::adb_probe::{Device, DeviceState, Transport};
use quadcontrol::wireless::{
    random_text,
    adb_version_check, check_adb, classify_round_failure, round_close, connect_service_for_guid,
    deduplicate_devices, extend_with_usable, find_guid, find_pairing_service,
    find_pairing_services, generate_pairing_secret, identity_pairs, pair_outcome,
    pair_stderr_summary, parse_adb_version, parse_mdns_services, read_ro_serialno,
    render_qr, require_supported_adb, round_result, serial_matches_guid, service_endpoint,
    wipe_secret_string, CloseReason, PairResult, PairingArbiter, PollDecision, RoundAction,
    RoundEvent, RoundState, WirelessError,
};

const ALPHANUMERIC: &[u8] = b"0123456789ABCDEFGHIJKLMNOPQRSTUVWXYZabcdefghijklmnopqrstuvwxyz";

#[test]
fn payload_shape_and_charset() {
    let s = generate_pairing_secret().unwrap();
    assert!(s.service_name.starts_with("studio-"));
    assert_eq!(s.service_name.len(), 17);
    assert_eq!(s.password.len(), 12);
    assert!(s.password.bytes().all(|b| ALPHANUMERIC.contains(&b)));
    assert_eq!(
        s.payload,
        format!("WIFI:T:ADB;S:{};P:{};;", s.service_name, s.password)
    );
}

#[test]
fn qr_decodes_back_to_the_exact_payload() {
    let secret = generate_pairing_secret().unwrap();
    let payload = secret.payload.clone();
    let rendered = render_qr(&payload).unwrap();

    let mut grid: Vec<Vec<bool>> = Vec::new();
    for line in rendered.lines().filter(|line| !line.is_empty()) {
        let mut row = Vec::new();
        let mut rest = line;
        while let Some(index) = rest.find("\u{1b}[") {
            rest = &rest[index + 2..];
            let (code, tail) = rest.split_once('m').expect("an ANSI sequence ends with m");
            rest = tail;
            match code {
                "40" => row.push(true),
                "47" => row.push(false),
                "0" => {}
                other => panic!("unexpected ANSI code: {other}"),
            }
        }
        if !row.is_empty() {
            grid.push(row);
        }
    }
    let width = grid[0].len();
    let height = grid.len();
    assert_eq!(width, height, "the code is square");
    assert!(
        grid[0].iter().all(|dark| !dark) && grid[0..4].iter().all(|r| r.iter().all(|d| !d)),
        "the quiet zone is light"
    );

    const SCALE: usize = 8;
    let side = width * SCALE;
    let mut pixels = vec![255u8; side * side];
    for (y, row) in grid.iter().enumerate() {
        for (x, dark) in row.iter().enumerate() {
            if *dark {
                for dy in 0..SCALE {
                    for dx in 0..SCALE {
                        pixels[(y * SCALE + dy) * side + x * SCALE + dx] = 0;
                    }
                }
            }
        }
    }
    let mut image =
        rqrr::PreparedImage::prepare_from_greyscale(side, side, |x, y| pixels[y * side + x]);
    let grids = image.detect_grids();
    assert_eq!(grids.len(), 1, "exactly one code is rendered");
    let (_meta, decoded) = grids[0].decode().expect("decodable as seen on screen");
    assert_eq!(decoded, payload, "the scanned text is the payload");
    assert!(decoded.starts_with("WIFI:T:ADB;S:studio-"));
}

#[test]
fn parses_firmware_mdns_and_exact_match() {
    let services = parse_mdns_services("List of discovered mdns services\nstudio-ABCDEFGHIJ._adb-tls-pairing._tcp. 192.168.1.20:37145\nstudio-OTHER._adb-tls-pairing._tcp. 192.168.1.21 37146\nadb-AAAA-BBBB._adb-tls-connect._tcp. 192.168.1.20:40733");
    assert_eq!(services[0].address, "192.168.1.20");
    assert_eq!(services[0].port, 37145);
    assert!(find_pairing_service(&services, "studio-ABCDEFGHIJ").is_some());
    assert!(find_pairing_service(&services, "studio").is_none());
    assert_eq!(
        connect_service_for_guid(&services, "adb-AAAA-BBBB")
            .unwrap()
            .port,
        40733
    );
}

#[test]
fn guid_and_version_rules() {
    assert_eq!(
        find_guid("Successfully paired to 192.0.2.1:37145 [guid=adb-Ab12-CD34]"),
        Some("adb-Ab12-CD34".into())
    );
    assert_eq!(find_guid("Successfully paired"), None);
    assert_eq!(
        parse_adb_version("Android Debug Bridge\nVersion 37.0.1"),
        Some((37, 0, 1))
    );
    assert!(require_supported_adb("Version 29.0.6").is_err());
    assert_eq!(
        parse_adb_version("Android Debug Bridge version 1.0.41\nVersion 37.0.1-13206524"),
        Some((37, 0, 1))
    );
}

#[test]
fn guid_matching_and_dedupe() {
    assert!(serial_matches_guid(
        "adb-A.B._adb-tls-connect._tcp",
        "adb-A.B"
    ));
    let a = Device {
        serial: "1.2.3.4:5555".into(),
        state: DeviceState::Device,
        transport: Transport::Tcp,
    };
    let b = Device {
        serial: "adb-X".into(),
        state: DeviceState::Device,
        transport: Transport::Tcp,
    };
    assert_eq!(
        deduplicate_devices(&[a, b], &[("1".into(), "2".into())]).len(),
        2
    );
}

#[test]
fn service_lost_waits_for_pair_then_success() {
    let mut round = RoundState::new(1);
    round.pair_in_flight = true;
    assert_eq!(
        round.observe(RoundEvent::ServiceLost),
        RoundAction::WaitForPair
    );
    assert_eq!(
        round.observe(RoundEvent::PairSucceeded("adb-A".into())),
        RoundAction::Close(CloseReason::Success)
    );
    assert_eq!(round.guid.as_deref(), Some("adb-A"));
    assert!(round.closed);
}

#[test]
fn service_lost_after_pair_failure_closes_service_lost() {
    let mut round = RoundState::new(1);
    round.pair_in_flight = true;
    assert_eq!(
        round.observe(RoundEvent::ServiceLost),
        RoundAction::WaitForPair
    );
    assert_eq!(
        round.observe(RoundEvent::PairTimedOut),
        RoundAction::Close(CloseReason::ServiceLost)
    );
    assert!(round.closed);
}

#[test]
fn pair_failure_and_timeout_keep_their_own_close_reasons() {
    let mut failed = RoundState::new(1);
    failed.pair_in_flight = true;
    assert_eq!(
        failed.observe(RoundEvent::PairFailed),
        RoundAction::Close(CloseReason::PairFailed)
    );
    let mut timed_out = RoundState::new(1);
    timed_out.pair_in_flight = true;
    assert_eq!(
        timed_out.observe(RoundEvent::PairTimedOut),
        RoundAction::Close(CloseReason::PairTimedOut)
    );
}

#[test]
fn pair_stderr_summary_preserves_diagnostics_without_password() {
    let summary = pair_stderr_summary(
        "failed password=secret-code network unreachable",
        "secret-code",
    );
    assert!(summary.contains("network unreachable"));
    assert!(!summary.contains("secret-code"));
    assert!(summary.contains("[redacted]"));
}

#[test]
fn round_close_invalidates_id_wipes_secret_and_discards_late_events() {
    let mut round = RoundState::new(41);
    let mut secret = generate_pairing_secret().unwrap();
    let old_id = round.id;
    assert!(!secret.password.is_empty());
    let mut qr = render_qr(&secret.payload).unwrap();
    assert!(!qr.is_empty());
    let reason = round_close(&mut round, &mut secret, &mut qr, RoundEvent::Cancelled);
    assert_eq!(reason, CloseReason::Cancelled);
    assert!(qr.is_empty());
    assert_ne!(round.id, old_id);
    assert!(secret.password.is_empty());
    assert!(secret.payload.is_empty());
    assert!(secret.service_name.is_empty());
    assert_eq!(
        round.observe_for_round(old_id, RoundEvent::PairFailed),
        RoundAction::IgnoredAfterClose
    );
}

#[test]
fn failure_attribution_is_consistent_across_mixed_candidates() {
    let (event, error) =
        classify_round_failure(false, false, WirelessError::CommandFailed("boom".into()));
    assert_eq!(event, RoundEvent::PairFailed);
    assert!(matches!(error, WirelessError::CommandFailed(_)));

    let (event, error) =
        classify_round_failure(false, true, WirelessError::CommandFailed("boom".into()));
    assert_eq!(event, RoundEvent::PairTimedOut);
    assert!(matches!(error, WirelessError::TimedOut));

    let (event, error) = classify_round_failure(false, true, WirelessError::TimedOut);
    assert_eq!(event, RoundEvent::PairTimedOut);
    assert!(matches!(error, WirelessError::TimedOut));

    for first in [
        WirelessError::CommandFailed("boom".into()),
        WirelessError::TimedOut,
        WirelessError::PairOutputUnparseable,
    ] {
        let (event, error) = classify_round_failure(true, true, first);
        assert_eq!(event, RoundEvent::ServiceLost);
        assert!(matches!(error, WirelessError::ServiceLost));
    }
    let (event, error) =
        classify_round_failure(true, false, WirelessError::CommandFailed("boom".into()));
    assert_eq!(event, RoundEvent::ServiceLost);
    assert!(matches!(error, WirelessError::ServiceLost));
}

#[test]
fn scan_timeout_and_pair_timeout_are_different_reasons() {
    let mut scan = RoundState::new(1);
    assert_eq!(
        scan.observe(RoundEvent::Timeout),
        RoundAction::Close(CloseReason::Timeout)
    );
    let mut pair = RoundState::new(1);
    pair.pair_in_flight = true;
    assert_eq!(
        pair.observe(RoundEvent::PairTimedOut),
        RoundAction::Close(CloseReason::PairTimedOut)
    );
}

#[test]
fn same_name_competition_returns_every_matching_endpoint() {
    let output = "List of discovered mdns services\nstudio-ABCDEFGHIJ._adb-tls-pairing._tcp. 192.168.1.20:37145\nstudio-ABCDEFGHIJ._adb-tls-pairing._tcp. 192.168.1.31:41002\nadb-R5CT30ABCDE-xyz._adb-tls-connect._tcp. 192.168.1.20:5555";
    let services = parse_mdns_services(output);
    let matching = find_pairing_services(&services, "studio-ABCDEFGHIJ");
    assert_eq!(matching.len(), 2);
    assert_eq!(matching[0].port, 37145);
    assert_eq!(matching[1].port, 41002);
    assert!(find_pairing_services(&services, "studio-OTHERNAME").is_empty());
}

#[test]
fn stderr_redaction_survives_the_truncation_boundary() {
    let password = "AbCdEfGhIjKl";
    let filler = "x".repeat(512 - password.len() / 2);
    let stderr = format!("{filler}{password} trailing detail");
    let summary = pair_stderr_summary(&stderr, password);
    assert!(!summary.contains(&password[..password.len() / 2]));
    assert!(!summary.contains(password));
}

#[test]
fn dedupe_merges_on_shared_identity_and_keeps_unknown_apart() {
    let ip = Device {
        serial: "192.168.1.20:5555".into(),
        state: DeviceState::Device,
        transport: Transport::Tcp,
    };
    let guid = Device {
        serial: "adb-R5CT30ABCDE-xyz".into(),
        state: DeviceState::Device,
        transport: Transport::Tcp,
    };
    let pairs = vec![(ip.serial.clone(), guid.serial.clone())];
    let merged = deduplicate_devices(&[ip.clone(), guid.clone()], &pairs);
    assert_eq!(merged.len(), 1);
    assert_eq!(merged[0].serial, "adb-R5CT30ABCDE-xyz");
    let unknown = deduplicate_devices(&[ip, guid], &[]);
    assert_eq!(unknown.len(), 2);
}

#[test]
fn closed_round_ignores_every_event() {
    let mut round = RoundState::new(5);
    assert_eq!(
        round.close(CloseReason::Cancelled),
        RoundAction::Close(CloseReason::Cancelled)
    );
    assert_eq!(round.id, 6);
    assert_eq!(
        round.observe(RoundEvent::PairSucceeded("adb-Z".into())),
        RoundAction::IgnoredAfterClose
    );
    assert_eq!(round.guid, None);
    let mut top = RoundState::new(u64::MAX);
    top.close(CloseReason::Timeout);
    assert_eq!(top.id, 0);
}

#[test]
fn mdns_lines_in_other_shapes() {
    let services = parse_mdns_services(
        "adb-1 _adb-tls-connect._tcp. 10.0.0.2:5555\n_adb-tls-pairing._tcp only\nplain line\nname _adb-tls-pairing._tcp 10.0.0.3 40000",
    );
    assert_eq!(services.len(), 2);
    assert_eq!(services[0].instance, "adb-1");
    assert_eq!(services[0].service, "_adb-tls-connect._tcp");
    assert_eq!(services[0].port, 5555);
    assert_eq!(services[1].address, "10.0.0.3");
    assert_eq!(services[1].port, 40000);
    assert_eq!(service_endpoint(&services[1]), "10.0.0.3:40000");
}

#[test]
fn identity_pairs_link_equal_identities_only() {
    let read = vec![
        ("a".to_owned(), Some("X".to_owned())),
        ("b".to_owned(), None),
        ("c".to_owned(), Some("X".to_owned())),
        ("d".to_owned(), Some("Y".to_owned())),
    ];
    assert_eq!(identity_pairs(&read), vec![("a".to_owned(), "c".to_owned())]);
}

#[test]
fn adb_answers_are_judged() {
    assert!(matches!(
        adb_version_check(1, "Version 37.0.1"),
        Err(WirelessError::CommandFailed(_))
    ));
    assert!(matches!(adb_version_check(0, "Version 37.0.1"), Ok((37, 0, 1))));
    let pre = check_adb((36, 0, 0), 0).unwrap();
    assert!(pre.below_tested_baseline);
    assert!(matches!(check_adb((37, 0, 1), 1), Err(WirelessError::MdnsUnavailable)));
    assert_eq!(read_ro_serialno(0, "  R5CT \n"), Some("R5CT".to_owned()));
    assert_eq!(read_ro_serialno(0, "  \n"), None);
    assert_eq!(read_ro_serialno(1, "R5CT"), None);
    assert_eq!(
        require_supported_adb("Version 29.0.6").unwrap_err().message(),
        "adb 29.0.6 过旧，需要 30.0.0 或更高版本"
    );
}

#[test]
fn pair_processes_are_arbitrated() {
    let ok = PairResult {
        status: 0,
        stdout: "Successfully paired to 10.0.0.2:1 [guid=adb-AB12]".into(),
        stderr: String::new(),
    };
    assert_eq!(pair_outcome(&ok, "pw").unwrap(), "adb-AB12");
    let mut round = RoundState::new(9);
    let mut arbiter = PairingArbiter::new(9);
    assert!(arbiter.should_spawn("10.0.0.2:1"));
    arbiter.on_spawned("10.0.0.2:1".into(), &mut round);
    assert!(round.pair_in_flight);
    assert!(!arbiter.should_spawn("10.0.0.2:1"));
    let lost = PairResult {
        status: 1,
        stdout: String::new(),
        stderr: String::new(),
    };
    assert!(matches!(arbiter.on_poll(Ok(Some(lost)), "pw"), PollDecision::Remove));
    assert!(matches!(arbiter.failure, Some(WirelessError::CommandFailed(ref m)) if m == "pair failed"));
    assert!(arbiter.on_call_failed(WirelessError::AdbNotFound, true).is_none());
    let (event, error) = arbiter.after_polls(true, &mut round).unwrap();
    assert_eq!(event, RoundEvent::PairFailed);
    assert!(matches!(error, WirelessError::CommandFailed(_)));
    assert!(!round.pair_in_flight);
    assert!(matches!(
        round_result(Err(WirelessError::Cancelled), Err(WirelessError::TimedOut)),
        Err(WirelessError::CommandFailed(ref m)) if m == "已取消 / cancelled（另外：回收在飞进程失败：adb 命令超时）"
    ));
}

#[test]
fn random_bytes_map_to_the_alphabet() {
    let mut out = Vec::new();
    extend_with_usable(&mut out, &[0, 61, 62, 248, 255, 10], 4);
    assert_eq!(out, vec!['0', 'z', '0', 'A']);
    let mut more = vec!['q'];
    extend_with_usable(&mut more, &[249, 35], 5);
    assert_eq!(more, vec!['q', 'Z']);
}

#[test]
fn wiped_credentials_are_empty() {
    let mut code = String::from("123456");
    wipe_secret_string(&mut code);
    assert!(code.is_empty());
    let mut secret = generate_pairing_secret().unwrap();
    secret.wipe();
    assert!(secret.password.is_empty() && secret.payload.is_empty());
}

#[test]
fn independent_csprng_values_and_explicit_wipe() {
    let first = generate_pairing_secret().unwrap();
    let second = generate_pairing_secret().unwrap();
    assert_ne!(first.service_name, second.service_name);
    assert_ne!(first.password, second.password);
    let mut value = String::with_capacity(16);
    value.push_str("secret");
    wipe_secret_string(&mut value);
    assert!(value.is_empty());
}

#[test]
fn mdns_error_early_exit_goes_through_arbitration() {
    // A failed discovery with no pair process in flight ends the round, and the
    // arbiter attributes it: a plain failure, with the error as it came.
    let mut arbiter = PairingArbiter::new(3);
    match arbiter.on_call_failed(WirelessError::AdbNotFound, false) {
        Some((event, error)) => {
            assert_eq!(event, RoundEvent::PairFailed);
            assert!(matches!(error, WirelessError::AdbNotFound));
        }
        None => panic!("the round must end"),
    }
    assert!(arbiter.failure.is_none());
}

#[test]
fn random_text_has_the_requested_shape() {
    assert_eq!(random_text(0), Some(String::new()));
    let text = random_text(40).unwrap();
    assert_eq!(text.chars().count(), 40);
    assert!(text.bytes().all(|b| ALPHANUMERIC.contains(&b)));
}

#[test]
fn dedupe_keeps_unnamed_devices_and_lists_only_input_devices() {
    let dev = |serial: &str| Device {
        serial: serial.into(),
        state: DeviceState::Device,
        transport: Transport::Tcp,
    };
    let ip = dev("192.168.1.20:5555");
    let guid = dev("adb-R5CT30ABCDE-xyz");
    let usb = dev("R5CT30ZZZZ");
    let pairs = vec![(ip.serial.clone(), guid.serial.clone())];
    let out = deduplicate_devices(&[usb.clone(), ip.clone(), guid.clone()], &pairs);
    assert!(out.contains(&usb));
    assert_eq!(out.len(), 2);
    for d in &out {
        assert!([usb.clone(), ip.clone(), guid.clone()].contains(d));
    }
}

#[test]
fn long_random_text_is_still_given() {
    let text = random_text(5000).unwrap();
    assert_eq!(text.chars().count(), 5000);
}

#[test]
fn dedupe_keeps_devices_whose_pairs_name_one_listed_serial() {
    let a = Device {
        serial: "192.168.1.20:5555".into(),
        state: DeviceState::Device,
        transport: Transport::Tcp,
    };
    let b = Device {
        serial: "R5CT30ABCDE".into(),
        state: DeviceState::Device,
        transport: Transport::Usb,
    };
    let pairs = vec![(a.serial.clone(), "adb-absent-xyz".to_owned())];
    let out = deduplicate_devices(&[a.clone(), b.clone()], &pairs);
    assert_eq!(out, vec![a, b]);
}
