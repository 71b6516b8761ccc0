use quadcontrol::ios::Error;
use quadcontrol::ios_session::{
    classify_child_failure, forward_args, forward_attempts_exhausted, runwda_args, tunnel_args, forward_exit, status_timeout_error,
    tunnel_registered, tunnel_timeout_error, wait_step, watch_step, ChildKind, ExitReason,
    IosLaunchOptions, IosSessionStatus, LaunchMode, WaitStep, WdaIds,
};
use std::path::PathBuf;

#[test]
fn runwda_stderr_is_classified_into_stable_codes() {
    let cases = [
        (
            "Failed to codesign: certificate has expired",
            "wda_signature_expired",
        ),
        ("provisioning profile is invalid", "wda_signature_expired"),
        ("WebDriverAgentRunner is not installed", "wda_not_installed"),
        ("could not find the test runner bundle", "wda_not_installed"),
        ("some unrelated failure", "wda_unreachable"),
    ];
    for (tail, expected) in cases {
        assert_eq!(
            classify_child_failure(ChildKind::RunWda, tail).code(),
            expected,
            "{tail}"
        );
    }
}

#[test]
fn other_children_map_to_their_own_codes() {
    assert_eq!(
        classify_child_failure(ChildKind::Tunnel, "boom").code(),
        "tunnel_failed"
    );
    assert_eq!(
        classify_child_failure(ChildKind::ForwardHttp, "boom").code(),
        "forward_failed"
    );
    assert_eq!(
        classify_child_failure(ChildKind::ForwardMjpeg, "boom").code(),
        "forward_failed"
    );
}

#[test]
fn status_carries_no_device_identifying_text() {
    let failed = IosSessionStatus::Failed {
        code: "tunnel_failed",
    };
    let exited = IosSessionStatus::Exited {
        reason: ExitReason::ChildExited {
            which: ChildKind::RunWda,
            code: 1,
        },
    };
    for status in [failed, exited] {
        let rendered = format!("{status:?}");
        assert!(!rendered.contains("REDACTEDSERIAL"), "{rendered}");
        assert!(!rendered.to_lowercase().contains("stderr"), "{rendered}");
    }
}

#[test]
fn launch_options_debug_never_prints_the_full_udid() {
    let options = IosLaunchOptions::new(
        "REDACTEDSERIAL-FULL-UDID-0001".to_owned(),
        LaunchMode::Attach {
            http_port: 1,
            mjpeg_port: 2,
        },
    );
    let rendered = options.debug_text();
    assert!(!rendered.contains("REDACTEDSERIAL-FULL"), "{rendered}");
    assert!(rendered.contains("0001"));
}

#[test]
fn forward_failures_name_the_forward() {
    assert_eq!(
        classify_child_failure(ChildKind::ForwardMjpeg, "boom").message(),
        "`ios forward(9100)` exited"
    );
    assert_eq!(
        classify_child_failure(ChildKind::RunWda, "INELIGIBLE destination").code(),
        "wda_signature_expired"
    );
}

#[test]
fn launch_options_debug_lists_the_mode() {
    let attach = IosLaunchOptions::new(
        "UDID-0002".to_owned(),
        LaunchMode::Attach {
            http_port: 8100,
            mjpeg_port: 9100,
        },
    );
    let text = attach.debug_text();
    assert!(text.starts_with("IosLaunchOptions { udid: \"iPhone ····0002\", mode: Attach { http_port: 8100, mjpeg_port: 9100 }"), "{text}");
    let launch = IosLaunchOptions::new(
        "UDID-FULL-0003".to_owned(),
        LaunchMode::Launch {
            ios: PathBuf::from("/usr/local/bin/ios"),
            wda: WdaIds {
                bundle_id: "b".into(),
                testrunner_id: "t".into(),
                xctestconfig: "x".into(),
            },
            env: vec![("K".into(), "V".into())],
        },
    );
    let text = launch.debug_text();
    assert!(!text.contains("UDID-FULL"), "{text}");
    assert!(text.contains("env: [(\"K\", \"V\")]"), "{text}");
    assert!(text.contains("tunnel_info_port: 28100"), "{text}");
}

#[test]
fn tunnels_of_other_devices_do_not_count() {
    let listed = vec!["REDACTEDUDID-OTHER".to_owned()];
    assert!(!tunnel_registered(&listed, "REDACTEDUDID"));
    assert!(tunnel_registered(&["REDACTEDUDID".to_owned()], "REDACTEDUDID"));
    assert!(!tunnel_registered(&[], "REDACTEDUDID"));
}

fn udids_of(body: &str) -> Result<Vec<String>, serde_json::Error> {
    let value: serde_json::Value = serde_json::from_str(body)?;
    Ok(value
        .as_array()
        .map(|tunnels| {
            tunnels
                .iter()
                .filter_map(|t| t.get("udid").and_then(|u| u.as_str()).map(str::to_owned))
                .collect()
        })
        .unwrap_or_default())
}

#[test]
fn empty_and_foreign_tunnels_are_not_ready() {
    let none = udids_of("[]").unwrap();
    assert!(none.is_empty());
    assert!(!tunnel_registered(&none, "REDACTEDUDID"));
    let others = udids_of(r#"[{"udid":"REDACTEDUDID-OTHER","rsdPort":1}]"#).unwrap();
    assert!(!tunnel_registered(&others, "REDACTEDUDID"));
    // The 404 body of `/` does not parse: not ready yet, not a hard error.
    assert!(udids_of("404 page not found").is_err());
}

#[test]
fn readiness_waits_put_a_stop_first_then_a_dead_child() {
    let dead = || Some(Error::TunnelFailed("`ios tunnel start` exited".into()));
    assert!(matches!(wait_step(true, dead(), true, true), WaitStep::StopRequested));
    match wait_step(false, dead(), true, true) {
        WaitStep::ChildFailed(error) => assert_eq!(error.code(), "tunnel_failed"),
        _ => panic!("a dead child fails the wait"),
    }
    assert!(matches!(wait_step(false, None, true, true), WaitStep::Ready));
    assert!(matches!(wait_step(false, None, false, true), WaitStep::TimedOut));
    assert!(matches!(wait_step(false, None, false, false), WaitStep::KeepWaiting));
}

#[test]
fn readiness_timeouts_name_their_budget() {
    assert_eq!(
        tunnel_timeout_error(10).message(),
        "device tunnel did not register within 10 s"
    );
    assert_eq!(tunnel_timeout_error(10).code(), "tunnel_failed");
    assert_eq!(
        status_timeout_error(60).message(),
        "WDA did not answer /status within 60 s"
    );
    assert_eq!(status_timeout_error(60).code(), "wda_unreachable");
}

#[test]
fn a_running_session_ends_on_stop_proxy_failure_upstream_end_or_a_dead_child() {
    let child = Some((ChildKind::RunWda, 3));
    assert_eq!(
        watch_step(true, Some("boom".into()), false, child).unwrap().unwrap(),
        ExitReason::Requested
    );
    match watch_step(false, Some("boom".into()), false, child) {
        Some(Err(error)) => {
            assert_eq!(error.code(), "proxy_failed");
            assert_eq!(error.message(), "boom");
        }
        _ => panic!("a proxy failure fails the session"),
    }
    assert_eq!(
        watch_step(false, None, false, child).unwrap().unwrap(),
        ExitReason::UpstreamClosed
    );
    assert_eq!(
        watch_step(false, None, true, child).unwrap().unwrap(),
        ExitReason::ChildExited {
            which: ChildKind::RunWda,
            code: 3
        }
    );
    assert!(watch_step(false, None, true, None).is_none());
}

#[test]
fn a_forward_that_lost_its_port_is_retried() {
    assert!(forward_exit(ChildKind::ForwardHttp, "bind: Address already in use").is_none());
    let failed = forward_exit(ChildKind::ForwardMjpeg, "device went away").unwrap();
    assert_eq!(failed.code(), "forward_failed");
    assert_eq!(failed.message(), "`ios forward(9100)` exited");
    let exhausted = forward_attempts_exhausted(ChildKind::ForwardHttp, "address already in use");
    assert_eq!(
        exhausted.message(),
        "`ios forward(8100)` could not bind a local port after 5 attempts: address already in use"
    );
}

#[test]
fn go_ios_command_lines_carry_the_device_and_ports() {
    assert_eq!(
        tunnel_args("UDID1", 28100),
        ["tunnel", "start", "--userspace", "--udid=UDID1", "--tunnel-info-port=28100"]
    );
    let wda = WdaIds {
        bundle_id: "b".into(),
        testrunner_id: "t".into(),
        xctestconfig: "x.xctest".into(),
    };
    assert_eq!(
        runwda_args("UDID1", 28100, &wda),
        [
            "runwda",
            "--udid=UDID1",
            "--tunnel-info-port=28100",
            "--bundleid=b",
            "--testrunnerbundleid=t",
            "--xctestconfig=x.xctest"
        ]
    );
    assert_eq!(
        forward_args("UDID1", 28100, 50123, 8100),
        ["forward", "--udid=UDID1", "--tunnel-info-port=28100", "50123", "8100"]
    );
}
