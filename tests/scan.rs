use portdog::analyzer::Fingerprint;
use portdog::ports::parse_port_spec;
use portdog::probes::{next_cleartext_action, probe_plan, tls_fingerprint, tls_request, uses_tls, ProbeAction};
use portdog::schedule::{
    calibration_ports, cap_concurrency, collect_open_ports, determine_optimal_settings,
    timing_profile, ScanSettings, TimingProfile,
};

const MS: u64 = 1_000_000;

fn fingerprint(service: &str, banner: &str) -> Fingerprint {
    Fingerprint { service_name: service.to_string(), banner: banner.to_string() }
}

#[test]
fn port_lists_and_ranges_are_merged() {
    assert_eq!(parse_port_spec("80,443"), Ok(vec![80, 443]));
    assert_eq!(parse_port_spec("443,80,80"), Ok(vec![80, 443]));
    assert_eq!(parse_port_spec("1-3,2-5"), Ok(vec![1, 2, 3, 4, 5]));
    assert_eq!(parse_port_spec("10-12,20,30-31"), Ok(vec![10, 11, 12, 20, 30, 31]));
    assert_eq!(parse_port_spec(" 22 , ,80 "), Ok(vec![22, 80]));
    assert_eq!(parse_port_spec("+80"), Ok(vec![80]));
    assert_eq!(parse_port_spec(""), Ok(vec![]));
    let all = parse_port_spec("-").unwrap();
    assert_eq!(all.len(), 65535);
    assert_eq!(all[0], 1);
    assert_eq!(all[65534], 65535);
    let default = parse_port_spec("1-1024").unwrap();
    assert_eq!(default.len(), 1024);
}

#[test]
fn port_spec_errors() {
    assert_eq!(parse_port_spec("0"), Err("Invalid port '0'. Port must be > 0.".to_string()));
    assert_eq!(parse_port_spec("abc"), Err("Invalid port: 'abc'".to_string()));
    assert_eq!(parse_port_spec("70000"), Err("Invalid port: '70000'".to_string()));
    assert_eq!(parse_port_spec("5-1"), Err("Invalid port range: '5-1'.".to_string()));
    assert_eq!(parse_port_spec("0-10"), Err("Invalid port range: '0-10'.".to_string()));
    assert_eq!(parse_port_spec("a-5"), Err("Invalid start of range: 'a'".to_string()));
    assert_eq!(parse_port_spec("5-b"), Err("Invalid end of range: 'b'".to_string()));
    assert_eq!(parse_port_spec("1-2-3"), Err("Invalid end of range: '2-3'".to_string()));
    assert_eq!(parse_port_spec("80,x,0"), Err("Invalid port: 'x'".to_string()));
}

#[test]
fn timing_profiles() {
    assert_eq!(
        timing_profile(3),
        TimingProfile::Fixed(ScanSettings { concurrency: 1000, timeout_nanos: 800 * MS })
    );
    assert_eq!(
        timing_profile(5),
        TimingProfile::Fixed(ScanSettings { concurrency: 5000, timeout_nanos: 300 * MS })
    );
    assert_eq!(timing_profile(4), TimingProfile::Calibrate);
    assert_eq!(
        timing_profile(0),
        TimingProfile::Fixed(ScanSettings { concurrency: 5, timeout_nanos: 15000 * MS })
    );
    assert_eq!(timing_profile(9), timing_profile(3));
}

#[test]
fn calibration_without_answers_is_conservative() {
    let c = determine_optimal_settings(&[], Some(10));
    assert_eq!(c.settings, ScanSettings { concurrency: 500, timeout_nanos: 3000 * MS });
    assert_eq!(c.mean_rtt_nanos, None);
    assert!(!c.capped);
}

#[test]
fn calibration_from_round_trips() {
    let c = determine_optimal_settings(&[10 * MS, 30 * MS], None);
    assert_eq!(c.mean_rtt_nanos, Some(20 * MS));
    assert_eq!(c.settings, ScanSettings { concurrency: 2500, timeout_nanos: 500 * MS });
    let c = determine_optimal_settings(&[150 * MS], None);
    assert_eq!(c.settings, ScanSettings { concurrency: 1800, timeout_nanos: 1150 * MS });
    let c = determine_optimal_settings(&[1000 * MS, 1000 * MS, 1000 * MS], None);
    assert_eq!(c.settings, ScanSettings { concurrency: 1000, timeout_nanos: 4000 * MS });
    let c = determine_optimal_settings(&[1 * MS], Some(1024));
    assert_eq!(c.settings.concurrency, 974);
    assert!(c.capped);
    let c = determine_optimal_settings(&[1 * MS], Some(100_000));
    assert_eq!(c.settings.concurrency, 2500);
    assert!(!c.capped);
    let c = determine_optimal_settings(&[u64::MAX, u64::MAX], None);
    assert_eq!(c.settings.timeout_nanos, 4000 * MS);
}

#[test]
fn concurrency_cap() {
    assert_eq!(cap_concurrency(2500, None), 2500);
    assert_eq!(cap_concurrency(2500, Some(256)), 206);
    assert_eq!(cap_concurrency(100, Some(256)), 100);
    assert_eq!(cap_concurrency(100, Some(20)), 1);
    assert_eq!(cap_concurrency(100, Some(51)), 1);
    assert_eq!(calibration_ports(), vec![80, 443, 22, 53, 3389, 8080, 1337, 31337]);
}

#[test]
fn closed_port_is_absent_and_report_is_sorted() {
    let outcomes = vec![
        (443, Some(fingerprint("tls", "Could not complete TLS handshake"))),
        (12345, None),
        (22, Some(fingerprint("ssh", "OpenSSH_9.3"))),
        (80, Some(fingerprint("http", "nginx"))),
    ];
    let report = collect_open_ports(outcomes);
    let ports: Vec<u16> = report.iter().map(|(p, _)| *p).collect();
    assert_eq!(ports, vec![22, 80, 443]);
    assert_eq!(report[0].1.service_name, "ssh");
    assert_eq!(report[2].1.banner, "Could not complete TLS handshake");
    assert!(collect_open_ports(vec![(12345, None)]).is_empty());
}

#[test]
fn failed_handshake_still_reports_tls() {
    let f = tls_fingerprint(443, false, None);
    assert_eq!(f.service_name, "tls");
    assert_eq!(f.banner, "Could not complete TLS handshake");
    let f = tls_fingerprint(443, true, Some(b"HTTP/1.1 200 OK\r\nServer: caddy\r\n\r\n"));
    assert_eq!(f.service_name, "http");
    assert_eq!(f.banner, "caddy");
    let f = tls_fingerprint(993, true, None);
    assert_eq!(f.service_name, "imaps");
    assert_eq!(f.banner, "");
}

#[test]
fn tls_ports_and_request() {
    assert!(uses_tls(443) && uses_tls(993) && uses_tls(995));
    assert!(!uses_tls(80) && !uses_tls(22));
    assert_eq!(tls_request(443), Some(b"GET / HTTP/1.0\r\n\r\n".to_vec()));
    assert_eq!(tls_request(993), None);
}

#[test]
fn probe_plans_follow_the_catalog() {
    let plan = probe_plan(445);
    assert_eq!(plan.len(), 2);
    assert_eq!(plan[0].len(), 168);
    assert_eq!(&plan[0][4..8], b"\xffSMB");
    assert_eq!(plan[1], b"\r\n\r\n".to_vec());
    let plan = probe_plan(8080);
    assert_eq!(plan, vec![b"GET / HTTP/1.0\r\n\r\n".to_vec(), b"\r\n\r\n".to_vec()]);
    let plan = probe_plan(3389);
    assert_eq!(plan[0][..4], [0x03, 0x00, 0x00, 0x13]);
    assert_eq!(probe_plan(12345), vec![b"\r\n\r\n".to_vec()]);
}

#[test]
fn cleartext_probe_steps() {
    match next_cleartext_action(22, 0, Some(b"SSH-2.0-OpenSSH_9.3")) {
        ProbeAction::Report(f) => {
            assert_eq!(f.service_name, "ssh");
            assert_eq!(f.banner, "OpenSSH_9.3");
        }
        other => panic!("unexpected {:?}", other),
    }
    match next_cleartext_action(80, 0, None) {
        ProbeAction::Send(p) => assert_eq!(p, b"GET / HTTP/1.0\r\n\r\n".to_vec()),
        other => panic!("unexpected {:?}", other),
    }
    match next_cleartext_action(80, 1, Some(b"")) {
        ProbeAction::Send(p) => assert_eq!(p, b"\r\n\r\n".to_vec()),
        other => panic!("unexpected {:?}", other),
    }
    match next_cleartext_action(445, 2, None) {
        ProbeAction::Report(f) => {
            assert_eq!(f.service_name, "microsoft-ds");
            assert_eq!(f.banner, "[unresponsive]");
        }
        other => panic!("unexpected {:?}", other),
    }
    match next_cleartext_action(12345, 1, None) {
        ProbeAction::Report(f) => {
            assert_eq!(f.service_name, "unknown");
            assert_eq!(f.banner, "[unresponsive]");
        }
        other => panic!("unexpected {:?}", other),
    }
}
