use crypton_sweep::dashboard::dashboard_path;
use crypton_sweep::ports::parse_ports;
use crypton_sweep::shell::shell_command_args;
use crypton_sweep::targets::expand_targets;
use std::path::PathBuf;

#[test]
fn expands_cidr_and_deduplicates_targets() {
    let targets = expand_targets(
        &["192.168.1.0/30".into(), "192.168.1.1-192.168.1.2".into()],
        16,
    )
    .unwrap();
    assert_eq!(
        targets,
        vec!["192.168.1.0", "192.168.1.1", "192.168.1.2", "192.168.1.3"]
    );
}

#[test]
fn rejects_target_expansion_above_limit() {
    let error = expand_targets(&["10.0.0.0/24".into()], 32).unwrap_err();
    assert!(error.message().contains("expands to 256 hosts"));
}

#[test]
fn parses_port_ranges() {
    assert_eq!(
        parse_ports("80,443,8000-8002,443").unwrap(),
        vec![80, 443, 8000, 8001, 8002]
    );
}

#[test]
fn expands_multiple_shorthand_ranges() {
    let targets =
        expand_targets(&["192.168.1.1-2".into(), "192.168.1.10-11".into()], 16).unwrap();
    assert_eq!(
        targets,
        vec!["192.168.1.1", "192.168.1.10", "192.168.1.11", "192.168.1.2"]
    );
}

#[test]
fn dashboard_uses_json_stem() {
    let path = dashboard_path("reports/industry-scan.json", "reports").unwrap();
    assert_eq!(PathBuf::from(path), PathBuf::from("reports/industry-scan.html"));
}

#[test]
fn shell_accepts_slash_and_full_command_forms() {
    assert_eq!(
        shell_command_args("/discover --target 192.168.1.1-38 --ports 443").unwrap(),
        vec!["discover", "--target", "192.168.1.1-38", "--ports", "443"]
    );
    assert_eq!(
        shell_command_args("crypton-sweep dashboard 'reports/a.json'").unwrap(),
        vec!["dashboard", "reports/a.json"]
    );
}
