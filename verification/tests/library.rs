use crypton_sweep::assess::{assess, known_service_port, service_for_port, CryptoProfile, TlsObservation};
use crypton_sweep::cli::{launch_plan, shell_action, ShellAction};
use crypton_sweep::cyclonedx::{
    algorithm_ref, asset_ref, bom_kind_label, export_cyclonedx, export_cyclonedx_at, property,
    CycloneDxKind,
};
use crypton_sweep::dashboard::{dashboard_path, render_report_page, DashboardError};
use crypton_sweep::inventory::{inventory, inventory_report, is_cyclonedx_format, ComponentEntry, InventoryError};
use crypton_sweep::ports::{parse_ports, ports_to_spec, PortError};
use crypton_sweep::report::{relationships_for, summarize, Asset};
use crypton_sweep::scan::{
    after_colon, assemble_report, discover_ports, finalize_report, network_asset, network_collection,
    parse_openssl_output, progress_due, requested_ports, sort_by_port, tls_probe_failed,
    tls_probe_not_requested, tls_probe_succeeded, DiscoverError, TlsProbeError,
};
use crypton_sweep::serve::{
    dashboard_url, reply_to_request, reply_to_text, request_path_of, response_head, served_file_name, Reply,
};
use crypton_sweep::shell::{shell_command_args, ShellError};
use crypton_sweep::signals::{crypto_from_component, crypto_from_tls};
use crypton_sweep::targets::{expand_targets, TargetError};
use crypton_sweep::scan::ClockError;
use std::path::PathBuf;

fn observation(cipher: &str, key_exchange: &str, signature: &str) -> TlsObservation {
    TlsObservation {
        version: Some("TLSv1.3".to_string()),
        cipher: Some(cipher.to_string()),
        key_exchange: Some(key_exchange.to_string()),
        signature_algorithm: Some(signature.to_string()),
        certificate_algorithm: None,
        certificate_key_bits: None,
        certificate_expires: None,
        pqc_group: None,
        raw_evidence: vec![],
    }
}

fn plain_asset(host: &str, port: u16) -> Asset {
    network_asset(host, port, None, tls_probe_not_requested())
}

fn tls_asset(host: &str, port: u16, obs: TlsObservation) -> Asset {
    network_asset(host, port, Some(obs), tls_probe_succeeded())
}

fn sample_report(assets: Vec<Asset>) -> crypton_sweep::report::ScanReport {
    let targets = vec!["10.0.0.1".to_string()];
    let collection = network_collection(vec![443, 1883], 1, assets.len(), 800, true);
    assemble_report(
        "network",
        true,
        targets,
        assets,
        collection,
        "2024-01-01T00:00:00+00:00".to_string(),
        "2024-01-01T00:00:01+00:00".to_string(),
        1704067201000,
    )
}

// ---- ports ----

#[test]
fn port_list_round_trips_through_its_text() {
    for ports in [vec![], vec![1u16], vec![22, 80, 443, 8443], vec![1, 2, 3, 65535]] {
        let text = ports_to_spec(&ports);
        assert_eq!(parse_ports(&text).unwrap(), ports);
    }
}

#[test]
fn full_port_range_is_written_as_a_range() {
    let all: Vec<u16> = (1..=65535).collect();
    assert_eq!(ports_to_spec(&all), "1-65535");
    assert_eq!(parse_ports("1-65535").unwrap(), all);
}

#[test]
fn ports_text_joins_with_commas() {
    assert_eq!(ports_to_spec(&[80, 443, 8000]), "80,443,8000");
    assert_eq!(ports_to_spec(&[]), "");
}

#[test]
fn port_list_ignores_blank_items_and_sorts() {
    assert_eq!(parse_ports(" 443 , ,22,, 80-81 ").unwrap(), vec![22, 80, 81, 443]);
    assert_eq!(parse_ports("").unwrap(), Vec::<u16>::new());
    assert_eq!(parse_ports(" 8000 - 8001").unwrap(), vec![8000, 8001]);
    assert_eq!(parse_ports("+80").unwrap(), vec![80]);
}

#[test]
fn port_list_errors_name_the_item() {
    assert_eq!(parse_ports("abc"), Err(PortError::InvalidPort("abc".to_string())));
    assert_eq!(parse_ports("0"), Err(PortError::ZeroPort));
    assert_eq!(parse_ports("x-5"), Err(PortError::InvalidRangeStart("x".to_string())));
    assert_eq!(parse_ports("5-70000"), Err(PortError::InvalidRangeEnd("70000".to_string())));
    assert_eq!(parse_ports("9-3"), Err(PortError::InvalidRange("9-3".to_string())));
    assert_eq!(parse_ports("0-3"), Err(PortError::InvalidRange("0-3".to_string())));
    assert_eq!(parse_ports("80,65536"), Err(PortError::InvalidPort("65536".to_string())));
    assert_eq!(
        PortError::InvalidRange("9-3".to_string()).message(),
        "invalid port range 9-3; expected 1-65535"
    );
    assert_eq!(PortError::ZeroPort.message(), "port 0 is not a TCP service port");
    assert_eq!(PortError::InvalidRangeStart("x".into()).message(), "invalid port range start: x");
    assert_eq!(PortError::InvalidRangeEnd("y".into()).message(), "invalid port range end: y");
    assert_eq!(PortError::InvalidPort("z".into()).message(), "invalid port: z");
}

#[test]
fn scan_needs_at_least_one_port() {
    assert_eq!(discover_ports("443,22").unwrap(), vec![22, 443]);
    assert!(matches!(discover_ports(" , "), Err(DiscoverError::NoPorts)));
    assert!(matches!(discover_ports("0"), Err(DiscoverError::Ports(PortError::ZeroPort))));
    assert_eq!(
        DiscoverError::NoPorts.message(),
        "no valid ports supplied; use values such as --ports 1883,443,8443"
    );
    assert_eq!(requested_ports(true, "22"), "1-65535");
    assert_eq!(requested_ports(false, "22"), "22");
}

// ---- targets ----

#[test]
fn target_expansion_never_exceeds_the_limit() {
    let hosts = expand_targets(&["10.0.0.0/29".into(), "10.0.0.3".into()], 8).unwrap();
    assert_eq!(hosts.len(), 8);
    let err = expand_targets(&["10.0.0.0/29".into(), "10.0.1.1".into()], 8).unwrap_err();
    assert_eq!(err, TargetError::ListTooLong(9, 8));
    assert_eq!(err.message(), "target list expands to 9 hosts; maximum is 8");
}

#[test]
fn target_errors_by_kind() {
    assert_eq!(expand_targets(&["10.0.0.1".into()], 0), Err(TargetError::ZeroMaxTargets));
    assert_eq!(
        expand_targets(&["10.0.0/24".into()], 16),
        Err(TargetError::InvalidCidrAddress("10.0.0".into()))
    );
    assert_eq!(
        expand_targets(&["10.0.0.0/x".into()], 16),
        Err(TargetError::InvalidCidrPrefix("x".into()))
    );
    assert_eq!(expand_targets(&["10.0.0.0/33".into()], 16), Err(TargetError::PrefixTooLarge(33)));
    assert_eq!(
        expand_targets(&["10.0.0.9-10.0.0.1".into()], 16),
        Err(TargetError::StartAfterEnd("10.0.0.9-10.0.0.1".into()))
    );
    assert_eq!(
        expand_targets(&["host-name".into()], 16),
        Err(TargetError::InvalidRange("host-name".into()))
    );
    assert_eq!(
        expand_targets(&["10.0.0.1-10.0.0.40".into()], 16),
        Err(TargetError::TooManyHosts("10.0.0.1-10.0.0.40".into(), 40))
    );
    assert_eq!(
        TargetError::PrefixTooLarge(33).message(),
        "invalid CIDR prefix /33; expected /0 through /32"
    );
    assert_eq!(TargetError::ZeroMaxTargets.message(), "--max-targets must be greater than zero");
}

#[test]
fn target_names_pass_through_and_sort() {
    assert_eq!(
        expand_targets(&["example.org".into(), "10.0.0.2".into(), "example.org".into()], 4).unwrap(),
        vec!["10.0.0.2", "example.org"]
    );
    assert_eq!(expand_targets(&["10.0.0.5/32".into()], 1).unwrap(), vec!["10.0.0.5"]);
    assert_eq!(
        expand_targets(&["10.0.0.250-253".into()], 8).unwrap(),
        vec!["10.0.0.250", "10.0.0.251", "10.0.0.252", "10.0.0.253"]
    );
}

// ---- shell ----

#[test]
fn slash_form_is_the_direct_form() {
    for line in ["discover --target 10.0.0.1", "report a.json --out 'b c.html'", "help me"] {
        let slashed = format!("/{line}");
        assert_eq!(shell_command_args(&slashed), shell_command_args(line));
    }
}

#[test]
fn full_form_drops_the_program_name() {
    assert_eq!(
        shell_command_args("crypton-sweep inventory sbom.json"),
        shell_command_args("inventory sbom.json")
    );
    assert_eq!(
        shell_command_args("/usr/bin/crypton-sweep --no-animation report x.json").unwrap(),
        vec!["report", "x.json"]
    );
}

#[test]
fn shell_quotes_escapes_and_errors() {
    assert_eq!(
        shell_command_args(r#"report "a b.json" c\ d 'e"f'"#).unwrap(),
        vec!["report", "a b.json", "c d", "e\"f"]
    );
    assert_eq!(shell_command_args("report x\\").unwrap(), vec!["report", "x\\"]);
    assert_eq!(shell_command_args("report 'open"), Err(ShellError::UnclosedQuote));
    assert_eq!(shell_command_args("--no-animation"), Err(ShellError::EmptyCommand));
    assert_eq!(shell_command_args("crypton-sweep"), Err(ShellError::EmptyCommand));
    assert_eq!(ShellError::UnclosedQuote.message(), "unclosed quote in command");
    assert_eq!(
        ShellError::EmptyCommand.message(),
        "enter a command after the prompt; use /help for examples"
    );
}

#[test]
fn prompt_lines_map_to_actions() {
    assert!(matches!(shell_action("   "), ShellAction::Skip));
    assert!(matches!(shell_action(" /quit "), ShellAction::Exit));
    assert!(matches!(shell_action("exit"), ShellAction::Exit));
    assert!(matches!(shell_action("/clear"), ShellAction::Clear));
    assert!(matches!(shell_action("help"), ShellAction::Help));
    match shell_action("/dashboard r.json") {
        ShellAction::Run(args) => assert_eq!(args, vec!["dashboard", "r.json"]),
        other => panic!("unexpected {other:?}"),
    }
    assert!(matches!(shell_action("report \"x"), ShellAction::Abort(ShellError::UnclosedQuote)));
}

#[test]
fn launch_plan_reads_the_global_flag() {
    let args: Vec<String> = ["crypton-sweep", "--no-animation"].iter().map(|s| s.to_string()).collect();
    let plan = launch_plan(&args);
    assert!(plan.no_animation && plan.commandless);
    assert_eq!(plan.command_args, vec!["crypton-sweep"]);
    let args: Vec<String> =
        ["crypton-sweep", "report", "--no-animation", "a.json"].iter().map(|s| s.to_string()).collect();
    let plan = launch_plan(&args);
    assert!(plan.no_animation && !plan.commandless);
    assert_eq!(plan.command_args, vec!["crypton-sweep", "report", "a.json"]);
    let plan = launch_plan(&["crypton-sweep".to_string()]);
    assert!(!plan.no_animation && plan.commandless);
}

// ---- assessment ----

#[test]
fn plain_mqtt_is_high_risk() {
    let a = plain_asset("10.0.0.2", 1883);
    assert_eq!(a.risk.score, 70);
    assert_eq!(a.risk.level, "high");
    let codes: Vec<&str> = a.findings.iter().map(|f| f.code.as_str()).collect();
    assert_eq!(codes, vec!["MQTT-001"]);
    assert!(a.recommendation.starts_with("Protect this brownfield MQTT path"));
    assert_eq!(a.service, "MQTT");
    assert_eq!(a.service_detection.confidence, "medium");
}

#[test]
fn uncharacterized_https_scores_twenty_five() {
    let a = plain_asset("10.0.0.2", 443);
    assert_eq!(a.risk.score, 25);
    assert_eq!(a.risk.level, "low");
    let codes: Vec<&str> = a.findings.iter().map(|f| f.code.as_str()).collect();
    assert_eq!(codes, vec!["CRYPTO-UNKNOWN", "TLS-001"]);
    assert_eq!(a.id, "10.0.0.2:443");
}

#[test]
fn classical_tls_scores_seventy() {
    let a = tls_asset("h", 8443, observation("TLS_AES_256_GCM_SHA384", "X25519, 253 bits", "RSA-PSS"));
    assert_eq!(a.crypto.algorithms, vec!["RSA", "X25519"]);
    assert!(a.crypto.quantum_vulnerable && !a.crypto.pqc_supported);
    assert_eq!(a.risk.score, 70);
    assert_eq!(a.risk.level, "high");
    assert_eq!(a.protocol, "TLS");
    let codes: Vec<&str> = a.findings.iter().map(|f| f.code.as_str()).collect();
    assert_eq!(codes, vec!["PQC-001", "PQC-002"]);
}

#[test]
fn hybrid_tls_is_detected_through_lowercasing() {
    let obs = observation("TLS_AES_128_GCM_SHA256", "X25519MLKEM768", "ECDSA");
    let c = crypto_from_tls(Some(&obs));
    assert_eq!(c.algorithms, vec!["ECDSA", "X25519", "ML-KEM"]);
    assert!(c.pqc_supported && c.hybrid_supported && c.quantum_vulnerable);
    assert_eq!(c.evidence, "tls_observation");
    let none = crypto_from_tls(None);
    assert!(none.algorithms.is_empty() && !none.encryption_observed);
    assert_eq!(none.evidence, "not_observed");
}

#[test]
fn clean_component_has_no_findings() {
    let c = crypto_from_component(r#"{"name":"Falcon-Lib"}"#);
    assert_eq!(c.algorithms, vec!["Falcon"]);
    let (risk, findings, rec) = assess(&c, None, 0);
    assert_eq!(risk.score, 0);
    assert_eq!(risk.level, "low");
    assert!(findings.is_empty());
    assert_eq!(rec, "Validate algorithm policy and add interoperability evidence.");
    let empty = CryptoProfile {
        algorithms: vec![],
        key_bits: vec![],
        pqc_supported: false,
        hybrid_supported: false,
        quantum_vulnerable: false,
        encryption_observed: false,
        evidence: String::new(),
    };
    let (risk, _, rec) = assess(&empty, None, 0);
    assert_eq!(risk.score, 0);
    assert_eq!(rec, "Collect more cryptographic evidence before migration planning.");
}

#[test]
fn service_names_by_port() {
    assert_eq!(service_for_port(22), "SSH");
    assert_eq!(service_for_port(8883), "MQTT over TLS");
    assert_eq!(service_for_port(9999), "TCP service");
    assert!(known_service_port(1884));
    assert!(!known_service_port(8883 + 1));
    assert_eq!(plain_asset("h", 9999).service_detection.confidence, "low");
}

// ---- report ----

#[test]
fn summary_counts_agree() {
    let assets = vec![
        plain_asset("a", 1883),
        tls_asset("a", 443, observation("AES", "X25519", "RSA")),
        tls_asset("a", 8443, observation("AES", "X25519MLKEM768", "ML-DSA")),
    ];
    let s = summarize(&assets);
    assert_eq!(s.assets, 3);
    assert_eq!(s.services, 3);
    assert_eq!(s.reachable, 3);
    assert_eq!(s.tls_services, 2);
    assert_eq!(s.pqc_ready, 1);
    assert_eq!(s.classical_only, 1);
    assert_eq!(s.high_risk, 2);
    assert_eq!(s.proxy_candidates, 2);
    assert!(s.classical_only <= s.proxy_candidates);
}

#[test]
fn relationships_start_at_assets() {
    let assets = vec![plain_asset("a", 22), tls_asset("a", 443, observation("AES", "X25519", "RSA"))];
    let rels = relationships_for(&assets);
    let triples: Vec<(String, String, String)> =
        rels.iter().map(|r| (r.source.clone(), r.target.clone(), r.kind.clone())).collect();
    assert_eq!(
        triples,
        vec![
            ("a:22".into(), "service:SSH".into(), "exposes".into()),
            ("a:22".into(), "evidence:not_observed".into(), "evidence".into()),
            ("a:443".into(), "service:HTTPS/TLS".into(), "exposes".into()),
            ("a:443".into(), "algorithm:RSA".into(), "uses".into()),
            ("a:443".into(), "algorithm:X25519".into(), "uses".into()),
        ]
    );
}

#[test]
fn report_identity_follows_the_clock() {
    let r = sample_report(vec![plain_asset("a", 22)]);
    assert_eq!(r.scan_id, "sweep-1704067201000");
    assert_eq!(r.schema_version, "crypton-sweep/v1");
    assert_eq!(r.tool, "crypton-sweep/0.1.0");
    assert_eq!(r.generated_at, r.completed_at);
    assert_eq!(r.collection.port_spec, "443,1883");
    assert_eq!(r.collection.attempted_port_count, 2);
    assert_eq!(r.collection.worker_count, 2);
    let now = finalize_report("network", true, vec![], vec![], network_collection(vec![], 0, 0, 1, false), "s".into()).unwrap();
    assert!(now.scan_id.starts_with("sweep-"));
    assert!(now.scan_id.len() > "sweep-".len());
    assert_eq!(now.collection.worker_count, 1);
}

#[test]
fn assets_sort_by_port_stably() {
    let assets = vec![plain_asset("b", 443), plain_asset("a", 22), plain_asset("c", 443), plain_asset("d", 80)];
    let sorted = sort_by_port(assets);
    let ids: Vec<&str> = sorted.iter().map(|a| a.id.as_str()).collect();
    assert_eq!(ids, vec!["a:22", "d:80", "b:443", "c:443"]);
}

// ---- openssl ----

#[test]
fn openssl_summary_is_read() {
    let out = "CONNECTION ESTABLISHED\r\nProtocol version: TLSv1.3\nCiphersuite: TLS_AES_256_GCM_SHA384\n\n  Peer signature type: ecdsa_secp256r1_sha256 \nServer Temp Key: X25519, 253 bits\n";
    let t = parse_openssl_output(out).unwrap();
    assert_eq!(t.version.as_deref(), Some("TLSv1.3"));
    assert_eq!(t.cipher.as_deref(), Some("TLS_AES_256_GCM_SHA384"));
    assert_eq!(t.signature_algorithm.as_deref(), Some("ecdsa_secp256r1_sha256"));
    assert_eq!(t.key_exchange.as_deref(), Some("X25519, 253 bits"));
    assert_eq!(t.raw_evidence.len(), 5);
    assert_eq!(t.raw_evidence[0], "CONNECTION ESTABLISHED");
    assert_eq!(parse_openssl_output("connect: refused\n").unwrap_err(), TlsProbeError::NoHandshake);
    assert_eq!(TlsProbeError::NoHandshake.message(), "OpenSSL did not complete a TLS handshake");
    assert_eq!(after_colon("Key: value : more "), "value : more");
    assert_eq!(after_colon("no colon"), "");
    let failed = tls_probe_failed("boom".into());
    assert_eq!(failed.outcome, "failed");
    assert_eq!(failed.error.as_deref(), Some("boom"));
}

#[test]
fn progress_is_reported_on_large_scans() {
    assert!(progress_due(3000, 65535));
    assert!(!progress_due(3000, 2000));
    assert!(!progress_due(3001, 65535));
}

// ---- CycloneDX ----

#[test]
fn bom_references_resolve_and_algorithms_are_listed_once() {
    let report = sample_report(vec![
        tls_asset("a", 443, observation("AES", "X25519", "RSA")),
        tls_asset("b", 8443, observation("AES", "X25519", "RSA")),
        plain_asset("c", 22),
    ]);
    let bom = export_cyclonedx_at(&report, CycloneDxKind::Combined, "t".into());
    let refs: Vec<&str> = bom.components.iter().map(|c| c.bom_ref.as_str()).collect();
    assert_eq!(
        refs,
        vec![
            "crypton:asset:a:443",
            "crypton:algorithm:RSA",
            "crypton:algorithm:X25519",
            "crypton:asset:b:8443",
            "crypton:asset:c:22",
        ]
    );
    for d in &bom.dependencies {
        assert!(refs.contains(&d.ref_.as_str()));
        for r in &d.depends_on {
            assert!(refs.contains(&r.as_str()));
        }
    }
    assert_eq!(bom.dependencies.len(), 2);
    assert_eq!(bom_kind_label(&bom), "combined");
    assert_eq!(bom.metadata.timestamp, "t");
    assert_eq!(bom.bom_format, "CycloneDX");
    assert_eq!(bom.spec_version, "1.5");
}

#[test]
fn sbom_has_no_dependencies() {
    let mut assets = vec![tls_asset("a", 443, observation("AES", "X25519", "RSA"))];
    assets.push(crypton_sweep::inventory::component_asset("openssl", "3.0", r#"{"rsa":1}"#));
    let report = sample_report(assets);
    let sbom = export_cyclonedx(&report, CycloneDxKind::Sbom).unwrap();
    assert!(sbom.dependencies.is_empty());
    let names: Vec<&str> = sbom.components.iter().map(|c| c.name.as_str()).collect();
    assert_eq!(names, vec!["openssl"]);
    assert_eq!(sbom.components[0].version, "3.0");
    assert_eq!(bom_kind_label(&sbom), "sbom");
    let cbom = export_cyclonedx(&report, CycloneDxKind::Cbom).unwrap();
    assert_eq!(bom_kind_label(&cbom), "cbom");
    assert_eq!(cbom.components[0].version, "runtime-observed");
    assert!(!cbom.metadata.timestamp.is_empty());
}

#[test]
fn bom_helpers() {
    assert_eq!(asset_ref("h:1"), "crypton:asset:h:1");
    assert_eq!(algorithm_ref("RSA"), "crypton:algorithm:RSA");
    let p = property("a", "b");
    assert_eq!((p.name.as_str(), p.value.as_str()), ("a", "b"));
}

// ---- inventory ----

#[test]
fn inventory_reads_components() {
    let doc = br#"{"bomFormat":"cyclonedx","components":[{"name":"libssl","version":"1.1","description":"RSA and ML-KEM"},{"purl":"pkg:x"}]}"#;
    let r = inventory(doc).unwrap();
    assert_eq!(r.assets.len(), 2);
    assert_eq!(r.assets[0].id, "component:libssl:1.1");
    assert_eq!(r.assets[0].crypto.algorithms, vec!["RSA", "ML-KEM"]);
    assert!(r.assets[0].crypto.pqc_supported && r.assets[0].crypto.quantum_vulnerable);
    assert_eq!(r.assets[0].risk.score, 45);
    assert_eq!(r.assets[1].id, "component:unknown:unknown");
    assert_eq!(r.scope.targets, vec!["component:libssl:1.1", "component:unknown:unknown"]);
    assert_eq!(r.scope.mode, "cyclonedx");
    assert_eq!(r.collection.method, "CycloneDX component inventory");
}

#[test]
fn inventory_errors() {
    let e = inventory(b"{not json").unwrap_err();
    assert!(matches!(e, InventoryError::InvalidJson(_)));
    assert_eq!(e.message("x.json"), "invalid CycloneDX JSON x.json");
    let e = inventory(br#"{"bomFormat":"SPDX"}"#).unwrap_err();
    assert!(matches!(e, InventoryError::UnsupportedFormat));
    assert_eq!(
        e.message("x.json"),
        "unsupported inventory format in x.json; expected CycloneDX JSON with bomFormat=CycloneDX"
    );
    assert!(matches!(inventory(b"[]").unwrap_err(), InventoryError::UnsupportedFormat));
    assert!(is_cyclonedx_format("CYCLONEDX"));
    assert!(!is_cyclonedx_format("CycloneDX "));
}

#[test]
fn inventory_report_from_entries() {
    let entries = vec![ComponentEntry {
        name: "app".into(),
        version: "2".into(),
        json_text: r#"{"x":"ecdsa"}"#.into(),
    }];
    let r = inventory_report("CycloneDX", entries).unwrap();
    assert_eq!(r.assets[0].crypto.algorithms, vec!["ECDSA"]);
    assert_eq!(r.summary.classical_only, 1);
    assert!(matches!(inventory_report("cdx", vec![]), Err(InventoryError::UnsupportedFormat)));
}

// ---- dashboard and server ----

#[test]
fn dashboard_path_edge_cases() {
    assert_eq!(PathBuf::from(dashboard_path("scan.json", "").unwrap()), PathBuf::from("scan.html"));
    assert_eq!(PathBuf::from(dashboard_path("a/b.tar.json", "out/").unwrap()), PathBuf::from("out/b.tar.html"));
    assert_eq!(PathBuf::from(dashboard_path("a/.json", "o").unwrap()), PathBuf::from("o/.json.html"));
    assert_eq!(PathBuf::from(dashboard_path("noext", "o").unwrap()), PathBuf::from("o/noext.html"));
    let e = dashboard_path("a/..", "o").unwrap_err();
    assert_eq!(e, DashboardError::NoStem("a/..".into()));
    assert_eq!(e.message(), "cannot derive dashboard name from a/..");
    assert!(dashboard_path("", "o").is_err());
}

#[test]
fn page_template_is_filled() {
    let page = render_report_page("<x>__REPORT_JSON__|__CRYPTON_LOGO_SVG__|__REPORT_JSON__</x>", "{}", "<svg/>");
    assert_eq!(page, "<x>{}|<svg/>|{}</x>");
    assert_eq!(render_report_page("plain", "{}", "s"), "plain");
}

#[test]
fn server_answers_only_the_dashboard() {
    assert_eq!(reply_to_text("GET / HTTP/1.1\r\nHost: x\r\n\r\n", "scan.html"), Reply::Report);
    assert_eq!(reply_to_text("GET /scan.html HTTP/1.1\r\n", "scan.html"), Reply::Report);
    assert_eq!(reply_to_text("GET /etc/passwd HTTP/1.1\r\n", "scan.html"), Reply::NotFound);
    assert_eq!(reply_to_text("", "scan.html"), Reply::Report);
    assert_eq!(reply_to_text("GET\r\n", "scan.html"), Reply::Report);
    assert_eq!(reply_to_request(b"GET /other HTTP/1.1\r\n\r\n", "scan.html"), Reply::NotFound);
    assert_eq!(reply_to_request(b"GET /scan.html HTTP/1.1\r\n\r\n", "scan.html"), Reply::Report);
    assert_eq!(request_path_of("  POST   /a/b  HTTP/1.0\nX: y"), "/a/b");
    assert_eq!(Reply::NotFound.status(), "404 Not Found");
    assert_eq!(Reply::Report.content_type(), "text/html; charset=utf-8");
}

#[test]
fn server_reply_head_and_address() {
    assert_eq!(
        response_head("200 OK", "text/plain", 9),
        "HTTP/1.1 200 OK\r\nContent-Type: text/plain\r\nContent-Length: 9\r\nCache-Control: no-store\r\nConnection: close\r\n\r\n"
    );
    assert_eq!(dashboard_url("127.0.0.1", 8765, "scan.html"), "http://127.0.0.1:8765/scan.html");
    assert_eq!(served_file_name("reports/scan.html"), "scan.html");
    assert_eq!(served_file_name("/"), "report.html");
}

#[test]
fn score_is_sum_of_finding_points() {
    fn points(code: &str) -> u32 {
        match code {
            "PQC-001" => 45,
            "PQC-002" => 25,
            "MQTT-001" => 70,
            "CRYPTO-UNKNOWN" => 10,
            "TLS-001" => 15,
            _ => 0,
        }
    }
    let assets = vec![
        plain_asset("h", 1883),
        plain_asset("h", 443),
        plain_asset("h", 22),
        tls_asset("h", 1883, observation("AES", "X25519", "RSA")),
        tls_asset("h", 443, observation("AES", "X25519MLKEM768", "ML-DSA")),
        tls_asset("h", 8883, observation("AES", "", "")),
    ];
    for a in &assets {
        let total: u32 = a.findings.iter().map(|f| points(&f.code)).sum();
        assert_eq!(u32::from(a.risk.score), total, "asset {}", a.id);
    }
}

#[test]
fn shorthand_and_explicit_ranges_agree() {
    assert_eq!(
        expand_targets(&["192.168.1.250-252".into()], 8).unwrap(),
        expand_targets(&["192.168.1.250-192.168.1.252".into()], 8).unwrap()
    );
    assert_eq!(
        expand_targets(&["192.168.1.9-3".into()], 8),
        Err(TargetError::StartAfterEnd("192.168.1.9-3".into()))
    );
    assert_eq!(
        expand_targets(&["192.168.1.9-192.168.1.3".into()], 8),
        Err(TargetError::StartAfterEnd("192.168.1.9-192.168.1.3".into()))
    );
}

#[test]
fn address_text_reads_back() {
    for text in ["0.0.0.0", "10.20.30.40", "255.255.255.255", "1.0.200.9"] {
        let spec = format!("{text}/32");
        assert_eq!(expand_targets(&[spec], 1).unwrap(), vec![text.to_string()]);
    }
    assert_eq!(
        expand_targets(&["10.0.0.255-10.0.1.0".into()], 2).unwrap(),
        vec!["10.0.0.255", "10.0.1.0"]
    );
    assert_eq!(
        expand_targets(&["01.2.3.4/32".into()], 1),
        Err(TargetError::InvalidCidrAddress("01.2.3.4".into()))
    );
}

#[test]
fn inventory_fields_default_and_missing() {
    let r = inventory(br#"{"bomFormat":"CycloneDX","components":[{"name":7,"version":"2"}]}"#).unwrap();
    assert_eq!(r.assets[0].id, "component:unknown:2");
    let r = inventory(br#"{"bomFormat":"CycloneDX","components":{"name":"x"}}"#).unwrap();
    assert!(r.assets.is_empty());
    let r = inventory(br#"{"bomFormat":"CycloneDX"}"#).unwrap();
    assert!(r.assets.is_empty());
    assert!(matches!(inventory(br#"{"components":[]}"#), Err(InventoryError::UnsupportedFormat)));
    assert!(matches!(inventory(br#"{"bomFormat":1}"#), Err(InventoryError::UnsupportedFormat)));
}

#[test]
fn clock_error_text() {
    assert_eq!(ClockError::OutOfRange.message(), "the system clock reads a date that cannot be recorded");
    let e = InventoryError::Clock(ClockError::OutOfRange);
    assert_eq!(e.message("x.json"), "the system clock reads a date that cannot be recorded");
    let r = finalize_report("network", true, vec![], vec![], network_collection(vec![], 0, 0, 1, false), "s".into())
        .unwrap();
    assert!(r.completed_at.starts_with("20"));
}
