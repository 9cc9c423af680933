//! The decisions of a network scan: which ports, how each reachable endpoint is
//! recorded, what an OpenSSL handshake summary says, and the finished report.
use vstd::prelude::*;
use crate::assess::{
    assess, finding_views, recommendation, risk_findings, risk_level, risk_score, service_for_port,
    service_name, known_service_port, is_known_service_port, CryptoProfile, TlsObservation,
};
use crate::ports::{lists_covered, parse_ports, port_list, port_spec_text, ports_to_spec, covered, PortError, PortFault};
use crate::report::{
    all_relationships, relationship_views, relationships_for, summarize, summary_matches, Asset,
    Collection, ProbeEvidence, Scope, ScanReport, ServiceDetection,
};
use crate::signals::{crypto_from_tls, lowercase, tls_crypto, tls_summary};
use crate::text::{
    chars_of, decimal, decimal_int, nonempty_trimmed, push_decimal, push_decimal_i64, push_str,
    split_chars, split_on, split_once, split_once_chars, starts_with, starts_with_str,
    string_from_chars, string_views, trim, trim_chars,
};

verus! {

/// Why a scan cannot start.
#[derive(Debug, PartialEq, Eq)]
pub enum DiscoverError {
    /// The port list is malformed.
    Ports(PortError),
    /// The port list names no port.
    NoPorts,
}

impl DiscoverError {
    /// The text that the command line shows for this error.
    pub fn message(&self) -> (s: String)
        ensures
            match self {
                DiscoverError::Ports(e) => s@ == e@.message(),
                DiscoverError::NoPorts => s@
                    == "no valid ports supplied; use values such as --ports 1883,443,8443"@,
            },
    {
        match self {
            DiscoverError::Ports(e) => e.message(),
            DiscoverError::NoPorts => String::from_str(
                "no valid ports supplied; use values such as --ports 1883,443,8443",
            ),
        }
    }
}

/// The ports a scan attempts: those of the port list, which must name at least one.
pub fn discover_ports(port_spec: &str) -> (r: Result<Vec<u16>, DiscoverError>)
    ensures
        match r {
            Ok(v) => port_list(port_spec@) matches Ok(rs) && lists_covered(v@, rs) && v@.len() > 0,
            Err(DiscoverError::Ports(e)) => port_list(port_spec@) == Err::<
                Seq<(u16, u16)>,
                PortFault,
            >(e@),
            Err(DiscoverError::NoPorts) => port_list(port_spec@) matches Ok(rs) && forall|p: u16|
                !covered(rs, p),
        },
{
    match parse_ports(port_spec) {
        Err(e) => Err(DiscoverError::Ports(e)),
        Ok(ports) => {
            if ports.len() == 0 {
                Err(DiscoverError::NoPorts)
            } else {
                Ok(ports)
            }
        },
    }
}

/// The number of concurrent connection workers: one per port, from 1 to 64.
pub open spec fn worker_count_for(ports: nat) -> nat {
    if ports < 1 {
        1
    } else if ports > 64 {
        64
    } else {
        ports
    }
}

/// The port list a scan uses: the full range when every port was asked for.
pub fn requested_ports(all_ports: bool, ports: &str) -> (s: String)
    ensures
        s@ == (if all_ports {
            "1-65535"@
        } else {
            ports@
        }),
{
    if all_ports {
        String::from_str("1-65535")
    } else {
        String::from_str(ports)
    }
}

/// Whether to report progress after `done` of `total` connection attempts: every
/// thousandth attempt, on scans of more than 2000 ports.
pub fn progress_due(done: usize, total: usize) -> (b: bool)
    ensures
        b == (done % 1000 == 0 && total > 2000),
{
    done % 1000 == 0 && total > 2000
}

/// How a network scan collected its evidence.
pub fn network_collection(
    ports: Vec<u16>,
    target_count: usize,
    reachable_port_count: usize,
    timeout_ms: u64,
    tls_probe_requested: bool,
) -> (c: Collection)
    requires
        target_count * ports@.len() <= usize::MAX,
    ensures
        c.method@ == "active TCP reachability scan"@,
        c.port_spec@ == port_spec_text(ports@),
        c.attempted_ports@ == ports@,
        c.attempted_port_count == target_count * ports@.len(),
        c.reachable_port_count == reachable_port_count,
        c.worker_count == worker_count_for(ports@.len()),
        c.timeout_ms == Some(timeout_ms),
        c.tls_probe_requested == tls_probe_requested,
        c.tls_probe_timeout_ms == 3000,
        string_views(c.limitations@) == seq![
            "Closed or filtered ports are not included as assets."@,
            "A reachable non-TLS service does not reveal its application cryptography without a protocol-aware probe or host agent."@,
        ],
{
    let n = ports.len();
    let workers = if n < 1 {
        1
    } else if n > 64 {
        64
    } else {
        n
    };
    let spec = ports_to_spec(ports.as_slice());
    let mut limitations: Vec<String> = Vec::new();
    limitations.push(String::from_str("Closed or filtered ports are not included as assets."));
    limitations.push(
        String::from_str(
            "A reachable non-TLS service does not reveal its application cryptography without a protocol-aware probe or host agent.",
        ),
    );
    assert(string_views(limitations@) == seq![
        "Closed or filtered ports are not included as assets."@,
        "A reachable non-TLS service does not reveal its application cryptography without a protocol-aware probe or host agent."@,
    ]);
    Collection {
        method: String::from_str("active TCP reachability scan"),
        port_spec: spec,
        attempted_ports: ports,
        attempted_port_count: target_count * n,
        reachable_port_count,
        worker_count: workers,
        timeout_ms: Some(timeout_ms),
        tls_probe_requested,
        tls_probe_timeout_ms: 3000,
        limitations,
    }
}

/// The record of a probe's outcome.
pub open spec fn probe_is(
    p: ProbeEvidence,
    attempted: bool,
    outcome: Seq<char>,
    tool: Option<Seq<char>>,
    error: Option<Seq<char>>,
) -> bool {
    &&& p.attempted == attempted
    &&& p.outcome@ == outcome
    &&& match (p.tool, tool) {
        (Some(a), Some(b)) => a@ == b,
        (None, None) => true,
        _ => false,
    }
    &&& match (p.error, error) {
        (Some(a), Some(b)) => a@ == b,
        (None, None) => true,
        _ => false,
    }
}

/// A TLS probe that completed a handshake.
pub fn tls_probe_succeeded() -> (p: ProbeEvidence)
    ensures
        probe_is(p, true, "success"@, Some("openssl s_client -brief"@), None),
{
    ProbeEvidence {
        attempted: true,
        outcome: String::from_str("success"),
        tool: Some(String::from_str("openssl s_client -brief")),
        error: None,
    }
}

/// A TLS probe that failed with the given error text.
pub fn tls_probe_failed(error: String) -> (p: ProbeEvidence)
    ensures
        probe_is(p, true, "failed"@, Some("openssl s_client -brief"@), Some(error@)),
{
    ProbeEvidence {
        attempted: true,
        outcome: String::from_str("failed"),
        tool: Some(String::from_str("openssl s_client -brief")),
        error: Some(error),
    }
}

/// No TLS probe was requested.
pub fn tls_probe_not_requested() -> (p: ProbeEvidence)
    ensures
        probe_is(p, false, "not_requested"@, None, None),
{
    ProbeEvidence { attempted: false, outcome: String::from_str("not_requested"), tool: None, error: None }
}

/// The record of an endpoint, `host:port`, that accepted a TCP connection.
pub fn network_asset(
    host: &str,
    port: u16,
    tls: Option<TlsObservation>,
    tls_probe: ProbeEvidence,
) -> (a: Asset)
    ensures
        a.id@ == host@ + ":"@ + decimal(port as nat),
        a.host@ == host@,
        a.port == port,
        a.service@ == service_name(port),
        a.protocol@ == if tls is Some {
            "TLS"@
        } else {
            service_name(port)
        },
        a.reachable,
        probe_is(a.connection, true, "reachable"@, Some("TCP connect"@), None),
        a.tls_probe == tls_probe,
        a.service_detection.name@ == service_name(port),
        a.service_detection.method@ == "well_known_port_mapping"@,
        a.service_detection.confidence@ == if is_known_service_port(port) {
            "medium"@
        } else {
            "low"@
        },
        !a.service_detection.banner_observed,
        a.tls == tls,
        a.crypto@ == tls_crypto(
            match tls {
                Some(t) => Some(lowercase(tls_summary(t))),
                None => None,
            },
        ),
        a.risk.score as nat == risk_score(
            a.crypto.quantum_vulnerable,
            a.crypto.pqc_supported,
            tls is Some,
            port,
        ),
        a.risk.level@ == risk_level(a.risk.score as nat),
        finding_views(a.findings@) == risk_findings(
            a.crypto.quantum_vulnerable,
            a.crypto.pqc_supported,
            tls is Some,
            port,
        ),
        a.recommendation@ == recommendation(
            a.crypto.quantum_vulnerable,
            a.crypto.pqc_supported,
            tls is Some,
            port,
        ),
{
    let mut id: Vec<char> = Vec::new();
    push_str(&mut id, host);
    push_str(&mut id, ":");
    push_decimal(&mut id, port as u64);
    let crypto = crypto_from_tls(tls.as_ref());
    let (risk, findings, rec) = assess(&crypto, tls.as_ref(), port);
    let service = service_for_port(port);
    let protocol = if tls.is_some() {
        "TLS"
    } else {
        service
    };
    let confidence = if known_service_port(port) {
        "medium"
    } else {
        "low"
    };
    Asset {
        id: string_from_chars(&id),
        host: String::from_str(host),
        port,
        service: String::from_str(service),
        protocol: String::from_str(protocol),
        reachable: true,
        connection: ProbeEvidence {
            attempted: true,
            outcome: String::from_str("reachable"),
            tool: Some(String::from_str("TCP connect")),
            error: None,
        },
        tls_probe,
        service_detection: ServiceDetection {
            name: String::from_str(service),
            method: String::from_str("well_known_port_mapping"),
            confidence: String::from_str(confidence),
            banner_observed: false,
        },
        tls,
        crypto,
        risk,
        findings,
        recommendation: rec,
    }
}

/// The text after the first `:`, trimmed; empty when there is no `:`.
pub open spec fn after_colon_text(value: Seq<char>) -> Seq<char> {
    match split_once(value, ':') {
        Some((_, v)) => trim(v),
        None => Seq::empty(),
    }
}

/// The value part of a `Label: value` line.
pub fn after_colon(value: &str) -> (r: String)
    ensures
        r@ == after_colon_text(value@),
{
    let cs = chars_of(value);
    match split_once_chars(&cs, ':') {
        Some((_, v)) => {
            let t = trim_chars(&v);
            string_from_chars(&t)
        },
        None => String::new(),
    }
}

/// What an OpenSSL summary has revealed so far.
pub struct HandshakeSpec {
    pub version: Option<Seq<char>>,
    pub cipher: Option<Seq<char>>,
    pub key_exchange: Option<Seq<char>>,
    pub signature_algorithm: Option<Seq<char>>,
    pub raw_evidence: Seq<Seq<char>>,
}

/// One trimmed, non-empty output line: the value of a labelled line replaces
/// the field it names, and every line is kept as raw evidence.
pub open spec fn handshake_step(h: HandshakeSpec, line: Seq<char>) -> HandshakeSpec {
    HandshakeSpec {
        version: if starts_with(line, "Protocol version:"@) {
            Some(after_colon_text(line))
        } else {
            h.version
        },
        cipher: if starts_with(line, "Ciphersuite:"@) {
            Some(after_colon_text(line))
        } else {
            h.cipher
        },
        signature_algorithm: if starts_with(line, "Peer signature type:"@) {
            Some(after_colon_text(line))
        } else {
            h.signature_algorithm
        },
        key_exchange: if starts_with(line, "Server Temp Key:"@) {
            Some(after_colon_text(line))
        } else {
            h.key_exchange
        },
        raw_evidence: h.raw_evidence.push(line),
    }
}

pub open spec fn handshake_from(lines: Seq<Seq<char>>) -> HandshakeSpec
    decreases lines.len(),
{
    if lines.len() == 0 {
        HandshakeSpec {
            version: None,
            cipher: None,
            key_exchange: None,
            signature_algorithm: None,
            raw_evidence: Seq::empty(),
        }
    } else {
        handshake_step(handshake_from(lines.drop_last()), lines.last())
    }
}

/// What OpenSSL's output says: the fields of its trimmed, non-empty lines.
pub open spec fn handshake_of(output: Seq<char>) -> HandshakeSpec {
    handshake_from(nonempty_trimmed(split_on(output, '\n')))
}

/// The handshake completed: at least one of its four fields was reported.
pub open spec fn handshake_completed(h: HandshakeSpec) -> bool {
    h.version is Some || h.cipher is Some || h.key_exchange is Some || h.signature_algorithm is Some
}

pub open spec fn opt_view(o: Option<String>) -> Option<Seq<char>> {
    match o {
        Some(s) => Some(s@),
        None => None,
    }
}

/// The observation agrees with what the output says.
pub open spec fn observation_matches(t: TlsObservation, h: HandshakeSpec) -> bool {
    &&& opt_view(t.version) == h.version
    &&& opt_view(t.cipher) == h.cipher
    &&& opt_view(t.key_exchange) == h.key_exchange
    &&& opt_view(t.signature_algorithm) == h.signature_algorithm
    &&& t.certificate_algorithm is None
    &&& t.certificate_key_bits is None
    &&& t.certificate_expires is None
    &&& t.pqc_group is None
    &&& string_views(t.raw_evidence@) == h.raw_evidence
}

/// The TLS probe ran but reported no handshake field.
#[derive(Debug, PartialEq, Eq)]
pub enum TlsProbeError {
    NoHandshake,
}

impl TlsProbeError {
    /// The text that the report records for this error.
    pub fn message(&self) -> (s: String)
        ensures
            s@ == "OpenSSL did not complete a TLS handshake"@,
    {
        String::from_str("OpenSSL did not complete a TLS handshake")
    }
}

fn labelled_value(line: &[char], label: &str, current: Option<String>) -> (r: Option<String>)
    ensures
        opt_view(r) == if starts_with(line@, label@) {
            Some(after_colon_text(line@))
        } else {
            opt_view(current)
        },
{
    if starts_with_str(line, label) {
        let s = string_from_chars(line);
        Some(after_colon(s.as_str()))
    } else {
        current
    }
}

/// Reads the output of `openssl s_client -brief` into a TLS observation.
pub fn parse_openssl_output(output: &str) -> (r: Result<TlsObservation, TlsProbeError>)
    ensures
        match r {
            Ok(t) => handshake_completed(handshake_of(output@)) && observation_matches(
                t,
                handshake_of(output@),
            ),
            Err(_) => !handshake_completed(handshake_of(output@)),
        },
{
    let cs = chars_of(output);
    let parts = split_chars(&cs, '\n');
    let ghost pieces = split_on(output@, '\n');
    let mut version: Option<String> = None;
    let mut cipher: Option<String> = None;
    let mut key_exchange: Option<String> = None;
    let mut signature: Option<String> = None;
    let mut raw: Vec<String> = Vec::new();
    let mut k: usize = 0;
    while k < parts.len()
        invariant
            k <= parts.len(),
            parts@.len() == pieces.len(),
            pieces == split_on(output@, '\n'),
            forall|j: int| 0 <= j < parts@.len() ==> #[trigger] parts@[j]@ == pieces[j],
            ({
                let h = handshake_from(nonempty_trimmed(pieces.take(k as int)));
                &&& opt_view(version) == h.version
                &&& opt_view(cipher) == h.cipher
                &&& opt_view(key_exchange) == h.key_exchange
                &&& opt_view(signature) == h.signature_algorithm
                &&& string_views(raw@) == h.raw_evidence
            }),
        decreases parts.len() - k,
    {
        proof {
            assert(pieces.take(k + 1).drop_last() == pieces.take(k as int));
            assert(pieces.take(k + 1).last() == parts@[k as int]@);
        }
        let line = trim_chars(parts[k].as_slice());
        if line.len() > 0 {
            let ghost pre = nonempty_trimmed(pieces.take(k as int));
            proof {
                assert(nonempty_trimmed(pieces.take(k + 1)) == pre.push(line@));
                assert(pre.push(line@).drop_last() == pre);
            }
            version = labelled_value(&line, "Protocol version:", version);
            cipher = labelled_value(&line, "Ciphersuite:", cipher);
            signature = labelled_value(&line, "Peer signature type:", signature);
            key_exchange = labelled_value(&line, "Server Temp Key:", key_exchange);
            let ghost before = string_views(raw@);
            raw.push(string_from_chars(&line));
            assert(string_views(raw@) == before.push(line@));
        } else {
            assert(nonempty_trimmed(pieces.take(k + 1)) == nonempty_trimmed(pieces.take(k as int)));
        }
        k = k + 1;
    }
    assert(pieces.take(k as int) == pieces);
    if version.is_none() && cipher.is_none() && key_exchange.is_none() && signature.is_none() {
        return Err(TlsProbeError::NoHandshake);
    }
    Ok(
        TlsObservation {
            version,
            cipher,
            key_exchange,
            signature_algorithm: signature,
            certificate_algorithm: None,
            certificate_key_bits: None,
            certificate_expires: None,
            pqc_group: None,
            raw_evidence: raw,
        },
    )
}

/// The current UTC time: RFC 3339 text and milliseconds since the epoch.
pub struct UtcInstant {
    pub rfc3339: String,
    pub millis: i64,
}

/// Where the system clock stands relative to the Unix epoch: `secs` seconds and
/// `nanos` nanoseconds after it, or before it when `before_epoch` is set.
pub struct EpochOffset {
    pub before_epoch: bool,
    pub secs: u64,
    pub nanos: u32,
}

/// `std::time::SystemTime::now` measured with `duration_since(UNIX_EPOCH)`: the
/// `Duration` it returns, or for a clock before the epoch the `Duration` its
/// error carries, split by `as_secs` and `subsec_nanos` (always below one
/// second). Nothing is stated of the clock's value.
#[verifier::external_body]
fn system_clock() -> (c: EpochOffset)
    ensures
        c.nanos < 1_000_000_000,
{
    match std::time::SystemTime::now().duration_since(std::time::UNIX_EPOCH) {
        Ok(d) => EpochOffset { before_epoch: false, secs: d.as_secs(), nanos: d.subsec_nanos() },
        Err(e) => EpochOffset { before_epoch: true, secs: e.duration().as_secs(), nanos: e.duration().subsec_nanos() },
    }
}

/// Whether `chrono::DateTime::<Utc>::from_timestamp` can represent the instant.
pub uninterp spec fn utc_representable(secs: i64, nanos: u32) -> bool;

/// `chrono::DateTime::<Utc>::from_timestamp`, rendered with `to_rfc3339` and
/// `timestamp_millis`: there is an instant exactly when `utc_representable`
/// holds, and its milliseconds are those of the whole seconds plus the
/// milliseconds of the nanoseconds.
#[verifier::external_body]
fn utc_from_timestamp(secs: i64, nanos: u32) -> (r: Option<UtcInstant>)
    requires
        nanos < 1_000_000_000,
    ensures
        r is Some <==> utc_representable(secs, nanos),
        r matches Some(u) ==> u.millis == secs * 1000 + nanos / 1_000_000,
{
    match chrono::DateTime::from_timestamp(secs, nanos) {
        Some(t) => Some(UtcInstant { rfc3339: t.to_rfc3339(), millis: t.timestamp_millis() }),
        None => None,
    }
}

/// The instant of an epoch offset as whole seconds (rounded down, so negative
/// before the epoch) and nanoseconds, where the seconds fit in an `i64`.
pub open spec fn signed_offset(c: EpochOffset) -> Option<(int, nat)> {
    if !c.before_epoch {
        if c.secs <= i64::MAX {
            Some((c.secs as int, c.nanos as nat))
        } else {
            None
        }
    } else if c.nanos == 0 {
        if c.secs <= i64::MAX {
            Some((-(c.secs as int), 0))
        } else {
            None
        }
    } else if c.secs < i64::MAX {
        Some((-(c.secs as int) - 1, (1_000_000_000 - c.nanos) as nat))
    } else {
        None
    }
}

/// The clock's instant in whole seconds and nanoseconds.
fn signed_seconds(c: &EpochOffset) -> (r: Option<(i64, u32)>)
    requires
        c.nanos < 1_000_000_000,
    ensures
        match r {
            Some((s, n)) => signed_offset(*c) == Some((s as int, n as nat)) && n < 1_000_000_000,
            None => signed_offset(*c) is None,
        },
{
    if !c.before_epoch {
        if c.secs <= i64::MAX as u64 {
            Some((c.secs as i64, c.nanos))
        } else {
            None
        }
    } else if c.nanos == 0 {
        if c.secs <= i64::MAX as u64 {
            Some((-(c.secs as i64), 0))
        } else {
            None
        }
    } else if c.secs < i64::MAX as u64 {
        Some((-(c.secs as i64) - 1, 1_000_000_000 - c.nanos))
    } else {
        None
    }
}

/// The current UTC time, read once from the system clock; none where chrono
/// cannot represent it.
pub(crate) fn utc_now() -> Option<UtcInstant> {
    let c = system_clock();
    match signed_seconds(&c) {
        Some((secs, nanos)) => utc_from_timestamp(secs, nanos),
        None => None,
    }
}

/// The system clock reads an instant outside the dates that can be recorded.
#[derive(Debug, Clone, Copy, PartialEq, Eq, Structural)]
pub enum ClockError {
    OutOfRange,
}

impl ClockError {
    /// The text that the command line shows for this error.
    pub fn message(&self) -> (s: String)
        ensures
            s@ == "the system clock reads a date that cannot be recorded"@,
    {
        String::from_str("the system clock reads a date that cannot be recorded")
    }
}

/// The report's fixed identity fields.
pub open spec fn report_header_ok(r: ScanReport) -> bool {
    &&& r.schema_version@ == "crypton-sweep/v1"@
    &&& r.tool@ == "crypton-sweep/0.1.0"@
    &&& r.generated_at@ == r.completed_at@
}

/// Assembles a report completed at `completed_at` (`millis` in milliseconds):
/// its identity, scope, summary and relationships follow from the assets.
pub fn assemble_report(
    mode: &str,
    authorized: bool,
    targets: Vec<String>,
    assets: Vec<Asset>,
    collection: Collection,
    started_at: String,
    completed_at: String,
    millis: i64,
) -> (r: ScanReport)
    ensures
        r.scan_id@ == "sweep-"@ + decimal_int(millis as int),
        report_header_ok(r),
        r.started_at == started_at,
        r.completed_at == completed_at,
        r.scope.mode@ == mode@,
        r.scope.authorized == authorized,
        r.scope.targets == targets,
        r.collection == collection,
        summary_matches(r.summary, assets@),
        r.assets == assets,
        relationship_views(r.relationships@) == all_relationships(assets@),
{
    let summary = summarize(&assets);
    let relationships = relationships_for(&assets);
    let mut id: Vec<char> = Vec::new();
    push_str(&mut id, "sweep-");
    push_decimal_i64(&mut id, millis);
    let generated_at = completed_at.clone();
    ScanReport {
        scan_id: string_from_chars(&id),
        schema_version: String::from_str("crypton-sweep/v1"),
        tool: String::from_str("crypton-sweep/0.1.0"),
        started_at,
        completed_at,
        generated_at,
        scope: Scope { mode: String::from_str(mode), authorized, targets },
        collection,
        summary,
        assets,
        relationships,
    }
}

/// Completes a report now (the clock is read once); fails only where the clock
/// reads a date that cannot be recorded.
pub fn finalize_report(
    mode: &str,
    authorized: bool,
    targets: Vec<String>,
    assets: Vec<Asset>,
    collection: Collection,
    started_at: String,
) -> (r: Result<ScanReport, ClockError>)
    ensures
        r matches Ok(r) ==> {
            &&& exists|m: int| r.scan_id@ == "sweep-"@ + decimal_int(m)
            &&& report_header_ok(r)
            &&& r.started_at == started_at
            &&& r.scope.mode@ == mode@
            &&& r.scope.authorized == authorized
            &&& r.scope.targets == targets
            &&& r.collection == collection
            &&& summary_matches(r.summary, assets@)
            &&& r.assets == assets
            &&& relationship_views(r.relationships@) == all_relationships(assets@)
        },
{
    match utc_now() {
        Some(now) => Ok(
            assemble_report(mode, authorized, targets, assets, collection, started_at, now.rfc3339, now.millis),
        ),
        None => Err(ClockError::OutOfRange),
    }
}

/// The assets on port `k`, in their order.
pub open spec fn on_port(s: Seq<Asset>, k: u16) -> Seq<Asset>
    decreases s.len(),
{
    if s.len() == 0 {
        s
    } else if s.last().port == k {
        on_port(s.drop_last(), k).push(s.last())
    } else {
        on_port(s.drop_last(), k)
    }
}

/// Ports never decrease along the sequence.
pub open spec fn ascending_ports(s: Seq<Asset>) -> bool {
    forall|i: int, j: int| 0 <= i < j < s.len() ==> #[trigger] s[i].port <= #[trigger] s[j].port
}

proof fn lemma_on_port_concat(a: Seq<Asset>, b: Seq<Asset>, k: u16)
    ensures
        on_port(a + b, k) == on_port(a, k) + on_port(b, k),
    decreases b.len(),
{
    if b.len() == 0 {
        assert(a + b =~= a);
        assert(on_port(a, k) + on_port(b, k) =~= on_port(a, k));
    } else {
        lemma_on_port_concat(a, b.drop_last(), k);
        assert((a + b).drop_last() =~= a + b.drop_last());
        assert((a + b).last() == b.last());
        assert((on_port(a, k) + on_port(b.drop_last(), k)).push(b.last()) =~= on_port(a, k) + on_port(
            b.drop_last(),
            k,
        ).push(b.last()));
    }
}

proof fn lemma_on_port_none(s: Seq<Asset>, k: u16)
    requires
        forall|i: int| 0 <= i < s.len() ==> (#[trigger] s[i]).port != k,
    ensures
        on_port(s, k) == Seq::<Asset>::empty(),
    decreases s.len(),
{
    if s.len() > 0 {
        lemma_on_port_none(s.drop_last(), k);
    }
}

proof fn lemma_on_port_single(x: Asset, k: u16)
    ensures
        on_port(seq![x], k) == (if x.port == k {
            seq![x]
        } else {
            Seq::<Asset>::empty()
        }),
{
    let none = Seq::<Asset>::empty();
    assert(seq![x].drop_last() =~= none);
    assert(seq![x].last() == x);
    assert(on_port(none, k) == none);
    assert(on_port(seq![x], k) == (if x.port == k {
        on_port(none, k).push(x)
    } else {
        on_port(none, k)
    }));
    assert(none.push(x) =~= seq![x]);
}

/// Orders assets by port, keeping the order of assets that share a port (as the
/// stable `sort_by_key` does): the ports ascend, and the assets on each port are
/// those of the input, in input order.
pub fn sort_by_port(assets: Vec<Asset>) -> (r: Vec<Asset>)
    ensures
        ascending_ports(r@),
        forall|k: u16| #[trigger] on_port(r@, k) == on_port(assets@, k),
        r@.len() == assets@.len(),
{
    let ghost orig = assets@;
    let mut rest = assets;
    let mut sorted: Vec<Asset> = Vec::new();
    assert(orig.skip(orig.len() as int) =~= Seq::<Asset>::empty());
    assert(orig.take(orig.len() as int) =~= orig);
    while rest.len() > 0
        invariant
            rest@ == orig.take(rest@.len() as int),
            rest@.len() <= orig.len(),
            sorted@.len() + rest@.len() == orig.len(),
            ascending_ports(sorted@),
            forall|k: u16| #[trigger] on_port(sorted@, k) == on_port(orig.skip(rest@.len() as int), k),
        decreases rest@.len(),
    {
        let n = rest.len();
        let x = rest.pop().unwrap();
        assert(x == orig[n - 1]);
        assert(rest@ == orig.take(n - 1)) by {
            assert(orig.take(n as int).drop_last() =~= orig.take(n - 1));
        }
        let mut p: usize = 0;
        while p < sorted.len() && sorted[p].port < x.port
            invariant
                p <= sorted@.len(),
                forall|i: int| 0 <= i < p ==> (#[trigger] sorted@[i]).port < x.port,
            decreases sorted@.len() - p,
        {
            p = p + 1;
        }
        let ghost before = sorted@;
        proof {
            assert forall|i: int| p <= i < before.len() implies x.port <= (#[trigger] before[i]).port by {
                assert(before[p as int].port >= x.port);
                if i > p {
                    assert(before[p as int].port <= before[i].port);
                }
            }
        }
        sorted.insert(p, x);
        proof {
            let lo = before.take(p as int);
            let hi = before.skip(p as int);
            assert(sorted@ =~= lo + seq![x] + hi);
            assert(before =~= lo + hi);
            assert(orig.skip(n - 1) =~= seq![x] + orig.skip(n as int));
            assert forall|i: int, j: int| 0 <= i < j < sorted@.len() implies #[trigger] sorted@[i].port
                <= #[trigger] sorted@[j].port by {
                if j < p {
                    assert(sorted@[i] == before[i] && sorted@[j] == before[j]);
                } else if j == p {
                    assert(sorted@[i] == before[i]);
                } else if i < p {
                    assert(sorted@[i] == before[i] && sorted@[j] == before[j - 1]);
                } else if i == p {
                    assert(sorted@[j] == before[j - 1]);
                } else {
                    assert(sorted@[i] == before[i - 1] && sorted@[j] == before[j - 1]);
                }
            }
            assert forall|k: u16| #[trigger] on_port(sorted@, k) == on_port(orig.skip(n - 1), k) by {
                lemma_on_port_concat(lo + seq![x], hi, k);
                lemma_on_port_concat(lo, seq![x], k);
                lemma_on_port_concat(lo, hi, k);
                lemma_on_port_concat(seq![x], orig.skip(n as int), k);
                lemma_on_port_single(x, k);
                if k == x.port {
                    assert forall|i: int| 0 <= i < lo.len() implies (#[trigger] lo[i]).port != k by {
                        assert(lo[i] == before[i]);
                    }
                    lemma_on_port_none(lo, k);
                    assert(on_port(lo, k) + seq![x] + on_port(hi, k) =~= seq![x] + (on_port(lo, k) + on_port(hi, k)));
                } else {
                    assert(on_port(lo, k) + Seq::<Asset>::empty() + on_port(hi, k) =~= on_port(lo, k) + on_port(hi, k));
                    assert(Seq::<Asset>::empty() + on_port(before, k) =~= on_port(before, k));
                }
            }
        }
    }
    assert(orig.skip(0) =~= orig);
    sorted
}

} // verus!
