//! Cryptographic signals, risk scoring, findings and recommendations.
use vstd::prelude::*;
use crate::text::{chars_eq_str, chars_of, contains, contains_str, push_str, string_views};

verus! {

/// What a TLS handshake revealed about an endpoint.
#[derive(Debug)]
pub struct TlsObservation {
    pub version: Option<String>,
    pub cipher: Option<String>,
    pub key_exchange: Option<String>,
    pub signature_algorithm: Option<String>,
    pub certificate_algorithm: Option<String>,
    pub certificate_key_bits: Option<u32>,
    pub certificate_expires: Option<String>,
    pub pqc_group: Option<String>,
    pub raw_evidence: Vec<String>,
}

/// The cryptography attributed to an asset.
#[derive(Debug)]
pub struct CryptoProfile {
    pub algorithms: Vec<String>,
    pub key_bits: Vec<u32>,
    pub pqc_supported: bool,
    pub hybrid_supported: bool,
    pub quantum_vulnerable: bool,
    pub encryption_observed: bool,
    pub evidence: String,
}

/// A risk score and its level.
#[derive(Debug)]
pub struct Risk {
    pub score: u8,
    pub level: String,
}

/// One finding about an asset.
#[derive(Debug)]
pub struct Finding {
    pub code: String,
    pub severity: String,
    pub title: String,
    pub detail: String,
}

/// A finding as character sequences.
pub struct FindingSpec {
    pub code: Seq<char>,
    pub severity: Seq<char>,
    pub title: Seq<char>,
    pub detail: Seq<char>,
}

impl View for Finding {
    type V = FindingSpec;

    open spec fn view(&self) -> FindingSpec {
        FindingSpec {
            code: self.code@,
            severity: self.severity@,
            title: self.title@,
            detail: self.detail@,
        }
    }
}

pub open spec fn finding_views(v: Seq<Finding>) -> Seq<FindingSpec> {
    Seq::new(v.len(), |i: int| v[i]@)
}

/// A crypto profile as mathematical values.
pub struct CryptoSpec {
    pub algorithms: Seq<Seq<char>>,
    pub key_bits: Seq<u32>,
    pub pqc_supported: bool,
    pub hybrid_supported: bool,
    pub quantum_vulnerable: bool,
    pub encryption_observed: bool,
    pub evidence: Seq<char>,
}

impl View for CryptoProfile {
    type V = CryptoSpec;

    open spec fn view(&self) -> CryptoSpec {
        CryptoSpec {
            algorithms: string_views(self.algorithms@),
            key_bits: self.key_bits@,
            pqc_supported: self.pqc_supported,
            hybrid_supported: self.hybrid_supported,
            quantum_vulnerable: self.quantum_vulnerable,
            encryption_observed: self.encryption_observed,
            evidence: self.evidence@,
        }
    }
}

pub open spec fn finding(code: Seq<char>, severity: Seq<char>, title: Seq<char>, detail: Seq<char>) -> FindingSpec {
    FindingSpec { code, severity, title, detail }
}

pub open spec fn pqc001() -> FindingSpec {
    finding(
        "PQC-001"@,
        "high"@,
        "Classical cryptography detected"@,
        "RSA, elliptic-curve, or finite-field key exchange remains exposed to a future cryptographically relevant quantum computer."@,
    )
}

pub open spec fn pqc002() -> FindingSpec {
    finding(
        "PQC-002"@,
        "medium"@,
        "No PQC signal observed"@,
        "The TLS observation did not identify a post-quantum or hybrid group."@,
    )
}

pub open spec fn mqtt001() -> FindingSpec {
    finding(
        "MQTT-001"@,
        "high"@,
        "Plain MQTT listener observed"@,
        "TCP port 1883 conventionally carries MQTT without TLS. This scan cannot verify payload confidentiality or device identity on this endpoint."@,
    )
}

pub open spec fn crypto_unknown() -> FindingSpec {
    finding(
        "CRYPTO-UNKNOWN"@,
        "medium"@,
        "Cryptography not characterized"@,
        "Reachability proves that a service accepted TCP, but it does not prove encryption, authentication, or PQC support. Use a protocol-aware probe or authenticated agent."@,
    )
}

pub open spec fn tls001() -> FindingSpec {
    finding(
        "TLS-001"@,
        "medium"@,
        "TLS probe unavailable"@,
        "The service is reachable but was not successfully characterized by the TLS probe."@,
    )
}

/// The risk score: 45 for classical cryptography, 25 for TLS without a PQC
/// signal, 70 for plain MQTT (port 1883) or else 10 for an uncharacterized network
/// service, and 15 more for an HTTPS port that the TLS probe did not characterize.
pub open spec fn risk_score(quantum_vulnerable: bool, pqc: bool, tls: bool, port: u16) -> nat {
    (if quantum_vulnerable {
        45nat
    } else {
        0nat
    }) + (if tls && !pqc {
        25nat
    } else {
        0nat
    }) + (if port == 1883 {
        70nat
    } else if !tls && port != 0 {
        10nat
    } else {
        0nat
    }) + (if port != 0 && !tls && (port == 443 || port == 8443) {
        15nat
    } else {
        0nat
    })
}

/// The findings, in the order the checks run.
pub open spec fn risk_findings(quantum_vulnerable: bool, pqc: bool, tls: bool, port: u16) -> Seq<
    FindingSpec,
> {
    let a = if quantum_vulnerable {
        seq![pqc001()]
    } else {
        Seq::empty()
    };
    let b = if tls && !pqc {
        a.push(pqc002())
    } else {
        a
    };
    let c = if port == 1883 {
        b.push(mqtt001())
    } else if !tls && port != 0 {
        b.push(crypto_unknown())
    } else {
        b
    };
    if port != 0 && !tls && (port == 443 || port == 8443) {
        c.push(tls001())
    } else {
        c
    }
}

/// `high` from 60, `medium` from 30, else `low`.
pub open spec fn risk_level(score: nat) -> Seq<char> {
    if score >= 60 {
        "high"@
    } else if score >= 30 {
        "medium"@
    } else {
        "low"@
    }
}

/// The recommendation, by priority: plain MQTT, classical cryptography, PQC
/// present, uncharacterized network service, otherwise more evidence.
pub open spec fn recommendation(quantum_vulnerable: bool, pqc: bool, tls: bool, port: u16) -> Seq<
    char,
> {
    if port == 1883 {
        "Protect this brownfield MQTT path with MQTT over TLS/PQC or a Crypton proxy; then verify the secured listener."@
    } else if quantum_vulnerable {
        "Prioritize discovery and evaluate a Crypton proxy or SDK migration path."@
    } else if pqc {
        "Validate algorithm policy and add interoperability evidence."@
    } else if !tls && port != 0 {
        "Run a protocol-aware probe or deploy an authenticated collector before declaring this service secure."@
    } else {
        "Collect more cryptographic evidence before migration planning."@
    }
}

fn make_finding(code: &str, severity: &str, title: &str, detail: &str) -> (f: Finding)
    ensures
        f@ == finding(code@, severity@, title@, detail@),
{
    Finding {
        code: String::from_str(code),
        severity: String::from_str(severity),
        title: String::from_str(title),
        detail: String::from_str(detail),
    }
}

/// Scores an asset's exposure from its crypto profile, whether a TLS observation
/// exists, and its port (0 for a software component).
pub fn assess(crypto: &CryptoProfile, tls: Option<&TlsObservation>, port: u16) -> (r: (
    Risk,
    Vec<Finding>,
    String,
))
    ensures
        r.0.score as nat == risk_score(
            crypto.quantum_vulnerable,
            crypto.pqc_supported,
            tls is Some,
            port,
        ),
        r.0.level@ == risk_level(r.0.score as nat),
        finding_views(r.1@) == risk_findings(
            crypto.quantum_vulnerable,
            crypto.pqc_supported,
            tls is Some,
            port,
        ),
        r.2@ == recommendation(crypto.quantum_vulnerable, crypto.pqc_supported, tls is Some, port),
{
    let mut score: u8 = 0;
    let mut findings: Vec<Finding> = Vec::new();
    let ghost mut fs: Seq<FindingSpec> = Seq::empty();
    if crypto.quantum_vulnerable {
        score = score + 45;
        findings.push(
            make_finding(
                "PQC-001",
                "high",
                "Classical cryptography detected",
                "RSA, elliptic-curve, or finite-field key exchange remains exposed to a future cryptographically relevant quantum computer.",
            ),
        );
        proof {
            fs = fs.push(pqc001());
        }
    }
    assert(finding_views(findings@) == fs);
    if tls.is_some() && !crypto.pqc_supported {
        score = score + 25;
        findings.push(
            make_finding(
                "PQC-002",
                "medium",
                "No PQC signal observed",
                "The TLS observation did not identify a post-quantum or hybrid group.",
            ),
        );
        proof {
            fs = fs.push(pqc002());
        }
    }
    assert(finding_views(findings@) == fs);
    if port == 1883 {
        score = score + 70;
        findings.push(
            make_finding(
                "MQTT-001",
                "high",
                "Plain MQTT listener observed",
                "TCP port 1883 conventionally carries MQTT without TLS. This scan cannot verify payload confidentiality or device identity on this endpoint.",
            ),
        );
        proof {
            fs = fs.push(mqtt001());
        }
    } else if tls.is_none() && port != 0 {
        score = score + 10;
        findings.push(
            make_finding(
                "CRYPTO-UNKNOWN",
                "medium",
                "Cryptography not characterized",
                "Reachability proves that a service accepted TCP, but it does not prove encryption, authentication, or PQC support. Use a protocol-aware probe or authenticated agent.",
            ),
        );
        proof {
            fs = fs.push(crypto_unknown());
        }
    }
    assert(finding_views(findings@) == fs);
    if port != 0 && tls.is_none() && (port == 443 || port == 8443) {
        score = score + 15;
        findings.push(
            make_finding(
                "TLS-001",
                "medium",
                "TLS probe unavailable",
                "The service is reachable but was not successfully characterized by the TLS probe.",
            ),
        );
        proof {
            fs = fs.push(tls001());
        }
    }
    assert(finding_views(findings@) == fs);
    let level = if score >= 60 {
        "high"
    } else if score >= 30 {
        "medium"
    } else {
        "low"
    };
    let rec = if port == 1883 {
        "Protect this brownfield MQTT path with MQTT over TLS/PQC or a Crypton proxy; then verify the secured listener."
    } else if crypto.quantum_vulnerable {
        "Prioritize discovery and evaluate a Crypton proxy or SDK migration path."
    } else if crypto.pqc_supported {
        "Validate algorithm policy and add interoperability evidence."
    } else if tls.is_none() && port != 0 {
        "Run a protocol-aware probe or deploy an authenticated collector before declaring this service secure."
    } else {
        "Collect more cryptographic evidence before migration planning."
    };
    (Risk { score, level: String::from_str(level) }, findings, String::from_str(rec))
}

/// A plain MQTT listener is always a high risk with an `MQTT-001` finding of high
/// severity, whatever else was observed.
pub proof fn lemma_plain_mqtt_is_high_risk(quantum_vulnerable: bool, pqc: bool, tls: bool)
    ensures
        risk_level(risk_score(quantum_vulnerable, pqc, tls, 1883)) == "high"@,
        risk_findings(quantum_vulnerable, pqc, tls, 1883).contains(mqtt001()),
        mqtt001().severity == "high"@,
{
    let fs = risk_findings(quantum_vulnerable, pqc, tls, 1883);
    let a = if quantum_vulnerable {
        seq![pqc001()]
    } else {
        Seq::<FindingSpec>::empty()
    };
    let b = if tls && !pqc {
        a.push(pqc002())
    } else {
        a
    };
    assert(fs == b.push(mqtt001()));
    assert(fs[b.len() as int] == mqtt001());
}

/// The score never exceeds 140, so the saturating additions never saturate, and
/// the level agrees with the score's bands.
pub proof fn lemma_risk_score_bounded(quantum_vulnerable: bool, pqc: bool, tls: bool, port: u16)
    ensures
        risk_score(quantum_vulnerable, pqc, tls, port) <= 140,
{
}

/// A software component (port 0) without classical cryptography has score 0 and
/// no findings.
pub proof fn lemma_component_without_classical_crypto_is_clean(pqc: bool)
    ensures
        risk_score(false, pqc, false, 0) == 0,
        risk_findings(false, pqc, false, 0).len() == 0,
        risk_level(0) == "low"@,
{
}

/// The points a finding adds to the risk score, by its code.
pub open spec fn finding_weight(f: FindingSpec) -> nat {
    if f.code == "PQC-001"@ {
        45
    } else if f.code == "PQC-002"@ {
        25
    } else if f.code == "MQTT-001"@ {
        70
    } else if f.code == "CRYPTO-UNKNOWN"@ {
        10
    } else if f.code == "TLS-001"@ {
        15
    } else {
        0
    }
}

/// The points of all findings together.
pub open spec fn total_weight(fs: Seq<FindingSpec>) -> nat
    decreases fs.len(),
{
    if fs.len() == 0 {
        0
    } else {
        total_weight(fs.drop_last()) + finding_weight(fs.last())
    }
}

proof fn lemma_total_weight_push(fs: Seq<FindingSpec>, f: FindingSpec)
    ensures
        total_weight(fs.push(f)) == total_weight(fs) + finding_weight(f),
{
    assert(fs.push(f).drop_last() =~= fs);
}

/// Scores are explained by their findings: the score is the sum of the points of
/// the findings reported with it, each finding standing for one part of the score.
pub proof fn lemma_score_is_sum_of_findings(quantum_vulnerable: bool, pqc: bool, tls: bool, port: u16)
    ensures
        risk_score(quantum_vulnerable, pqc, tls, port) == total_weight(
            risk_findings(quantum_vulnerable, pqc, tls, port),
        ),
{
    reveal_strlit("PQC-001");
    reveal_strlit("PQC-002");
    reveal_strlit("MQTT-001");
    reveal_strlit("CRYPTO-UNKNOWN");
    reveal_strlit("TLS-001");
    assert("PQC-002"@ != "PQC-001"@) by {
        assert("PQC-002"@[6] != "PQC-001"@[6]);
    }
    assert("MQTT-001"@ != "PQC-001"@ && "MQTT-001"@ != "PQC-002"@) by {
        assert("MQTT-001"@.len() != "PQC-001"@.len());
    }
    assert("CRYPTO-UNKNOWN"@.len() != "PQC-001"@.len());
    assert("CRYPTO-UNKNOWN"@.len() != "MQTT-001"@.len());
    assert("TLS-001"@ != "PQC-001"@ && "TLS-001"@ != "PQC-002"@) by {
        assert("TLS-001"@[0] != "PQC-001"@[0]);
    }
    assert("TLS-001"@.len() != "MQTT-001"@.len());
    assert("TLS-001"@.len() != "CRYPTO-UNKNOWN"@.len());
    let none = Seq::<FindingSpec>::empty();
    let a = if quantum_vulnerable {
        none.push(pqc001())
    } else {
        none
    };
    assert(seq![pqc001()] =~= none.push(pqc001()));
    lemma_total_weight_push(none, pqc001());
    let b = if tls && !pqc {
        a.push(pqc002())
    } else {
        a
    };
    lemma_total_weight_push(a, pqc002());
    let c = if port == 1883 {
        b.push(mqtt001())
    } else if !tls && port != 0 {
        b.push(crypto_unknown())
    } else {
        b
    };
    lemma_total_weight_push(b, mqtt001());
    lemma_total_weight_push(b, crypto_unknown());
    lemma_total_weight_push(c, tls001());
}

/// An HTTPS port (443 or 8443) that answered without a TLS observation is named
/// `HTTPS/TLS`, is flagged `TLS-001` ("TLS probe unavailable") besides
/// `CRYPTO-UNKNOWN`, and scores the 10 points of an uncharacterized service plus
/// the 15 of the missing TLS evidence on top of any classical-cryptography points.
pub proof fn lemma_https_without_tls_evidence(quantum_vulnerable: bool, pqc: bool, port: u16)
    requires
        port == 443 || port == 8443,
    ensures
        service_name(port) == "HTTPS/TLS"@,
        exists|i: int|
            0 <= i < risk_findings(quantum_vulnerable, pqc, false, port).len() && (#[trigger] risk_findings(
                quantum_vulnerable,
                pqc,
                false,
                port,
            )[i]).code == "TLS-001"@ && risk_findings(quantum_vulnerable, pqc, false, port)[i].title
                == "TLS probe unavailable"@,
        exists|i: int|
            0 <= i < risk_findings(quantum_vulnerable, pqc, false, port).len() && (#[trigger] risk_findings(
                quantum_vulnerable,
                pqc,
                false,
                port,
            )[i]).code == "CRYPTO-UNKNOWN"@,
        risk_score(quantum_vulnerable, pqc, false, port) == (if quantum_vulnerable {
            45nat
        } else {
            0nat
        }) + 25,
        risk_findings(quantum_vulnerable, pqc, false, port) == risk_findings(
            quantum_vulnerable,
            pqc,
            false,
            443,
        ),
{
    let fs = risk_findings(quantum_vulnerable, pqc, false, port);
    let a = if quantum_vulnerable {
        seq![pqc001()]
    } else {
        Seq::<FindingSpec>::empty()
    };
    assert(fs == a.push(crypto_unknown()).push(tls001()));
    assert(fs[a.len() as int + 1] == tls001());
    assert(fs[a.len() as int] == crypto_unknown());
}

/// The well-known service name of a port.
pub open spec fn service_name(port: u16) -> Seq<char> {
    if port == 22 {
        "SSH"@
    } else if port == 80 {
        "HTTP"@
    } else if port == 443 || port == 8443 {
        "HTTPS/TLS"@
    } else if port == 1883 {
        "MQTT"@
    } else if port == 8883 {
        "MQTT over TLS"@
    } else if port == 7878 {
        "Crypton/secure channel candidate"@
    } else {
        "TCP service"@
    }
}

/// Names the service conventionally found on `port`.
pub fn service_for_port(port: u16) -> (s: &'static str)
    ensures
        s@ == service_name(port),
{
    match port {
        22 => "SSH",
        80 => "HTTP",
        443 | 8443 => "HTTPS/TLS",
        1883 => "MQTT",
        8883 => "MQTT over TLS",
        7878 => "Crypton/secure channel candidate",
        _ => "TCP service",
    }
}

pub open spec fn is_known_service_port(port: u16) -> bool {
    port == 22 || port == 80 || port == 443 || port == 1883 || port == 1884 || port == 7878 || port
        == 8443 || port == 8883
}

/// Whether `port` is one whose service the port mapping names with confidence.
pub fn known_service_port(port: u16) -> (b: bool)
    ensures
        b == is_known_service_port(port),
{
    port == 22 || port == 80 || port == 443 || port == 1883 || port == 1884 || port == 7878 || port
        == 8443 || port == 8883
}

} // verus!
