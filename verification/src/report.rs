//! The neutral report model: assets, summary counts and relationships.
use vstd::prelude::*;
use crate::assess::{CryptoProfile, Finding, Risk, TlsObservation};
use crate::text::{chars_eq_str, chars_of, decimal_int, push_decimal_i64, push_str, string_from_chars, string_views};

verus! {

/// The record of one probe of an asset (its duration is kept beside the model).
#[derive(Debug)]
pub struct ProbeEvidence {
    pub attempted: bool,
    pub outcome: String,
    pub tool: Option<String>,
    pub error: Option<String>,
}

/// How the service of an asset was identified.
#[derive(Debug)]
pub struct ServiceDetection {
    pub name: String,
    pub method: String,
    pub confidence: String,
    pub banner_observed: bool,
}

/// A network service or software component in a report (latencies are kept
/// beside the model).
#[derive(Debug)]
pub struct Asset {
    pub id: String,
    pub host: String,
    pub port: u16,
    pub service: String,
    pub protocol: String,
    pub reachable: bool,
    pub connection: ProbeEvidence,
    pub tls_probe: ProbeEvidence,
    pub service_detection: ServiceDetection,
    pub tls: Option<TlsObservation>,
    pub crypto: CryptoProfile,
    pub risk: Risk,
    pub findings: Vec<Finding>,
    pub recommendation: String,
}

/// Counts over the assets of a report.
#[derive(Debug)]
pub struct Summary {
    pub assets: usize,
    pub services: usize,
    pub reachable: usize,
    pub tls_services: usize,
    pub pqc_ready: usize,
    pub classical_only: usize,
    pub high_risk: usize,
    pub proxy_candidates: usize,
    pub certificates_expiring_soon: usize,
}

/// An edge of the report's knowledge graph.
#[derive(Debug)]
pub struct Relationship {
    pub source: String,
    pub target: String,
    pub kind: String,
}

/// A relationship as character sequences.
pub struct RelationshipSpec {
    pub source: Seq<char>,
    pub target: Seq<char>,
    pub kind: Seq<char>,
}

impl View for Relationship {
    type V = RelationshipSpec;

    open spec fn view(&self) -> RelationshipSpec {
        RelationshipSpec { source: self.source@, target: self.target@, kind: self.kind@ }
    }
}

pub open spec fn relationship_views(v: Seq<Relationship>) -> Seq<RelationshipSpec> {
    Seq::new(v.len(), |i: int| v[i]@)
}

/// The scope of a report.
#[derive(Debug)]
pub struct Scope {
    pub mode: String,
    pub authorized: bool,
    pub targets: Vec<String>,
}

/// How the evidence of a report was collected.
#[derive(Debug)]
pub struct Collection {
    pub method: String,
    pub port_spec: String,
    pub attempted_ports: Vec<u16>,
    pub attempted_port_count: usize,
    pub reachable_port_count: usize,
    pub worker_count: usize,
    pub timeout_ms: Option<u64>,
    pub tls_probe_requested: bool,
    pub tls_probe_timeout_ms: u64,
    pub limitations: Vec<String>,
}

/// A scan or inventory report (its total duration is kept beside the model).
#[derive(Debug)]
pub struct ScanReport {
    pub scan_id: String,
    pub schema_version: String,
    pub tool: String,
    pub started_at: String,
    pub completed_at: String,
    pub generated_at: String,
    pub scope: Scope,
    pub collection: Collection,
    pub summary: Summary,
    pub assets: Vec<Asset>,
    pub relationships: Vec<Relationship>,
}

/// The number of assets that satisfy `p`.
pub open spec fn count_where(assets: Seq<Asset>, p: spec_fn(Asset) -> bool) -> nat
    decreases assets.len(),
{
    if assets.len() == 0 {
        0
    } else {
        count_where(assets.drop_last(), p) + if p(assets.last()) {
            1nat
        } else {
            0nat
        }
    }
}

/// Some finding of the asset has the given code.
pub open spec fn has_finding(a: Asset, code: Seq<char>) -> bool {
    exists|i: int| 0 <= i < a.findings@.len() && (#[trigger] a.findings@[i]).code@ == code
}

pub open spec fn is_service(a: Asset) -> bool {
    a.port != 0
}

pub open spec fn is_reachable(a: Asset) -> bool {
    a.reachable
}

pub open spec fn has_tls(a: Asset) -> bool {
    a.tls is Some
}

pub open spec fn is_pqc_ready(a: Asset) -> bool {
    a.crypto.pqc_supported
}

/// Classical cryptography and no post-quantum signal.
pub open spec fn is_classical_only(a: Asset) -> bool {
    a.crypto.quantum_vulnerable && !a.crypto.pqc_supported
}

pub open spec fn is_high_risk(a: Asset) -> bool {
    a.risk.level@ == "high"@
}

/// An asset that a proxy would protect: classical-only, or a plain MQTT listener.
pub open spec fn is_proxy_candidate(a: Asset) -> bool {
    is_classical_only(a) || has_finding(a, "MQTT-001"@)
}

/// The summary the report states for `assets`.
pub open spec fn summary_matches(s: Summary, assets: Seq<Asset>) -> bool {
    &&& s.assets == assets.len()
    &&& s.services == count_where(assets, |a: Asset| is_service(a))
    &&& s.reachable == count_where(assets, |a: Asset| is_reachable(a))
    &&& s.tls_services == count_where(assets, |a: Asset| has_tls(a))
    &&& s.pqc_ready == count_where(assets, |a: Asset| is_pqc_ready(a))
    &&& s.classical_only == count_where(assets, |a: Asset| is_classical_only(a))
    &&& s.high_risk == count_where(assets, |a: Asset| is_high_risk(a))
    &&& s.proxy_candidates == count_where(assets, |a: Asset| is_proxy_candidate(a))
    &&& s.certificates_expiring_soon == 0
}

fn has_mqtt_finding(a: &Asset) -> (b: bool)
    ensures
        b == has_finding(*a, "MQTT-001"@),
{
    let mut i: usize = 0;
    while i < a.findings.len()
        invariant
            i <= a.findings@.len(),
            forall|j: int| 0 <= j < i ==> (#[trigger] a.findings@[j]).code@ != "MQTT-001"@,
        decreases a.findings.len() - i,
    {
        let code = chars_of(a.findings[i].code.as_str());
        if chars_eq_str(&code, "MQTT-001") {
            return true;
        }
        i = i + 1;
    }
    false
}

proof fn lemma_count_step(assets: Seq<Asset>, i: int, p: spec_fn(Asset) -> bool)
    requires
        0 <= i < assets.len(),
    ensures
        count_where(assets.take(i + 1), p) == count_where(assets.take(i), p) + if p(assets[i]) {
            1nat
        } else {
            0nat
        },
        count_where(assets.take(i), p) <= i,
{
    assert(assets.take(i + 1).drop_last() == assets.take(i));
    lemma_count_le_len(assets.take(i), p);
}

proof fn lemma_count_le_len(assets: Seq<Asset>, p: spec_fn(Asset) -> bool)
    ensures
        count_where(assets, p) <= assets.len(),
    decreases assets.len(),
{
    if assets.len() > 0 {
        lemma_count_le_len(assets.drop_last(), p);
    }
}

/// Counts the assets by category.
pub fn summarize(assets: &Vec<Asset>) -> (s: Summary)
    ensures
        summary_matches(s, assets@),
{
    let mut s = Summary {
        assets: assets.len(),
        services: 0,
        reachable: 0,
        tls_services: 0,
        pqc_ready: 0,
        classical_only: 0,
        high_risk: 0,
        proxy_candidates: 0,
        certificates_expiring_soon: 0,
    };
    let ghost all = assets@;
    let mut i: usize = 0;
    while i < assets.len()
        invariant
            i <= assets.len(),
            all == assets@,
            s.assets == all.len(),
            s.services == count_where(all.take(i as int), |a: Asset| is_service(a)),
            s.reachable == count_where(all.take(i as int), |a: Asset| is_reachable(a)),
            s.tls_services == count_where(all.take(i as int), |a: Asset| has_tls(a)),
            s.pqc_ready == count_where(all.take(i as int), |a: Asset| is_pqc_ready(a)),
            s.classical_only == count_where(all.take(i as int), |a: Asset| is_classical_only(a)),
            s.high_risk == count_where(all.take(i as int), |a: Asset| is_high_risk(a)),
            s.proxy_candidates == count_where(all.take(i as int), |a: Asset| is_proxy_candidate(a)),
            s.certificates_expiring_soon == 0,
        decreases assets.len() - i,
    {
        let a = &assets[i];
        proof {
            lemma_count_step(all, i as int, |a: Asset| is_service(a));
            lemma_count_step(all, i as int, |a: Asset| is_reachable(a));
            lemma_count_step(all, i as int, |a: Asset| has_tls(a));
            lemma_count_step(all, i as int, |a: Asset| is_pqc_ready(a));
            lemma_count_step(all, i as int, |a: Asset| is_classical_only(a));
            lemma_count_step(all, i as int, |a: Asset| is_high_risk(a));
            lemma_count_step(all, i as int, |a: Asset| is_proxy_candidate(a));
        }
        if a.port != 0 {
            s.services = s.services + 1;
        }
        if a.reachable {
            s.reachable = s.reachable + 1;
        }
        if a.tls.is_some() {
            s.tls_services = s.tls_services + 1;
        }
        if a.crypto.pqc_supported {
            s.pqc_ready = s.pqc_ready + 1;
        }
        let classical_only = a.crypto.quantum_vulnerable && !a.crypto.pqc_supported;
        if classical_only {
            s.classical_only = s.classical_only + 1;
        }
        let level = chars_of(a.risk.level.as_str());
        if chars_eq_str(&level, "high") {
            s.high_risk = s.high_risk + 1;
        }
        if classical_only || has_mqtt_finding(a) {
            s.proxy_candidates = s.proxy_candidates + 1;
        }
        i = i + 1;
    }
    assert(all.take(i as int) == all);
    s
}

/// The name under which an asset's service appears in the graph.
pub open spec fn service_label(a: Asset) -> Seq<char> {
    if a.service@.len() == 0 {
        a.protocol@
    } else {
        a.service@
    }
}

pub open spec fn rel(source: Seq<char>, target: Seq<char>, kind: Seq<char>) -> RelationshipSpec {
    RelationshipSpec { source, target, kind }
}

/// The edges of one asset: it exposes its service, and it uses each of its
/// algorithms (or, with none, points at its evidence source).
pub open spec fn asset_relationships(a: Asset) -> Seq<RelationshipSpec> {
    let algs = string_views(a.crypto.algorithms@);
    seq![rel(a.id@, "service:"@ + service_label(a), "exposes"@)] + if algs.len() == 0 {
        seq![rel(a.id@, "evidence:"@ + a.crypto.evidence@, "evidence"@)]
    } else {
        Seq::new(algs.len(), |k: int| rel(a.id@, "algorithm:"@ + algs[k], "uses"@))
    }
}

/// The edges of all assets, asset by asset.
pub open spec fn all_relationships(assets: Seq<Asset>) -> Seq<RelationshipSpec>
    decreases assets.len(),
{
    if assets.len() == 0 {
        Seq::empty()
    } else {
        all_relationships(assets.drop_last()) + asset_relationships(assets.last())
    }
}

fn push_relationship(out: &mut Vec<Relationship>, source: &str, prefix: &str, label: &str, kind: &str)
    ensures
        relationship_views(final(out)@) == relationship_views(old(out)@).push(
            rel(source@, prefix@ + label@, kind@),
        ),
{
    let mut target: Vec<char> = Vec::new();
    push_str(&mut target, prefix);
    push_str(&mut target, label);
    let ghost before = relationship_views(out@);
    out.push(
        Relationship {
            source: String::from_str(source),
            target: string_from_chars(&target),
            kind: String::from_str(kind),
        },
    );
    assert(relationship_views(out@) == before.push(rel(source@, prefix@ + label@, kind@)));
}

/// Builds the knowledge-graph edges of the assets.
pub fn relationships_for(assets: &Vec<Asset>) -> (r: Vec<Relationship>)
    ensures
        relationship_views(r@) == all_relationships(assets@),
{
    let mut out: Vec<Relationship> = Vec::new();
    let ghost all = assets@;
    let mut i: usize = 0;
    while i < assets.len()
        invariant
            i <= assets.len(),
            all == assets@,
            relationship_views(out@) == all_relationships(all.take(i as int)),
        decreases assets.len() - i,
    {
        let a = &assets[i];
        proof {
            assert(all.take(i + 1).drop_last() == all.take(i as int));
            assert(all.take(i + 1).last() == *a);
        }
        let ghost before = relationship_views(out@);
        let label = if a.service.as_str().is_empty() {
            a.protocol.as_str()
        } else {
            a.service.as_str()
        };
        push_relationship(&mut out, a.id.as_str(), "service:", label, "exposes");
        if a.crypto.algorithms.len() == 0 {
            push_relationship(&mut out, a.id.as_str(), "evidence:", a.crypto.evidence.as_str(), "evidence");
        } else {
            let ghost algs = string_views(a.crypto.algorithms@);
            let mut k: usize = 0;
            while k < a.crypto.algorithms.len()
                invariant
                    k <= a.crypto.algorithms@.len(),
                    algs == string_views(a.crypto.algorithms@),
                    relationship_views(out@) == before + seq![
                        rel(a.id@, "service:"@ + service_label(*a), "exposes"@),
                    ] + Seq::new(k as nat, |j: int| rel(a.id@, "algorithm:"@ + algs[j], "uses"@)),
                decreases a.crypto.algorithms.len() - k,
            {
                let ghost prev = relationship_views(out@);
                push_relationship(
                    &mut out,
                    a.id.as_str(),
                    "algorithm:",
                    a.crypto.algorithms[k].as_str(),
                    "uses",
                );
                assert(Seq::new((k + 1) as nat, |j: int| rel(a.id@, "algorithm:"@ + algs[j], "uses"@))
                    == Seq::new(k as nat, |j: int| rel(a.id@, "algorithm:"@ + algs[j], "uses"@)).push(
                    rel(a.id@, "algorithm:"@ + algs[k as int], "uses"@),
                ));
                k = k + 1;
            }
        }
        proof {
            assert(relationship_views(out@) == before + asset_relationships(*a));
        }
        i = i + 1;
    }
    assert(all.take(i as int) == all);
    out
}

/// Every relationship starts at an asset of the report, and every asset has an
/// edge to its service.
pub proof fn lemma_relationships_anchored(assets: Seq<Asset>)
    ensures
        forall|i: int|
            0 <= i < all_relationships(assets).len() ==> exists|j: int|
                0 <= j < assets.len() && (#[trigger] all_relationships(assets)[i]).source
                    == #[trigger] assets[j].id@,
        forall|j: int|
            0 <= j < assets.len() ==> (exists|i: int|
                0 <= i < all_relationships(assets).len() && #[trigger] all_relationships(assets)[i]
                    == rel((#[trigger] assets[j]).id@, "service:"@ + service_label(assets[j]), "exposes"@)),
    decreases assets.len(),
{
    if assets.len() > 0 {
        let prev = assets.drop_last();
        lemma_relationships_anchored(prev);
        let head = all_relationships(prev);
        let tail = asset_relationships(assets.last());
        let all = all_relationships(assets);
        assert(all == head + tail);
        assert forall|i: int| 0 <= i < all.len() implies exists|j: int|
            0 <= j < assets.len() && (#[trigger] all[i]).source == #[trigger] assets[j].id@ by {
            if i < head.len() {
                let j = choose|j: int| 0 <= j < prev.len() && head[i].source == prev[j].id@;
                assert(assets[j] == prev[j]);
            } else {
                assert(all[i] == tail[i - head.len()]);
                assert(all[i].source == assets[assets.len() - 1].id@);
            }
        }
        assert forall|j: int| 0 <= j < assets.len() implies (exists|i: int|
            0 <= i < all.len() && #[trigger] all[i] == rel(
                (#[trigger] assets[j]).id@,
                "service:"@ + service_label(assets[j]),
                "exposes"@,
            )) by {
            if j < prev.len() {
                assert(assets[j] == prev[j]);
                let i = choose|i: int|
                    0 <= i < head.len() && head[i] == rel(
                        prev[j].id@,
                        "service:"@ + service_label(prev[j]),
                        "exposes"@,
                    );
                assert(all[i] == head[i]);
            } else {
                assert(all[head.len() as int] == tail[0]);
            }
        }
    }
}

proof fn lemma_count_disjoint(assets: Seq<Asset>, p: spec_fn(Asset) -> bool, q: spec_fn(Asset) -> bool)
    requires
        forall|a: Asset| !(#[trigger] p(a) && q(a)),
    ensures
        count_where(assets, p) + count_where(assets, q) <= assets.len(),
    decreases assets.len(),
{
    if assets.len() > 0 {
        lemma_count_disjoint(assets.drop_last(), p, q);
    }
}

proof fn lemma_count_implies(assets: Seq<Asset>, p: spec_fn(Asset) -> bool, q: spec_fn(Asset) -> bool)
    requires
        forall|a: Asset| #[trigger] p(a) ==> q(a),
    ensures
        count_where(assets, p) <= count_where(assets, q),
    decreases assets.len(),
{
    if assets.len() > 0 {
        lemma_count_implies(assets.drop_last(), p, q);
    }
}

/// In every summary, PQC-ready and classical-only assets are disjoint, every
/// classical-only asset is a proxy candidate, and no count exceeds the assets.
pub proof fn lemma_summary_consistent(s: Summary, assets: Seq<Asset>)
    requires
        summary_matches(s, assets),
    ensures
        s.pqc_ready + s.classical_only <= s.assets,
        s.classical_only <= s.proxy_candidates,
        s.services <= s.assets,
        s.reachable <= s.assets,
        s.tls_services <= s.assets,
        s.high_risk <= s.assets,
        s.proxy_candidates <= s.assets,
{
    lemma_count_disjoint(assets, |a: Asset| is_pqc_ready(a), |a: Asset| is_classical_only(a));
    lemma_count_implies(assets, |a: Asset| is_classical_only(a), |a: Asset| is_proxy_candidate(a));
    lemma_count_le_len(assets, |a: Asset| is_service(a));
    lemma_count_le_len(assets, |a: Asset| is_reachable(a));
    lemma_count_le_len(assets, |a: Asset| has_tls(a));
    lemma_count_le_len(assets, |a: Asset| is_high_risk(a));
    lemma_count_le_len(assets, |a: Asset| is_proxy_candidate(a));
}

} // verus!
