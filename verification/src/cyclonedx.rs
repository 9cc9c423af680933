//! Exporting a report as a CycloneDX SBOM, CBOM or combined BOM.
use vstd::prelude::*;
use crate::report::{Asset, ScanReport};
use crate::scan::{utc_now, ClockError};
use crate::text::{
    chars_eq, chars_eq_str, chars_of, decimal, push_chars, push_decimal, push_str, slice_chars,
    string_from_chars, string_views,
};

verus! {

/// Which parts of a report a BOM carries.
#[derive(Debug, Clone, Copy, PartialEq, Eq, Structural)]
pub enum CycloneDxKind {
    /// Software components only.
    Sbom,
    /// Cryptographic evidence: network services, components with algorithms, and
    /// the algorithms themselves.
    Cbom,
    /// Both.
    Combined,
}

#[derive(Debug)]
pub struct CycloneDxProperty {
    pub name: String,
    pub value: String,
}

#[derive(Debug)]
pub struct CycloneDxComponent {
    pub component_type: String,
    pub name: String,
    pub version: String,
    pub bom_ref: String,
    pub purl: Option<String>,
    pub properties: Vec<CycloneDxProperty>,
}

#[derive(Debug)]
pub struct CycloneDxDependency {
    pub ref_: String,
    pub depends_on: Vec<String>,
}

#[derive(Debug)]
pub struct CycloneDxTool {
    pub vendor: String,
    pub name: String,
    pub version: String,
}

#[derive(Debug)]
pub struct CycloneDxMetadata {
    pub timestamp: String,
    pub tools: Vec<CycloneDxTool>,
    pub properties: Vec<CycloneDxProperty>,
}

#[derive(Debug)]
pub struct CycloneDxBom {
    pub bom_format: String,
    pub spec_version: String,
    pub version: u32,
    pub metadata: CycloneDxMetadata,
    pub components: Vec<CycloneDxComponent>,
    pub dependencies: Vec<CycloneDxDependency>,
}

/// A property as a (name, value) pair.
pub type PropSpec = (Seq<char>, Seq<char>);

pub open spec fn prop_views(v: Seq<CycloneDxProperty>) -> Seq<PropSpec> {
    Seq::new(v.len(), |i: int| (v[i].name@, v[i].value@))
}

/// A component as character sequences.
pub struct ComponentSpec {
    pub component_type: Seq<char>,
    pub name: Seq<char>,
    pub version: Seq<char>,
    pub bom_ref: Seq<char>,
    pub purl: Option<Seq<char>>,
    pub properties: Seq<PropSpec>,
}

impl View for CycloneDxComponent {
    type V = ComponentSpec;

    open spec fn view(&self) -> ComponentSpec {
        ComponentSpec {
            component_type: self.component_type@,
            name: self.name@,
            version: self.version@,
            bom_ref: self.bom_ref@,
            purl: match self.purl {
                Some(p) => Some(p@),
                None => None,
            },
            properties: prop_views(self.properties@),
        }
    }
}

pub open spec fn component_views(v: Seq<CycloneDxComponent>) -> Seq<ComponentSpec> {
    Seq::new(v.len(), |i: int| v[i]@)
}

/// A dependency as character sequences.
pub struct DependencySpec {
    pub ref_: Seq<char>,
    pub depends_on: Seq<Seq<char>>,
}

impl View for CycloneDxDependency {
    type V = DependencySpec;

    open spec fn view(&self) -> DependencySpec {
        DependencySpec { ref_: self.ref_@, depends_on: string_views(self.depends_on@) }
    }
}

pub open spec fn dependency_views(v: Seq<CycloneDxDependency>) -> Seq<DependencySpec> {
    Seq::new(v.len(), |i: int| v[i]@)
}

/// `crypton:asset:<id>`.
pub open spec fn asset_ref_text(id: Seq<char>) -> Seq<char> {
    "crypton:asset:"@ + id
}

/// `crypton:algorithm:<name>`.
pub open spec fn algorithm_ref_text(algorithm: Seq<char>) -> Seq<char> {
    "crypton:algorithm:"@ + algorithm
}

/// A named property.
pub fn property(name: &str, value: &str) -> (p: CycloneDxProperty)
    ensures
        p.name@ == name@,
        p.value@ == value@,
{
    CycloneDxProperty { name: String::from_str(name), value: String::from_str(value) }
}

/// The BOM reference of an asset.
pub fn asset_ref(id: &str) -> (r: String)
    ensures
        r@ == asset_ref_text(id@),
{
    let mut v: Vec<char> = Vec::new();
    push_str(&mut v, "crypton:asset:");
    push_str(&mut v, id);
    string_from_chars(&v)
}

/// The BOM reference of an algorithm.
pub fn algorithm_ref(algorithm: &str) -> (r: String)
    ensures
        r@ == algorithm_ref_text(algorithm@),
{
    let mut v: Vec<char> = Vec::new();
    push_str(&mut v, "crypton:algorithm:");
    push_str(&mut v, algorithm);
    string_from_chars(&v)
}

pub open spec fn kind_label(kind: CycloneDxKind) -> Seq<char> {
    match kind {
        CycloneDxKind::Sbom => "sbom"@,
        CycloneDxKind::Cbom => "cbom"@,
        CycloneDxKind::Combined => "combined"@,
    }
}

pub open spec fn includes_software(kind: CycloneDxKind) -> bool {
    kind is Sbom || kind is Combined
}

pub open spec fn includes_crypto(kind: CycloneDxKind) -> bool {
    kind is Cbom || kind is Combined
}

/// The text after the last `:` of `s` (all of `s` without one).
pub open spec fn last_segment(s: Seq<char>) -> Seq<char>
    decreases s.len(),
{
    if s.len() == 0 {
        s
    } else if s.last() == ':' {
        Seq::empty()
    } else {
        last_segment(s.drop_last()).push(s.last())
    }
}

fn last_segment_exec(s: &[char]) -> (r: Vec<char>)
    ensures
        r@ == last_segment(s@),
{
    let mut r: Vec<char> = Vec::new();
    let mut i: usize = 0;
    while i < s.len()
        invariant
            i <= s.len(),
            r@ == last_segment(s@.take(i as int)),
        decreases s.len() - i,
    {
        proof {
            assert(s@.take(i + 1).drop_last() == s@.take(i as int));
        }
        if s[i] == ':' {
            r = Vec::new();
        } else {
            r.push(s[i]);
        }
        i = i + 1;
    }
    assert(s@.take(i as int) == s@);
    r
}

/// An asset is a software component (port 0 or protocol `component`).
pub open spec fn is_software(a: Asset) -> bool {
    a.port == 0 || a.protocol@ == "component"@
}

pub open spec fn is_network(a: Asset) -> bool {
    a.port != 0
}

/// Whether a BOM of this kind carries the asset: software components for an SBOM,
/// network services and components with algorithms for a CBOM.
pub open spec fn bom_includes(a: Asset, kind: CycloneDxKind) -> bool {
    (is_software(a) && (includes_software(kind) || (includes_crypto(kind)
        && a.crypto.algorithms@.len() > 0))) || (is_network(a) && includes_crypto(kind))
}

pub open spec fn bool_text(b: bool) -> Seq<char> {
    if b {
        "true"@
    } else {
        "false"@
    }
}

/// The properties recorded for an asset component.
pub open spec fn asset_properties(a: Asset) -> Seq<PropSpec> {
    let algs = string_views(a.crypto.algorithms@);
    let base = seq![
        (
            "crypton.asset_type"@,
            if is_network(a) {
                "network_service"@
            } else {
                "software_component"@
            },
        ),
        ("crypton.evidence_source"@, a.crypto.evidence@),
        ("crypton.reachable"@, bool_text(a.reachable)),
        ("crypton.risk_level"@, a.risk.level@),
        ("crypton.risk_score"@, decimal(a.risk.score as nat)),
    ];
    let net = if is_network(a) {
        base + seq![
            ("crypton.host"@, a.host@),
            ("crypton.port"@, decimal(a.port as nat)),
            ("crypton.protocol"@, a.protocol@),
        ]
    } else {
        base
    };
    let with_algs = net + Seq::new(
        algs.len(),
        |k: int| ("crypton.crypto_algorithm"@, algs[k]),
    );
    if algs.len() == 0 {
        with_algs.push(
            (
                "crypton.crypto_observation"@,
                if a.crypto.encryption_observed {
                    "encryption_observed_algorithm_unknown"@
                } else {
                    "not_observed"@
                },
            ),
        )
    } else {
        with_algs
    }
}

/// The component that stands for an asset.
pub open spec fn asset_component(a: Asset) -> ComponentSpec {
    ComponentSpec {
        component_type: "library"@,
        name: if is_network(a) {
            a.service@
        } else {
            a.host@
        },
        version: if is_network(a) {
            "runtime-observed"@
        } else {
            last_segment(a.id@)
        },
        bom_ref: asset_ref_text(a.id@),
        purl: None,
        properties: asset_properties(a),
    }
}

/// The component that stands for an algorithm.
pub open spec fn algorithm_component(algorithm: Seq<char>, evidence: Seq<char>) -> ComponentSpec {
    ComponentSpec {
        component_type: "library"@,
        name: algorithm,
        version: "observed"@,
        bom_ref: algorithm_ref_text(algorithm),
        purl: None,
        properties: seq![
            ("crypton.asset_type"@, "cryptographic_algorithm"@),
            ("crypton.algorithm"@, algorithm),
            ("crypton.evidence_source"@, evidence),
        ],
    }
}

/// Whether some component has the reference.
pub open spec fn has_ref(comps: Seq<ComponentSpec>, r: Seq<char>) -> bool {
    exists|i: int| 0 <= i < comps.len() && (#[trigger] comps[i]).bom_ref == r
}

/// The components after adding each algorithm's component once, and the
/// algorithm references in order.
pub open spec fn add_algorithms(comps: Seq<ComponentSpec>, algs: Seq<Seq<char>>, evidence: Seq<char>) -> (
    Seq<ComponentSpec>,
    Seq<Seq<char>>,
)
    decreases algs.len(),
{
    if algs.len() == 0 {
        (comps, Seq::empty())
    } else {
        let (cs, refs) = add_algorithms(comps, algs.drop_last(), evidence);
        let r = algorithm_ref_text(algs.last());
        (
            if has_ref(cs, r) {
                cs
            } else {
                cs.push(algorithm_component(algs.last(), evidence))
            },
            refs.push(r),
        )
    }
}

/// The BOM content so far: components and dependencies.
pub struct BomSpec {
    pub components: Seq<ComponentSpec>,
    pub dependencies: Seq<DependencySpec>,
}

/// One asset added to the BOM content.
pub open spec fn bom_step(b: BomSpec, a: Asset, kind: CycloneDxKind) -> BomSpec {
    if !bom_includes(a, kind) {
        b
    } else {
        let comps = b.components.push(asset_component(a));
        if includes_crypto(kind) {
            let (cs, refs) = add_algorithms(
                comps,
                string_views(a.crypto.algorithms@),
                a.crypto.evidence@,
            );
            BomSpec {
                components: cs,
                dependencies: if refs.len() > 0 {
                    b.dependencies.push(DependencySpec { ref_: asset_ref_text(a.id@), depends_on: refs })
                } else {
                    b.dependencies
                },
            }
        } else {
            BomSpec { components: comps, dependencies: b.dependencies }
        }
    }
}

/// The BOM content for the assets, asset by asset.
pub open spec fn bom_content(assets: Seq<Asset>, kind: CycloneDxKind) -> BomSpec
    decreases assets.len(),
{
    if assets.len() == 0 {
        BomSpec { components: Seq::empty(), dependencies: Seq::empty() }
    } else {
        bom_step(bom_content(assets.drop_last(), kind), assets.last(), kind)
    }
}

/// The metadata properties of a BOM.
pub open spec fn metadata_properties(kind: CycloneDxKind, scan_id: Seq<char>) -> Seq<PropSpec> {
    seq![
        ("crypton.bom_kind"@, kind_label(kind)),
        ("crypton.source_report"@, scan_id),
        ("crypton.evidence_model"@, "network_and_software_inventory"@),
    ]
}

/// The BOM's fixed header and tool metadata.
pub open spec fn bom_header_ok(b: CycloneDxBom) -> bool {
    &&& b.bom_format@ == "CycloneDX"@
    &&& b.spec_version@ == "1.5"@
    &&& b.version == 1
    &&& b.metadata.tools@.len() == 1
    &&& b.metadata.tools@[0].vendor@ == "Crypton"@
    &&& b.metadata.tools@[0].name@ == "Crypton Sweep"@
    &&& b.metadata.tools@[0].version@ == "0.1.0"@
}

fn push_property(props: &mut Vec<CycloneDxProperty>, name: &str, value: &str)
    ensures
        prop_views(final(props)@) == prop_views(old(props)@).push((name@, value@)),
{
    let ghost before = prop_views(props@);
    props.push(property(name, value));
    assert(prop_views(props@) == before.push((name@, value@)));
}

fn push_property_chars(props: &mut Vec<CycloneDxProperty>, name: &str, value: &[char])
    ensures
        prop_views(final(props)@) == prop_views(old(props)@).push((name@, value@)),
{
    let ghost before = prop_views(props@);
    props.push(CycloneDxProperty { name: String::from_str(name), value: string_from_chars(value) });
    assert(prop_views(props@) == before.push((name@, value@)));
}

fn build_asset_properties(a: &Asset) -> (props: Vec<CycloneDxProperty>)
    ensures
        prop_views(props@) == asset_properties(*a),
{
    let network = a.port != 0;
    let mut props: Vec<CycloneDxProperty> = Vec::new();
    push_property(
        &mut props,
        "crypton.asset_type",
        if network {
            "network_service"
        } else {
            "software_component"
        },
    );
    push_property(&mut props, "crypton.evidence_source", a.crypto.evidence.as_str());
    push_property(
        &mut props,
        "crypton.reachable",
        if a.reachable {
            "true"
        } else {
            "false"
        },
    );
    push_property(&mut props, "crypton.risk_level", a.risk.level.as_str());
    let mut score: Vec<char> = Vec::new();
    push_decimal(&mut score, a.risk.score as u64);
    push_property_chars(&mut props, "crypton.risk_score", &score);
    if network {
        push_property(&mut props, "crypton.host", a.host.as_str());
        let mut port: Vec<char> = Vec::new();
        push_decimal(&mut port, a.port as u64);
        push_property_chars(&mut props, "crypton.port", &port);
        push_property(&mut props, "crypton.protocol", a.protocol.as_str());
    }
    let ghost net = prop_views(props@);
    let ghost algs = string_views(a.crypto.algorithms@);
    let mut k: usize = 0;
    while k < a.crypto.algorithms.len()
        invariant
            k <= a.crypto.algorithms@.len(),
            algs == string_views(a.crypto.algorithms@),
            prop_views(props@) == net + Seq::new(
                k as nat,
                |j: int| ("crypton.crypto_algorithm"@, algs[j]),
            ),
        decreases a.crypto.algorithms.len() - k,
    {
        push_property(&mut props, "crypton.crypto_algorithm", a.crypto.algorithms[k].as_str());
        assert(Seq::new((k + 1) as nat, |j: int| ("crypton.crypto_algorithm"@, algs[j])) == Seq::new(
            k as nat,
            |j: int| ("crypton.crypto_algorithm"@, algs[j]),
        ).push(("crypton.crypto_algorithm"@, algs[k as int])));
        k = k + 1;
    }
    if a.crypto.algorithms.len() == 0 {
        push_property(
            &mut props,
            "crypton.crypto_observation",
            if a.crypto.encryption_observed {
                "encryption_observed_algorithm_unknown"
            } else {
                "not_observed"
            },
        );
    }
    props
}

fn component_with_ref(comps: &Vec<CycloneDxComponent>, r: &[char]) -> (b: bool)
    ensures
        b == has_ref(component_views(comps@), r@),
{
    let mut i: usize = 0;
    while i < comps.len()
        invariant
            i <= comps.len(),
            forall|j: int| 0 <= j < i ==> (#[trigger] comps@[j]).bom_ref@ != r@,
        decreases comps.len() - i,
    {
        let b = chars_of(comps[i].bom_ref.as_str());
        if chars_eq(&b, r) {
            assert(component_views(comps@)[i as int].bom_ref == r@);
            return true;
        }
        i = i + 1;
    }
    proof {
        if has_ref(component_views(comps@), r@) {
            let j = choose|j: int|
                0 <= j < comps@.len() && (#[trigger] component_views(comps@)[j]).bom_ref == r@;
            assert(comps@[j].bom_ref@ == r@);
        }
    }
    false
}

/// Exports the assets of a report as CycloneDX, with the given metadata timestamp.
pub fn export_cyclonedx_at(report: &ScanReport, kind: CycloneDxKind, timestamp: String) -> (b: CycloneDxBom)
    ensures
        bom_header_ok(b),
        b.metadata.timestamp == timestamp,
        prop_views(b.metadata.properties@) == metadata_properties(kind, report.scan_id@),
        component_views(b.components@) == bom_content(report.assets@, kind).components,
        dependency_views(b.dependencies@) == bom_content(report.assets@, kind).dependencies,
{
    let include_crypto = match kind {
        CycloneDxKind::Cbom | CycloneDxKind::Combined => true,
        CycloneDxKind::Sbom => false,
    };
    let include_software = match kind {
        CycloneDxKind::Sbom | CycloneDxKind::Combined => true,
        CycloneDxKind::Cbom => false,
    };
    let mut components: Vec<CycloneDxComponent> = Vec::new();
    let mut dependencies: Vec<CycloneDxDependency> = Vec::new();
    let ghost assets = report.assets@;
    let mut i: usize = 0;
    while i < report.assets.len()
        invariant
            i <= report.assets@.len(),
            assets == report.assets@,
            include_crypto == includes_crypto(kind),
            include_software == includes_software(kind),
            component_views(components@) == bom_content(assets.take(i as int), kind).components,
            dependency_views(dependencies@) == bom_content(assets.take(i as int), kind).dependencies,
        decreases report.assets.len() - i,
    {
        let a = &report.assets[i];
        proof {
            assert(assets.take(i + 1).drop_last() == assets.take(i as int));
            assert(assets.take(i + 1).last() == *a);
        }
        let ghost prev_c = component_views(components@);
        let ghost prev_d = dependency_views(dependencies@);
        let protocol = chars_of(a.protocol.as_str());
        let software = a.port == 0 || chars_eq_str(&protocol, "component");
        let network = a.port != 0;
        let has_crypto = a.crypto.algorithms.len() != 0;
        let carried = (software && (include_software || (include_crypto && has_crypto))) || (
        network && include_crypto);
        if carried {
            let reference = asset_ref(a.id.as_str());
            let props = build_asset_properties(a);
            let id = chars_of(a.id.as_str());
            let version = if network {
                String::from_str("runtime-observed")
            } else {
                let seg = last_segment_exec(&id);
                string_from_chars(&seg)
            };
            let name = if network {
                a.service.clone()
            } else {
                a.host.clone()
            };
            components.push(
                CycloneDxComponent {
                    component_type: String::from_str("library"),
                    name,
                    version,
                    bom_ref: reference.clone(),
                    purl: None,
                    properties: props,
                },
            );
            let ghost comps0 = prev_c.push(asset_component(*a));
            assert(component_views(components@) == comps0);
            if include_crypto {
                let ghost algs = string_views(a.crypto.algorithms@);
                let mut depends_on: Vec<String> = Vec::new();
                let mut k: usize = 0;
                while k < a.crypto.algorithms.len()
                    invariant
                        k <= a.crypto.algorithms@.len(),
                        algs == string_views(a.crypto.algorithms@),
                        ({
                            let (cs, refs) = add_algorithms(
                                comps0,
                                algs.take(k as int),
                                a.crypto.evidence@,
                            );
                            &&& component_views(components@) == cs
                            &&& string_views(depends_on@) == refs
                        }),
                    decreases a.crypto.algorithms.len() - k,
                {
                    proof {
                        assert(algs.take(k + 1).drop_last() == algs.take(k as int));
                        assert(algs.take(k + 1).last() == algs[k as int]);
                    }
                    let algorithm = a.crypto.algorithms[k].as_str();
                    let aref = algorithm_ref(algorithm);
                    let aref_chars = chars_of(aref.as_str());
                    if !component_with_ref(&components, &aref_chars) {
                        let ghost before = component_views(components@);
                        let mut aprops: Vec<CycloneDxProperty> = Vec::new();
                        push_property(&mut aprops, "crypton.asset_type", "cryptographic_algorithm");
                        push_property(&mut aprops, "crypton.algorithm", algorithm);
                        push_property(&mut aprops, "crypton.evidence_source", a.crypto.evidence.as_str());
                        assert(prop_views(aprops@) == seq![
                            ("crypton.asset_type"@, "cryptographic_algorithm"@),
                            ("crypton.algorithm"@, algs[k as int]),
                            ("crypton.evidence_source"@, a.crypto.evidence@),
                        ]);
                        components.push(
                            CycloneDxComponent {
                                component_type: String::from_str("library"),
                                name: String::from_str(algorithm),
                                version: String::from_str("observed"),
                                bom_ref: aref.clone(),
                                purl: None,
                                properties: aprops,
                            },
                        );
                        assert(component_views(components@) == before.push(
                            algorithm_component(algs[k as int], a.crypto.evidence@),
                        ));
                    }
                    let ghost dbefore = string_views(depends_on@);
                    depends_on.push(aref);
                    assert(string_views(depends_on@) == dbefore.push(algorithm_ref_text(algs[k as int])));
                    k = k + 1;
                }
                assert(algs.take(k as int) == algs);
                if depends_on.len() > 0 {
                    let ghost dv = string_views(depends_on@);
                    dependencies.push(CycloneDxDependency { ref_: reference, depends_on });
                    assert(dependency_views(dependencies@) == prev_d.push(
                        DependencySpec { ref_: asset_ref_text(a.id@), depends_on: dv },
                    ));
                }
            }
        }
        i = i + 1;
    }
    assert(assets.take(i as int) == assets);
    let label = match kind {
        CycloneDxKind::Sbom => "sbom",
        CycloneDxKind::Cbom => "cbom",
        CycloneDxKind::Combined => "combined",
    };
    let mut tools: Vec<CycloneDxTool> = Vec::new();
    tools.push(
        CycloneDxTool {
            vendor: String::from_str("Crypton"),
            name: String::from_str("Crypton Sweep"),
            version: String::from_str("0.1.0"),
        },
    );
    let mut properties: Vec<CycloneDxProperty> = Vec::new();
    push_property(&mut properties, "crypton.bom_kind", label);
    push_property(&mut properties, "crypton.source_report", report.scan_id.as_str());
    push_property(&mut properties, "crypton.evidence_model", "network_and_software_inventory");
    CycloneDxBom {
        bom_format: String::from_str("CycloneDX"),
        spec_version: String::from_str("1.5"),
        version: 1,
        metadata: CycloneDxMetadata { timestamp, tools, properties },
        components,
        dependencies,
    }
}

/// Exports the assets of a report as CycloneDX, stamped with the current time;
/// fails only where the clock reads a date that cannot be recorded.
pub fn export_cyclonedx(report: &ScanReport, kind: CycloneDxKind) -> (r: Result<CycloneDxBom, ClockError>)
    ensures
        r matches Ok(b) ==> {
            &&& bom_header_ok(b)
            &&& prop_views(b.metadata.properties@) == metadata_properties(kind, report.scan_id@)
            &&& component_views(b.components@) == bom_content(report.assets@, kind).components
            &&& dependency_views(b.dependencies@) == bom_content(report.assets@, kind).dependencies
        },
{
    match utc_now() {
        Some(now) => Ok(export_cyclonedx_at(report, kind, now.rfc3339)),
        None => Err(ClockError::OutOfRange),
    }
}

/// The value of the first `crypton.bom_kind` property, or `combined` without one.
pub open spec fn bom_kind_of(props: Seq<PropSpec>) -> Seq<char>
    decreases props.len(),
{
    if props.len() == 0 {
        "combined"@
    } else if props[0].0 == "crypton.bom_kind"@ {
        props[0].1
    } else {
        bom_kind_of(props.drop_first())
    }
}

/// The kind a BOM declares in its metadata.
pub fn bom_kind_label(bom: &CycloneDxBom) -> (r: &str)
    ensures
        r@ == bom_kind_of(prop_views(bom.metadata.properties@)),
{
    let props = &bom.metadata.properties;
    let ghost pv = prop_views(props@);
    let mut i: usize = 0;
    assert(pv.skip(0) == pv);
    while i < props.len()
        invariant
            i <= props@.len(),
            pv == prop_views(props@),
            pv == prop_views(bom.metadata.properties@),
            bom_kind_of(pv) == bom_kind_of(pv.skip(i as int)),
        decreases props.len() - i,
    {
        let name = chars_of(props[i].name.as_str());
        proof {
            assert(pv.skip(i as int)[0] == pv[i as int]);
            assert(pv.skip(i as int).drop_first() == pv.skip(i + 1));
        }
        if chars_eq_str(&name, "crypton.bom_kind") {
            return props[i].value.as_str();
        }
        i = i + 1;
    }
    assert(pv.skip(i as int).len() == 0);
    "combined"
}

/// The label read back from an exported BOM is the kind it was exported as.
pub proof fn lemma_export_declares_kind(kind: CycloneDxKind, scan_id: Seq<char>)
    ensures
        bom_kind_of(metadata_properties(kind, scan_id)) == kind_label(kind),
{
    reveal_strlit("crypton.bom_kind");
}

/// Every reference that a dependency entry names (the dependent and each thing it
/// depends on) is the reference of a component of the same BOM.
pub open spec fn references_resolve(b: BomSpec) -> bool {
    forall|i: int|
        0 <= i < b.dependencies.len() ==> {
            let d = #[trigger] b.dependencies[i];
            &&& has_ref(b.components, d.ref_)
            &&& forall|k: int|
                0 <= k < d.depends_on.len() ==> has_ref(b.components, #[trigger] d.depends_on[k])
        }
}

/// A reference in the algorithm namespace.
pub open spec fn is_algorithm_ref(r: Seq<char>) -> bool {
    r.len() >= 18 && r.take(18) == "crypton:algorithm:"@
}

/// No algorithm component's reference occurs on an earlier component.
pub open spec fn algorithms_listed_once(comps: Seq<ComponentSpec>) -> bool {
    forall|i: int, j: int|
        0 <= i < j < comps.len() && is_algorithm_ref(comps[j].bom_ref) ==> #[trigger] comps[i].bom_ref
            != #[trigger] comps[j].bom_ref
}

proof fn lemma_has_ref_extends(comps: Seq<ComponentSpec>, more: Seq<ComponentSpec>, r: Seq<char>)
    requires
        has_ref(comps, r),
        more.len() >= comps.len(),
        forall|i: int| 0 <= i < comps.len() ==> more[i] == comps[i],
    ensures
        has_ref(more, r),
{
    let i = choose|i: int| 0 <= i < comps.len() && (#[trigger] comps[i]).bom_ref == r;
    assert(more[i] == comps[i]);
}

proof fn lemma_add_algorithms_facts(comps: Seq<ComponentSpec>, algs: Seq<Seq<char>>, evidence: Seq<char>)
    ensures
        ({
            let (cs, refs) = add_algorithms(comps, algs, evidence);
            &&& cs.len() >= comps.len()
            &&& forall|i: int| 0 <= i < comps.len() ==> cs[i] == comps[i]
            &&& forall|k: int| 0 <= k < refs.len() ==> has_ref(cs, #[trigger] refs[k])
            &&& algorithms_listed_once(comps) ==> algorithms_listed_once(cs)
        }),
    decreases algs.len(),
{
    if algs.len() > 0 {
        lemma_add_algorithms_facts(comps, algs.drop_last(), evidence);
        let (cs0, refs0) = add_algorithms(comps, algs.drop_last(), evidence);
        let (cs, refs) = add_algorithms(comps, algs, evidence);
        let r = algorithm_ref_text(algs.last());
        if !has_ref(cs0, r) {
            assert(cs[cs0.len() as int].bom_ref == r);
            assert forall|k: int| 0 <= k < refs0.len() implies has_ref(cs, #[trigger] refs0[k]) by {
                lemma_has_ref_extends(cs0, cs, refs0[k]);
            }
            if algorithms_listed_once(cs0) {
                assert forall|i: int, j: int|
                    0 <= i < j < cs.len() && is_algorithm_ref(cs[j].bom_ref) implies #[trigger] cs[i].bom_ref
                        != #[trigger] cs[j].bom_ref by {
                    if j == cs0.len() {
                        assert(cs[i] == cs0[i]);
                    } else {
                        assert(cs[i] == cs0[i] && cs[j] == cs0[j]);
                    }
                }
            }
        }
        assert forall|k: int| 0 <= k < refs.len() implies has_ref(cs, #[trigger] refs[k]) by {
            if k < refs0.len() {
                assert(refs[k] == refs0[k]);
            } else {
                assert(refs[k] == r);
            }
        }
    }
}

proof fn lemma_asset_ref_not_algorithm(id: Seq<char>)
    ensures
        !is_algorithm_ref(asset_ref_text(id)),
{
    reveal_strlit("crypton:asset:");
    reveal_strlit("crypton:algorithm:");
    let r = asset_ref_text(id);
    if r.len() >= 18 && r.take(18) == "crypton:algorithm:"@ {
        assert(r.take(18)[9] == r[9]);
    }
}

proof fn lemma_bom_step_facts(b: BomSpec, a: Asset, kind: CycloneDxKind)
    ensures
        references_resolve(b) ==> references_resolve(bom_step(b, a, kind)),
        algorithms_listed_once(b.components) ==> algorithms_listed_once(bom_step(b, a, kind).components),
{
    if bom_includes(a, kind) {
        let comps = b.components.push(asset_component(a));
        let n = b.components.len() as int;
        let next = bom_step(b, a, kind);
        lemma_asset_ref_not_algorithm(a.id@);
        if algorithms_listed_once(b.components) {
            assert forall|i: int, j: int|
                0 <= i < j < comps.len() && is_algorithm_ref(comps[j].bom_ref) implies #[trigger] comps[i].bom_ref
                    != #[trigger] comps[j].bom_ref by {
                assert(j != n);
                assert(comps[i] == b.components[i] && comps[j] == b.components[j]);
            }
        }
        let algs = string_views(a.crypto.algorithms@);
        let ev = a.crypto.evidence@;
        lemma_add_algorithms_facts(comps, algs, ev);
        let cs = next.components;
        if references_resolve(b) {
            assert forall|i: int| 0 <= i < next.dependencies.len() implies {
                let d = #[trigger] next.dependencies[i];
                &&& has_ref(next.components, d.ref_)
                &&& forall|k: int|
                    0 <= k < d.depends_on.len() ==> has_ref(next.components, #[trigger] d.depends_on[k])
            } by {
                let d = next.dependencies[i];
                if i < b.dependencies.len() {
                    assert(d == b.dependencies[i]);
                    lemma_has_ref_extends(b.components, comps, d.ref_);
                    lemma_has_ref_extends(comps, cs, d.ref_);
                    assert forall|k: int| 0 <= k < d.depends_on.len() implies has_ref(
                        next.components,
                        #[trigger] d.depends_on[k],
                    ) by {
                        lemma_has_ref_extends(b.components, comps, d.depends_on[k]);
                        lemma_has_ref_extends(comps, cs, d.depends_on[k]);
                    }
                } else {
                    assert(comps[n].bom_ref == asset_ref_text(a.id@));
                    assert(has_ref(comps, asset_ref_text(a.id@)));
                    lemma_has_ref_extends(comps, cs, asset_ref_text(a.id@));
                }
            }
        }
    }
}

/// The dependency list of a BOM refers only to its own components, and each
/// algorithm component occurs once, whatever the assets and the kind.
pub proof fn lemma_bom_is_well_formed(assets: Seq<Asset>, kind: CycloneDxKind)
    ensures
        references_resolve(bom_content(assets, kind)),
        algorithms_listed_once(bom_content(assets, kind).components),
    decreases assets.len(),
{
    if assets.len() > 0 {
        lemma_bom_is_well_formed(assets.drop_last(), kind);
        lemma_bom_step_facts(bom_content(assets.drop_last(), kind), assets.last(), kind);
    }
}

/// An SBOM carries no dependencies: only a BOM with cryptography links components.
pub proof fn lemma_sbom_has_no_dependencies(assets: Seq<Asset>)
    ensures
        bom_content(assets, CycloneDxKind::Sbom).dependencies.len() == 0,
    decreases assets.len(),
{
    if assets.len() > 0 {
        lemma_sbom_has_no_dependencies(assets.drop_last());
    }
}

proof fn lemma_add_algorithms_refs(comps: Seq<ComponentSpec>, algs: Seq<Seq<char>>, evidence: Seq<char>)
    ensures
        add_algorithms(comps, algs, evidence).1 == Seq::new(
            algs.len(),
            |k: int| algorithm_ref_text(algs[k]),
        ),
    decreases algs.len(),
{
    if algs.len() > 0 {
        lemma_add_algorithms_refs(comps, algs.drop_last(), evidence);
        assert(Seq::new((algs.len() - 1) as nat, |k: int| algorithm_ref_text(algs.drop_last()[k])).push(
            algorithm_ref_text(algs.last()),
        ) =~= Seq::new(algs.len(), |k: int| algorithm_ref_text(algs[k])));
    }
}

proof fn lemma_bom_step_extends(b: BomSpec, a: Asset, kind: CycloneDxKind)
    ensures
        bom_step(b, a, kind).components.len() >= b.components.len(),
        forall|j: int|
            0 <= j < b.components.len() ==> #[trigger] bom_step(b, a, kind).components[j]
                == b.components[j],
        bom_step(b, a, kind).dependencies.len() >= b.dependencies.len(),
        forall|j: int|
            0 <= j < b.dependencies.len() ==> #[trigger] bom_step(b, a, kind).dependencies[j]
                == b.dependencies[j],
{
    if bom_includes(a, kind) {
        let comps = b.components.push(asset_component(a));
        lemma_add_algorithms_facts(comps, string_views(a.crypto.algorithms@), a.crypto.evidence@);
        let next = bom_step(b, a, kind);
        assert forall|j: int| 0 <= j < b.components.len() implies #[trigger] next.components[j]
            == b.components[j] by {
            assert(comps[j] == b.components[j]);
        }
    }
}

/// A BOM with cryptography (CBOM or combined) carries every asset with
/// cryptographic evidence: each network service, and each software component
/// (port 0) that names an algorithm, appears as the component
/// `crypton:asset:<id>`, each of its algorithms as a component
/// `crypton:algorithm:<name>`, and, when it names algorithms, a dependency from the
/// asset to those algorithms in order.
pub proof fn lemma_crypto_bom_covers_evidence(assets: Seq<Asset>, kind: CycloneDxKind, i: int)
    requires
        kind is Cbom || kind is Combined,
        0 <= i < assets.len(),
        assets[i].port != 0 || assets[i].crypto.algorithms@.len() > 0,
    ensures
        ({
            let b = bom_content(assets, kind);
            let a = assets[i];
            let algs = string_views(a.crypto.algorithms@);
            &&& has_ref(b.components, "crypton:asset:"@ + a.id@)
            &&& forall|k: int| 0 <= k < algs.len() ==> has_ref(b.components, "crypton:algorithm:"@ + #[trigger] algs[k])
            &&& algs.len() > 0 ==> exists|j: int|
                0 <= j < b.dependencies.len() && #[trigger] b.dependencies[j] == (DependencySpec {
                    ref_: "crypton:asset:"@ + a.id@,
                    depends_on: Seq::new(algs.len(), |k: int| "crypton:algorithm:"@ + algs[k]),
                })
        }),
    decreases assets.len(),
{
    let prev = assets.drop_last();
    let pb = bom_content(prev, kind);
    let b = bom_content(assets, kind);
    let a = assets[i];
    let algs = string_views(a.crypto.algorithms@);
    lemma_bom_step_extends(pb, assets.last(), kind);
    if i < assets.len() - 1 {
        lemma_crypto_bom_covers_evidence(prev, kind, i);
        assert(prev[i] == a);
        lemma_has_ref_extends(pb.components, b.components, "crypton:asset:"@ + a.id@);
        assert forall|k: int| 0 <= k < algs.len() implies has_ref(b.components, "crypton:algorithm:"@ + #[trigger] algs[k]) by {
            lemma_has_ref_extends(pb.components, b.components, "crypton:algorithm:"@ + algs[k]);
        }
        if algs.len() > 0 {
            let j = choose|j: int|
                0 <= j < pb.dependencies.len() && #[trigger] pb.dependencies[j] == (DependencySpec {
                    ref_: "crypton:asset:"@ + a.id@,
                    depends_on: Seq::new(algs.len(), |k: int| "crypton:algorithm:"@ + algs[k]),
                });
            assert(b.dependencies[j] == pb.dependencies[j]);
        }
    } else {
        assert(a == assets.last());
        assert(bom_includes(a, kind));
        let comps = pb.components.push(asset_component(a));
        lemma_add_algorithms_facts(comps, algs, a.crypto.evidence@);
        lemma_add_algorithms_refs(comps, algs, a.crypto.evidence@);
        let (cs, refs) = add_algorithms(comps, algs, a.crypto.evidence@);
        assert(b.components == cs);
        assert(comps[pb.components.len() as int].bom_ref == "crypton:asset:"@ + a.id@);
        assert(cs[pb.components.len() as int] == comps[pb.components.len() as int]);
        assert forall|k: int| 0 <= k < algs.len() implies has_ref(b.components, "crypton:algorithm:"@ + #[trigger] algs[k]) by {
            assert(refs[k] == algorithm_ref_text(algs[k]));
        }
        if algs.len() > 0 {
            assert(refs =~= Seq::new(algs.len(), |k: int| "crypton:algorithm:"@ + algs[k]));
            assert(b.dependencies[pb.dependencies.len() as int] == (DependencySpec {
                ref_: "crypton:asset:"@ + a.id@,
                depends_on: Seq::new(algs.len(), |k: int| "crypton:algorithm:"@ + algs[k]),
            }));
        }
    }
}

} // verus!
