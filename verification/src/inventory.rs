//! Reading a CycloneDX document into a software-component inventory report.
use vstd::prelude::*;
use crate::assess::{assess, finding_views, recommendation, risk_findings, risk_level, risk_score};
use crate::report::{
    all_relationships, relationship_views, summary_matches, Asset, Collection, ProbeEvidence,
    ScanReport, ServiceDetection,
};
use crate::scan::{finalize_report, opt_view, probe_is, report_header_ok, utc_now, ClockError};
use crate::signals::{crypto_from_component, inventory_crypto, lowercase};
use crate::text::{chars_of, push_str, string_from_chars, string_views};

verus! {

#[verifier::external_type_specification]
#[verifier::external_body]
pub struct ExJsonValue(serde_json::Value);

#[verifier::external_type_specification]
#[verifier::external_body]
pub struct ExJsonError(serde_json::Error);

/// Whether `serde_json::from_slice::<Value>` accepts the bytes as one JSON value.
pub uninterp spec fn json_accepts(bytes: Seq<u8>) -> bool;

/// One element of a top-level `components` array: its `name` and `version`
/// where they are strings, and its compact JSON text.
#[derive(Debug)]
pub struct JsonComponent {
    pub name: Option<String>,
    pub version: Option<String>,
    pub json_text: String,
}

/// The fields of a JSON document that an inventory reads: `bomFormat` where it
/// is a string, and the elements of `components` where it is an array.
#[derive(Debug)]
pub struct JsonFields {
    pub bom_format: Option<String>,
    pub components: Option<Vec<JsonComponent>>,
}

/// A component's fields as character sequences: name, version, JSON text.
pub open spec fn component_fields(c: JsonComponent) -> (Option<Seq<char>>, Option<Seq<char>>, Seq<char>) {
    (opt_view(c.name), opt_view(c.version), c.json_text@)
}

impl View for JsonFields {
    type V = (Option<Seq<char>>, Option<Seq<(Option<Seq<char>>, Option<Seq<char>>, Seq<char>)>>);

    open spec fn view(&self) -> Self::V {
        (
            opt_view(self.bom_format),
            match self.components {
                Some(v) => Some(Seq::new(v@.len(), |i: int| component_fields(v@[i]))),
                None => None,
            },
        )
    }
}

/// What a JSON document's bytes hold for an inventory: `bomFormat` where it is a
/// string, and for each element of a `components` array (where it is one) its
/// `name` and `version` where they are strings and its compact JSON text.
pub uninterp spec fn json_fields(bytes: Seq<u8>) -> (
    Option<Seq<char>>,
    Option<Seq<(Option<Seq<char>>, Option<Seq<char>>, Seq<char>)>>,
);

/// `serde_json::from_slice::<Value>`, then `Value::get` with `Value::as_str` for
/// `bomFormat`, `Value::as_array` for `components`, and for each element its
/// `name` and `version` strings and its `Display` text (compact JSON, as
/// `serde_json::to_string` writes it): succeeds exactly when `json_accepts` holds
/// of the bytes, and the fields are `json_fields` of the bytes.
#[verifier::external_body]
fn read_json_fields(bytes: &[u8]) -> (r: Result<JsonFields, serde_json::Error>)
    ensures
        r is Ok <==> json_accepts(bytes@),
        r matches Ok(f) ==> f@ == json_fields(bytes@),
{
    let v: serde_json::Value = serde_json::from_slice(bytes)?;
    let text = |x: &serde_json::Value, k: &str| x.get(k).and_then(serde_json::Value::as_str).map(String::from);
    let components = v.get("components").and_then(serde_json::Value::as_array).map(|items| {
        items.iter().map(|c| JsonComponent {
            name: text(c, "name"),
            version: text(c, "version"),
            json_text: c.to_string(),
        }).collect()
    });
    Ok(JsonFields { bom_format: text(&v, "bomFormat"), components })
}

/// Why a document yields no inventory.
#[derive(Debug)]
pub enum InventoryError {
    /// The bytes are not JSON.
    InvalidJson(serde_json::Error),
    /// `bomFormat` is not `CycloneDX` (in any ASCII case).
    UnsupportedFormat,
    /// The system clock reads a date that cannot be recorded.
    Clock(ClockError),
}

impl InventoryError {
    /// The text that the command line shows for this error about the file `path`.
    pub fn message(&self, path: &str) -> (s: String)
        ensures
            match self {
                InventoryError::InvalidJson(_) => s@ == "invalid CycloneDX JSON "@ + path@,
                InventoryError::UnsupportedFormat => s@ == "unsupported inventory format in "@
                    + path@ + "; expected CycloneDX JSON with bomFormat=CycloneDX"@,
                InventoryError::Clock(_) => s@ == "the system clock reads a date that cannot be recorded"@,
            },
    {
        let mut v: Vec<char> = Vec::new();
        match self {
            InventoryError::InvalidJson(_) => {
                push_str(&mut v, "invalid CycloneDX JSON ");
                push_str(&mut v, path);
            },
            InventoryError::UnsupportedFormat => {
                push_str(&mut v, "unsupported inventory format in ");
                push_str(&mut v, path);
                push_str(&mut v, "; expected CycloneDX JSON with bomFormat=CycloneDX");
            },
            InventoryError::Clock(e) => {
                return e.message();
            },
        }
        string_from_chars(&v)
    }
}

/// ASCII lower-casing of one character, as a code point.
pub open spec fn ascii_lower(c: char) -> u32 {
    if 'A' <= c && c <= 'Z' {
        (c as u32 + 32) as u32
    } else {
        c as u32
    }
}

/// `str::eq_ignore_ascii_case`.
pub open spec fn eq_ignore_ascii_case(a: Seq<char>, b: Seq<char>) -> bool {
    a.len() == b.len() && forall|i: int| 0 <= i < a.len() ==> ascii_lower(#[trigger] a[i])
        == ascii_lower(b[i])
}

fn ascii_lower_exec(c: char) -> (r: u32)
    ensures
        r == ascii_lower(c),
{
    let n = c as u32;
    if 'A' <= c && c <= 'Z' {
        n + 32
    } else {
        n
    }
}

/// Whether `format` names CycloneDX, ignoring ASCII case.
pub fn is_cyclonedx_format(format: &str) -> (b: bool)
    ensures
        b == eq_ignore_ascii_case(format@, "CycloneDX"@),
{
    let a = chars_of(format);
    let b = chars_of("CycloneDX");
    if a.len() != b.len() {
        return false;
    }
    let mut i: usize = 0;
    while i < a.len()
        invariant
            i <= a.len(),
            a@ == format@,
            b@ == "CycloneDX"@,
            a@.len() == b@.len(),
            forall|j: int| 0 <= j < i ==> ascii_lower(#[trigger] a@[j]) == ascii_lower(b@[j]),
        decreases a.len() - i,
    {
        if ascii_lower_exec(a[i]) != ascii_lower_exec(b[i]) {
            assert(ascii_lower(a@[i as int]) != ascii_lower(b@[i as int]));
            return false;
        }
        i = i + 1;
    }
    true
}

/// The record of a software component named `name` at `version`, whose JSON
/// text is `json_text`.
pub open spec fn is_component_asset(a: Asset, name: Seq<char>, version: Seq<char>, json_text: Seq<char>) -> bool {
    &&& a.id@ == "component:"@ + name + ":"@ + version
    &&& a.host@ == name
    &&& a.port == 0
    &&& a.service@ == "software component"@
    &&& a.protocol@ == "component"@
    &&& a.reachable
    &&& probe_is(a.connection, false, "not_applicable"@, None, None)
    &&& probe_is(a.tls_probe, false, "not_applicable"@, None, None)
    &&& a.service_detection.name@ == "software component"@
    &&& a.service_detection.method@ == "cyclonedx_component"@
    &&& a.service_detection.confidence@ == "inventory"@
    &&& !a.service_detection.banner_observed
    &&& a.tls is None
    &&& a.crypto@ == inventory_crypto(lowercase(json_text))
    &&& a.risk.score as nat == risk_score(a.crypto.quantum_vulnerable, a.crypto.pqc_supported, false, 0)
    &&& a.risk.level@ == risk_level(a.risk.score as nat)
    &&& finding_views(a.findings@) == risk_findings(
        a.crypto.quantum_vulnerable,
        a.crypto.pqc_supported,
        false,
        0,
    )
    &&& a.recommendation@ == recommendation(a.crypto.quantum_vulnerable, a.crypto.pqc_supported, false, 0)
}

fn not_applicable() -> (p: ProbeEvidence)
    ensures
        probe_is(p, false, "not_applicable"@, None, None),
{
    ProbeEvidence { attempted: false, outcome: String::from_str("not_applicable"), tool: None, error: None }
}

/// The record of one software component.
pub fn component_asset(name: &str, version: &str, json_text: &str) -> (a: Asset)
    ensures
        is_component_asset(a, name@, version@, json_text@),
{
    let crypto = crypto_from_component(json_text);
    let (risk, findings, rec) = assess(&crypto, None, 0);
    let mut id: Vec<char> = Vec::new();
    push_str(&mut id, "component:");
    push_str(&mut id, name);
    push_str(&mut id, ":");
    push_str(&mut id, version);
    Asset {
        id: string_from_chars(&id),
        host: String::from_str(name),
        port: 0,
        service: String::from_str("software component"),
        protocol: String::from_str("component"),
        reachable: true,
        connection: not_applicable(),
        tls_probe: not_applicable(),
        service_detection: ServiceDetection {
            name: String::from_str("software component"),
            method: String::from_str("cyclonedx_component"),
            confidence: String::from_str("inventory"),
            banner_observed: false,
        },
        tls: None,
        crypto,
        risk,
        findings,
        recommendation: rec,
    }
}

/// Each asset is the record of the component with the given name, version and
/// JSON text.
pub open spec fn components_described(
    assets: Seq<Asset>,
    names: Seq<Seq<char>>,
    versions: Seq<Seq<char>>,
    texts: Seq<Seq<char>>,
) -> bool {
    &&& names.len() == assets.len()
    &&& versions.len() == assets.len()
    &&& texts.len() == assets.len()
    &&& forall|i: int|
        0 <= i < assets.len() ==> is_component_asset(#[trigger] assets[i], names[i], versions[i], texts[i])
}

/// How an inventory report collected its evidence.
pub open spec fn is_inventory_collection(c: Collection) -> bool {
    &&& c.method@ == "CycloneDX component inventory"@
    &&& c.port_spec@ == "not_applicable"@
    &&& c.attempted_ports@.len() == 0
    &&& c.attempted_port_count == 0
    &&& c.reachable_port_count == 0
    &&& c.worker_count == 0
    &&& c.timeout_ms is None
    &&& !c.tls_probe_requested
    &&& c.tls_probe_timeout_ms == 0
    &&& string_views(c.limitations@) == seq![
        "Software inventory signals do not prove runtime negotiation."@,
        "Validate deployed endpoints with an active or authenticated collection method."@,
    ]
}

/// The collection record of an inventory.
pub fn inventory_collection() -> (c: Collection)
    ensures
        is_inventory_collection(c),
{
    let mut limitations: Vec<String> = Vec::new();
    limitations.push(String::from_str("Software inventory signals do not prove runtime negotiation."));
    limitations.push(
        String::from_str("Validate deployed endpoints with an active or authenticated collection method."),
    );
    assert(string_views(limitations@) == seq![
        "Software inventory signals do not prove runtime negotiation."@,
        "Validate deployed endpoints with an active or authenticated collection method."@,
    ]);
    Collection {
        method: String::from_str("CycloneDX component inventory"),
        port_spec: String::from_str("not_applicable"),
        attempted_ports: Vec::new(),
        attempted_port_count: 0,
        reachable_port_count: 0,
        worker_count: 0,
        timeout_ms: None,
        tls_probe_requested: false,
        tls_probe_timeout_ms: 0,
        limitations,
    }
}

/// One top-level component of a CycloneDX document: its `name` and `version`
/// (`unknown` where absent or not a string) and its JSON text.
#[derive(Debug)]
pub struct ComponentEntry {
    pub name: String,
    pub version: String,
    pub json_text: String,
}

pub open spec fn entry_names(v: Seq<ComponentEntry>) -> Seq<Seq<char>> {
    Seq::new(v.len(), |i: int| v[i].name@)
}

pub open spec fn entry_versions(v: Seq<ComponentEntry>) -> Seq<Seq<char>> {
    Seq::new(v.len(), |i: int| v[i].version@)
}

pub open spec fn entry_texts(v: Seq<ComponentEntry>) -> Seq<Seq<char>> {
    Seq::new(v.len(), |i: int| v[i].json_text@)
}

/// What an inventory report holds for components with the given names, versions
/// and JSON texts: the fixed header, scope and collection, one component asset
/// per component in order, the asset ids as targets, and the summary and
/// relationships of those assets.
pub open spec fn inventory_holds(
    rep: ScanReport,
    names: Seq<Seq<char>>,
    versions: Seq<Seq<char>>,
    texts: Seq<Seq<char>>,
) -> bool {
    &&& report_header_ok(rep)
    &&& rep.scope.mode@ == "cyclonedx"@
    &&& rep.scope.authorized
    &&& is_inventory_collection(rep.collection)
    &&& rep.scope.targets@.len() == rep.assets@.len()
    &&& forall|i: int|
        0 <= i < rep.assets@.len() ==> (#[trigger] rep.scope.targets@[i])@ == rep.assets@[i].id@
    &&& components_described(rep.assets@, names, versions, texts)
    &&& summary_matches(rep.summary, rep.assets@)
    &&& relationship_views(rep.relationships@) == all_relationships(rep.assets@)
}

/// What an inventory report holds for the given component entries.
pub open spec fn is_inventory_of(rep: ScanReport, entries: Seq<ComponentEntry>) -> bool {
    inventory_holds(rep, entry_names(entries), entry_versions(entries), entry_texts(entries))
}

/// Builds the inventory report of a document whose `bomFormat` is `bom_format`
/// (empty when absent) and whose top-level components are `entries`; besides a
/// format other than CycloneDX, it fails only where the clock reads a date that
/// cannot be recorded.
pub fn inventory_report(bom_format: &str, entries: Vec<ComponentEntry>) -> (r: Result<
    ScanReport,
    InventoryError,
>)
    ensures
        match r {
            Ok(rep) => eq_ignore_ascii_case(bom_format@, "CycloneDX"@) && is_inventory_of(rep, entries@),
            Err(e) => (!eq_ignore_ascii_case(bom_format@, "CycloneDX"@) && e is UnsupportedFormat) || (
            eq_ignore_ascii_case(bom_format@, "CycloneDX"@) && e is Clock),
        },
{
    if !is_cyclonedx_format(bom_format) {
        return Err(InventoryError::UnsupportedFormat);
    }
    let mut assets: Vec<Asset> = Vec::new();
    let mut targets: Vec<String> = Vec::new();
    let mut i: usize = 0;
    while i < entries.len()
        invariant
            i <= entries@.len(),
            targets@.len() == i,
            assets@.len() == i,
            forall|k: int| 0 <= k < i ==> (#[trigger] targets@[k])@ == assets@[k].id@,
            forall|k: int|
                0 <= k < i ==> is_component_asset(
                    #[trigger] assets@[k],
                    entries@[k].name@,
                    entries@[k].version@,
                    entries@[k].json_text@,
                ),
        decreases entries.len() - i,
    {
        let e = &entries[i];
        let asset = component_asset(e.name.as_str(), e.version.as_str(), e.json_text.as_str());
        targets.push(asset.id.clone());
        assets.push(asset);
        i = i + 1;
    }
    let started_at = match utc_now() {
        Some(now) => now.rfc3339,
        None => {
            return Err(InventoryError::Clock(ClockError::OutOfRange));
        },
    };
    let ghost tv = targets@;
    let ghost av = assets@;
    let report = match finalize_report(
        "cyclonedx",
        true,
        targets,
        assets,
        inventory_collection(),
        started_at,
    ) {
        Ok(rep) => rep,
        Err(e) => {
            return Err(InventoryError::Clock(e));
        },
    };
    assert(report.scope.targets@ == tv);
    assert(report.assets@ == av);
    assert(components_described(
        report.assets@,
        entry_names(entries@),
        entry_versions(entries@),
        entry_texts(entries@),
    ));
    Ok(report)
}

/// A text, or `unknown` where there is none.
pub open spec fn or_unknown(o: Option<Seq<char>>) -> Seq<char> {
    match o {
        Some(t) => t,
        None => "unknown"@,
    }
}

/// The `bomFormat` text, empty where there is none.
pub open spec fn format_or_empty(o: Option<Seq<char>>) -> Seq<char> {
    match o {
        Some(t) => t,
        None => Seq::empty(),
    }
}

/// The components of a document, none where `components` is not an array.
pub open spec fn document_components(
    o: Option<Seq<(Option<Seq<char>>, Option<Seq<char>>, Seq<char>)>>,
) -> Seq<(Option<Seq<char>>, Option<Seq<char>>, Seq<char>)> {
    match o {
        Some(cs) => cs,
        None => Seq::empty(),
    }
}

/// The component names of a document, `unknown` where one has none.
pub open spec fn document_names(cs: Seq<(Option<Seq<char>>, Option<Seq<char>>, Seq<char>)>) -> Seq<Seq<char>> {
    Seq::new(cs.len(), |i: int| or_unknown(cs[i].0))
}

/// The component versions of a document, `unknown` where one has none.
pub open spec fn document_versions(cs: Seq<(Option<Seq<char>>, Option<Seq<char>>, Seq<char>)>) -> Seq<Seq<char>> {
    Seq::new(cs.len(), |i: int| or_unknown(cs[i].1))
}

/// The component JSON texts of a document.
pub open spec fn document_texts(cs: Seq<(Option<Seq<char>>, Option<Seq<char>>, Seq<char>)>) -> Seq<Seq<char>> {
    Seq::new(cs.len(), |i: int| cs[i].2)
}

/// The string held by a field, or `unknown` when there is none.
fn str_or_unknown(v: &Option<String>) -> (s: String)
    ensures
        s@ == or_unknown(opt_view(*v)),
{
    match v {
        Some(t) => t.clone(),
        None => String::from_str("unknown"),
    }
}

/// Builds the inventory report of a CycloneDX JSON document: one software
/// component asset per top-level component, named by its `name` and `version`
/// (`unknown` when absent) and searched for algorithm names in its JSON text.
/// A CycloneDX document fails only where the clock reads a date that cannot be
/// recorded.
pub fn inventory(bytes: &[u8]) -> (r: Result<ScanReport, InventoryError>)
    ensures
        (r matches Err(InventoryError::InvalidJson(_))) <==> !json_accepts(bytes@),
        json_accepts(bytes@) ==> ((r matches Err(InventoryError::UnsupportedFormat))
            <==> !eq_ignore_ascii_case(format_or_empty(json_fields(bytes@).0), "CycloneDX"@)),
        r matches Err(InventoryError::Clock(_)) ==> json_accepts(bytes@) && eq_ignore_ascii_case(
            format_or_empty(json_fields(bytes@).0),
            "CycloneDX"@,
        ),
        r matches Ok(rep) ==> ({
            let cs = document_components(json_fields(bytes@).1);
            inventory_holds(rep, document_names(cs), document_versions(cs), document_texts(cs))
        }),
{
    let fields = match read_json_fields(bytes) {
        Ok(f) => f,
        Err(e) => {
            return Err(InventoryError::InvalidJson(e));
        },
    };
    let ghost fv = fields@;
    let ghost cs = document_components(fv.1);
    let mut entries: Vec<ComponentEntry> = Vec::new();
    match &fields.components {
        Some(components) => {
            let mut i: usize = 0;
            while i < components.len()
                invariant
                    i <= components@.len(),
                    cs == Seq::new(components@.len(), |k: int| component_fields(components@[k])),
                    entries@.len() == i,
                    forall|k: int|
                        0 <= k < i ==> {
                            &&& (#[trigger] entries@[k]).name@ == or_unknown(cs[k].0)
                            &&& entries@[k].version@ == or_unknown(cs[k].1)
                            &&& entries@[k].json_text@ == cs[k].2
                        },
                decreases components.len() - i,
            {
                let c = &components[i];
                let name = str_or_unknown(&c.name);
                let version = str_or_unknown(&c.version);
                let json_text = c.json_text.clone();
                entries.push(ComponentEntry { name, version, json_text });
                i = i + 1;
            }
            assert(entry_names(entries@) =~= document_names(cs));
            assert(entry_versions(entries@) =~= document_versions(cs));
            assert(entry_texts(entries@) =~= document_texts(cs));
        },
        None => {
            assert(entry_names(entries@) =~= document_names(cs));
            assert(entry_versions(entries@) =~= document_versions(cs));
            assert(entry_texts(entries@) =~= document_texts(cs));
        },
    }
    let format = match &fields.bom_format {
        Some(f) => f.as_str(),
        None => "",
    };
    proof {
        reveal_strlit("");
        assert(format@ == format_or_empty(fv.0));
    }
    inventory_report(format, entries)
}

} // verus!
