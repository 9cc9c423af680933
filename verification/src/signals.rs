//! Detecting algorithm names in lower-cased evidence text.
use vstd::prelude::*;
use crate::assess::{CryptoProfile, CryptoSpec, TlsObservation};
use crate::text::{chars_eq_str, chars_of, contains, contains_str, push_str, string_views};

verus! {

/// What `str::to_lowercase` returns for a text (Unicode lower-case mapping).
pub uninterp spec fn lowercase(s: Seq<char>) -> Seq<char>;

/// `str::to_lowercase`: the result is `lowercase` of the argument.
#[verifier::external_body]
fn to_lowercase(s: &str) -> (r: String)
    ensures
        r@ == lowercase(s@),
{
    s.to_lowercase()
}

/// `prev` with `name` added when `needle` occurs in `text`.
pub open spec fn add_signal(prev: Seq<Seq<char>>, text: Seq<char>, needle: Seq<char>, name: Seq<
    char,
>) -> Seq<Seq<char>> {
    if contains(text, needle) {
        prev.push(name)
    } else {
        prev
    }
}

/// The algorithms named in a lower-cased TLS handshake summary, in table order.
pub open spec fn tls_algorithms(text: Seq<char>) -> Seq<Seq<char>> {
    let a = add_signal(Seq::empty(), text, "rsa"@, "RSA"@);
    let b = add_signal(a, text, "ecdsa"@, "ECDSA"@);
    let c = add_signal(b, text, "x25519"@, "X25519"@);
    let d = add_signal(c, text, "mlkem"@, "ML-KEM"@);
    let e = add_signal(d, text, "kyber"@, "Kyber"@);
    let f = add_signal(e, text, "mldsa"@, "ML-DSA"@);
    let g = add_signal(f, text, "dilithium"@, "Dilithium"@);
    add_signal(g, text, "falcon"@, "Falcon"@)
}

/// The algorithms named in a lower-cased inventory component, in table order.
pub open spec fn inventory_algorithms(text: Seq<char>) -> Seq<Seq<char>> {
    let a = add_signal(Seq::empty(), text, "rsa"@, "RSA"@);
    let b = add_signal(a, text, "ecdsa"@, "ECDSA"@);
    let c = add_signal(b, text, "x25519"@, "X25519"@);
    let d = add_signal(c, text, "ml-kem"@, "ML-KEM"@);
    let e = add_signal(d, text, "kyber"@, "Kyber"@);
    let f = add_signal(e, text, "ml-dsa"@, "ML-DSA"@);
    let g = add_signal(f, text, "dilithium"@, "Dilithium"@);
    add_signal(g, text, "falcon"@, "Falcon"@)
}

/// Some algorithm is post-quantum.
pub open spec fn any_pqc(algs: Seq<Seq<char>>) -> bool {
    algs.contains("ML-KEM"@) || algs.contains("Kyber"@) || algs.contains("ML-DSA"@)
        || algs.contains("Dilithium"@) || algs.contains("Falcon"@)
}

/// Some algorithm is classical public-key cryptography.
pub open spec fn any_classical(algs: Seq<Seq<char>>) -> bool {
    algs.contains("RSA"@) || algs.contains("ECDSA"@) || algs.contains("X25519"@)
}

/// The profile of a network endpoint, from the lower-cased TLS summary if a
/// handshake was observed.
pub open spec fn tls_crypto(lowered: Option<Seq<char>>) -> CryptoSpec {
    let algs = match lowered {
        Some(t) => tls_algorithms(t),
        None => Seq::empty(),
    };
    CryptoSpec {
        algorithms: algs,
        key_bits: Seq::empty(),
        pqc_supported: any_pqc(algs),
        hybrid_supported: algs.contains("X25519"@) && any_pqc(algs),
        quantum_vulnerable: any_classical(algs),
        encryption_observed: lowered is Some,
        evidence: if lowered is Some {
            "tls_observation"@
        } else {
            "not_observed"@
        },
    }
}

/// The profile of a software component, from its lower-cased JSON text.
pub open spec fn inventory_crypto(lowered: Seq<char>) -> CryptoSpec {
    let algs = inventory_algorithms(lowered);
    CryptoSpec {
        algorithms: algs,
        key_bits: Seq::empty(),
        pqc_supported: any_pqc(algs),
        hybrid_supported: false,
        quantum_vulnerable: any_classical(algs),
        encryption_observed: false,
        evidence: "software_inventory"@,
    }
}

/// The text of an optional field, empty when absent.
pub open spec fn opt_text(o: Option<String>) -> Seq<char> {
    match o {
        Some(s) => s@,
        None => Seq::empty(),
    }
}

/// The handshake summary searched for signals: cipher, key exchange and signature
/// algorithm, separated by spaces.
pub open spec fn tls_summary(t: TlsObservation) -> Seq<char> {
    opt_text(t.cipher) + " "@ + opt_text(t.key_exchange) + " "@ + opt_text(t.signature_algorithm)
}

fn add_signal_exec(algs: &mut Vec<String>, text: &[char], needle: &str, name: &str)
    ensures
        string_views(final(algs)@) == add_signal(string_views(old(algs)@), text@, needle@, name@),
{
    if contains_str(text, needle) {
        let ghost before = string_views(algs@);
        algs.push(String::from_str(name));
        assert(string_views(algs@) == before.push(name@));
    }
}

fn algorithms_include(algs: &Vec<String>, name: &str) -> (b: bool)
    ensures
        b == string_views(algs@).contains(name@),
{
    let mut i: usize = 0;
    while i < algs.len()
        invariant
            i <= algs.len(),
            forall|j: int| 0 <= j < i ==> algs@[j]@ != name@,
        decreases algs.len() - i,
    {
        let a = chars_of(algs[i].as_str());
        if chars_eq_str(&a, name) {
            assert(string_views(algs@)[i as int] == name@);
            return true;
        }
        i = i + 1;
    }
    proof {
        if string_views(algs@).contains(name@) {
            let k = choose|k: int| 0 <= k < algs@.len() && string_views(algs@)[k] == name@;
            assert(algs@[k]@ == name@);
        }
    }
    false
}

fn pqc_present(algs: &Vec<String>) -> (b: bool)
    ensures
        b == any_pqc(string_views(algs@)),
{
    algorithms_include(algs, "ML-KEM") || algorithms_include(algs, "Kyber") || algorithms_include(
        algs,
        "ML-DSA",
    ) || algorithms_include(algs, "Dilithium") || algorithms_include(algs, "Falcon")
}

fn classical_present(algs: &Vec<String>) -> (b: bool)
    ensures
        b == any_classical(string_views(algs@)),
{
    algorithms_include(algs, "RSA") || algorithms_include(algs, "ECDSA") || algorithms_include(
        algs,
        "X25519",
    )
}

/// The profile of a network endpoint, given the lower-cased handshake summary
/// when a TLS handshake was observed.
pub fn crypto_from_summary(lowered: Option<&str>) -> (c: CryptoProfile)
    ensures
        c@ == tls_crypto(
            match lowered {
                Some(t) => Some(t@),
                None => None,
            },
        ),
{
    let mut algs: Vec<String> = Vec::new();
    assert(string_views(algs@) == Seq::<Seq<char>>::empty());
    if let Some(t) = lowered {
        let text = chars_of(t);
        add_signal_exec(&mut algs, &text, "rsa", "RSA");
        add_signal_exec(&mut algs, &text, "ecdsa", "ECDSA");
        add_signal_exec(&mut algs, &text, "x25519", "X25519");
        add_signal_exec(&mut algs, &text, "mlkem", "ML-KEM");
        add_signal_exec(&mut algs, &text, "kyber", "Kyber");
        add_signal_exec(&mut algs, &text, "mldsa", "ML-DSA");
        add_signal_exec(&mut algs, &text, "dilithium", "Dilithium");
        add_signal_exec(&mut algs, &text, "falcon", "Falcon");
    }
    let pqc = pqc_present(&algs);
    let hybrid = algorithms_include(&algs, "X25519") && pqc;
    let classical = classical_present(&algs);
    CryptoProfile {
        algorithms: algs,
        key_bits: Vec::new(),
        pqc_supported: pqc,
        hybrid_supported: hybrid,
        quantum_vulnerable: classical,
        encryption_observed: lowered.is_some(),
        evidence: if lowered.is_some() {
            String::from_str("tls_observation")
        } else {
            String::from_str("not_observed")
        },
    }
}

/// The crypto profile of a network endpoint from its TLS observation, if any.
pub fn crypto_from_tls(tls: Option<&TlsObservation>) -> (c: CryptoProfile)
    ensures
        c@ == tls_crypto(
            match tls {
                Some(t) => Some(lowercase(tls_summary(*t))),
                None => None,
            },
        ),
{
    match tls {
        Some(t) => {
            let mut text: Vec<char> = Vec::new();
            match &t.cipher {
                Some(s) => push_str(&mut text, s.as_str()),
                None => {},
            }
            push_str(&mut text, " ");
            match &t.key_exchange {
                Some(s) => push_str(&mut text, s.as_str()),
                None => {},
            }
            push_str(&mut text, " ");
            match &t.signature_algorithm {
                Some(s) => push_str(&mut text, s.as_str()),
                None => {},
            }
            assert(text@ == tls_summary(*t));
            let summary = crate::text::string_from_chars(&text);
            let lowered = to_lowercase(summary.as_str());
            crypto_from_summary(Some(lowered.as_str()))
        },
        None => crypto_from_summary(None),
    }
}

/// The crypto profile of a software component, given its lower-cased JSON text.
pub fn crypto_from_component_text(lowered: &str) -> (c: CryptoProfile)
    ensures
        c@ == inventory_crypto(lowered@),
{
    let text = chars_of(lowered);
    let mut algs: Vec<String> = Vec::new();
    assert(string_views(algs@) == Seq::<Seq<char>>::empty());
    add_signal_exec(&mut algs, &text, "rsa", "RSA");
    add_signal_exec(&mut algs, &text, "ecdsa", "ECDSA");
    add_signal_exec(&mut algs, &text, "x25519", "X25519");
    add_signal_exec(&mut algs, &text, "ml-kem", "ML-KEM");
    add_signal_exec(&mut algs, &text, "kyber", "Kyber");
    add_signal_exec(&mut algs, &text, "ml-dsa", "ML-DSA");
    add_signal_exec(&mut algs, &text, "dilithium", "Dilithium");
    add_signal_exec(&mut algs, &text, "falcon", "Falcon");
    let pqc = pqc_present(&algs);
    let classical = classical_present(&algs);
    CryptoProfile {
        algorithms: algs,
        key_bits: Vec::new(),
        pqc_supported: pqc,
        hybrid_supported: false,
        quantum_vulnerable: classical,
        encryption_observed: false,
        evidence: String::from_str("software_inventory"),
    }
}

/// The crypto profile of a software component from its JSON text (lower-cased
/// here before the search).
pub fn crypto_from_component(json_text: &str) -> (c: CryptoProfile)
    ensures
        c@ == inventory_crypto(lowercase(json_text@)),
{
    let lowered = to_lowercase(json_text);
    crypto_from_component_text(lowered.as_str())
}

/// Hybrid support implies both a post-quantum and a classical signal, and a
/// profile without an observed handshake names no algorithm.
pub proof fn lemma_tls_crypto_consistent(lowered: Option<Seq<char>>)
    ensures
        tls_crypto(lowered).hybrid_supported ==> tls_crypto(lowered).pqc_supported
            && tls_crypto(lowered).quantum_vulnerable,
        lowered is None ==> tls_crypto(lowered).algorithms.len() == 0
            && !tls_crypto(lowered).quantum_vulnerable && !tls_crypto(lowered).pqc_supported,
{
}

proof fn lemma_add_signal(prev: Seq<Seq<char>>, text: Seq<char>, needle: Seq<char>, name: Seq<char>)
    ensures
        forall|x: Seq<char>|
            #[trigger] add_signal(prev, text, needle, name).contains(x) <==> (prev.contains(x) || (
            contains(text, needle) && x == name)),
{
    assert forall|x: Seq<char>|
        #[trigger] add_signal(prev, text, needle, name).contains(x) <==> (prev.contains(x) || (
        contains(text, needle) && x == name)) by {
        let out = add_signal(prev, text, needle, name);
        if prev.contains(x) {
            let i = choose|i: int| 0 <= i < prev.len() && prev[i] == x;
            if contains(text, needle) {
                assert(out[i] == x);
            }
        }
        if contains(text, needle) && x == name {
            assert(out[prev.len() as int] == x);
        }
        if out.contains(x) {
            let i = choose|i: int| 0 <= i < out.len() && out[i] == x;
            if contains(text, needle) && i < prev.len() {
                assert(prev[i] == x);
            }
        }
    }
}

/// The eight algorithm names that evidence can show are pairwise different.
proof fn lemma_signal_names_distinct()
    ensures
        "RSA"@ != "ECDSA"@, "RSA"@ != "X25519"@, "RSA"@ != "ML-KEM"@, "RSA"@ != "Kyber"@,
        "RSA"@ != "ML-DSA"@, "RSA"@ != "Dilithium"@, "RSA"@ != "Falcon"@,
        "ECDSA"@ != "X25519"@, "ECDSA"@ != "ML-KEM"@, "ECDSA"@ != "Kyber"@,
        "ECDSA"@ != "ML-DSA"@, "ECDSA"@ != "Dilithium"@, "ECDSA"@ != "Falcon"@,
        "X25519"@ != "ML-KEM"@, "X25519"@ != "Kyber"@, "X25519"@ != "ML-DSA"@,
        "X25519"@ != "Dilithium"@, "X25519"@ != "Falcon"@,
        "ML-KEM"@ != "Kyber"@, "ML-KEM"@ != "ML-DSA"@, "ML-KEM"@ != "Dilithium"@,
        "ML-KEM"@ != "Falcon"@,
        "Kyber"@ != "ML-DSA"@, "Kyber"@ != "Dilithium"@, "Kyber"@ != "Falcon"@,
        "ML-DSA"@ != "Dilithium"@, "ML-DSA"@ != "Falcon"@,
        "Dilithium"@ != "Falcon"@,
{
    reveal_strlit("RSA");
    reveal_strlit("ECDSA");
    reveal_strlit("X25519");
    reveal_strlit("ML-KEM");
    reveal_strlit("Kyber");
    reveal_strlit("ML-DSA");
    reveal_strlit("Dilithium");
    reveal_strlit("Falcon");
    assert("RSA"@.len() == 3 && "ECDSA"@.len() == 5 && "Kyber"@.len() == 5);
    assert("X25519"@.len() == 6 && "ML-KEM"@.len() == 6 && "ML-DSA"@.len() == 6);
    assert("Dilithium"@.len() == 9 && "Falcon"@.len() == 6);
    assert("ECDSA"@[0] != "Kyber"@[0]);
    assert("X25519"@[0] != "ML-KEM"@[0]);
    assert("X25519"@[0] != "ML-DSA"@[0]);
    assert("X25519"@[0] != "Falcon"@[0]);
    assert("ML-KEM"@[3] != "ML-DSA"@[3]);
    assert("ML-KEM"@[0] != "Falcon"@[0]);
    assert("ML-DSA"@[0] != "Falcon"@[0]);
}

/// What a software component's evidence shows: each algorithm is listed exactly
/// when its marker occurs in the component's lower-cased JSON text (`rsa`,
/// `ecdsa`, `x25519`, `ml-kem`, `kyber`, `ml-dsa`, `dilithium`, `falcon`); the
/// component is post-quantum capable exactly when a post-quantum marker occurs,
/// quantum-vulnerable exactly when a classical one does, and never hybrid.
pub proof fn lemma_inventory_signals(lowered: Seq<char>)
    ensures
        ({
            let c = inventory_crypto(lowered);
            &&& c.algorithms.contains("RSA"@) <==> contains(lowered, "rsa"@)
            &&& c.algorithms.contains("ECDSA"@) <==> contains(lowered, "ecdsa"@)
            &&& c.algorithms.contains("X25519"@) <==> contains(lowered, "x25519"@)
            &&& c.algorithms.contains("ML-KEM"@) <==> contains(lowered, "ml-kem"@)
            &&& c.algorithms.contains("Kyber"@) <==> contains(lowered, "kyber"@)
            &&& c.algorithms.contains("ML-DSA"@) <==> contains(lowered, "ml-dsa"@)
            &&& c.algorithms.contains("Dilithium"@) <==> contains(lowered, "dilithium"@)
            &&& c.algorithms.contains("Falcon"@) <==> contains(lowered, "falcon"@)
            &&& c.pqc_supported <==> (contains(lowered, "ml-kem"@) || contains(lowered, "kyber"@)
                || contains(lowered, "ml-dsa"@) || contains(lowered, "dilithium"@) || contains(
                lowered,
                "falcon"@,
            ))
            &&& c.quantum_vulnerable <==> (contains(lowered, "rsa"@) || contains(lowered, "ecdsa"@)
                || contains(lowered, "x25519"@))
            &&& !c.hybrid_supported
            &&& !c.encryption_observed
        }),
{
    lemma_signal_names_distinct();
    let t = lowered;
    let e0 = Seq::<Seq<char>>::empty();
    let a = add_signal(e0, t, "rsa"@, "RSA"@);
    let b = add_signal(a, t, "ecdsa"@, "ECDSA"@);
    let c = add_signal(b, t, "x25519"@, "X25519"@);
    let d = add_signal(c, t, "ml-kem"@, "ML-KEM"@);
    let e = add_signal(d, t, "kyber"@, "Kyber"@);
    let f = add_signal(e, t, "ml-dsa"@, "ML-DSA"@);
    let g = add_signal(f, t, "dilithium"@, "Dilithium"@);
    lemma_add_signal(e0, t, "rsa"@, "RSA"@);
    lemma_add_signal(a, t, "ecdsa"@, "ECDSA"@);
    lemma_add_signal(b, t, "x25519"@, "X25519"@);
    lemma_add_signal(c, t, "ml-kem"@, "ML-KEM"@);
    lemma_add_signal(d, t, "kyber"@, "Kyber"@);
    lemma_add_signal(e, t, "ml-dsa"@, "ML-DSA"@);
    lemma_add_signal(f, t, "dilithium"@, "Dilithium"@);
    lemma_add_signal(g, t, "falcon"@, "Falcon"@);
    assert(!e0.contains("RSA"@) && !e0.contains("ECDSA"@) && !e0.contains("X25519"@) && !e0.contains(
        "ML-KEM"@,
    ) && !e0.contains("Kyber"@) && !e0.contains("ML-DSA"@) && !e0.contains("Dilithium"@)
        && !e0.contains("Falcon"@));
}

/// What a TLS handshake summary shows: each algorithm is listed exactly when its
/// marker occurs in the lower-cased summary (`rsa`, `ecdsa`, `x25519`, `mlkem`,
/// `kyber`, `mldsa`, `dilithium`, `falcon`); the endpoint is post-quantum capable
/// exactly when a post-quantum marker occurs, hybrid exactly when `x25519` occurs
/// as well, and quantum-vulnerable exactly when a classical marker occurs.
pub proof fn lemma_tls_signals(lowered: Seq<char>)
    ensures
        ({
            let c = tls_crypto(Some(lowered));
            let pq = contains(lowered, "mlkem"@) || contains(lowered, "kyber"@) || contains(
                lowered,
                "mldsa"@,
            ) || contains(lowered, "dilithium"@) || contains(lowered, "falcon"@);
            &&& c.algorithms.contains("RSA"@) <==> contains(lowered, "rsa"@)
            &&& c.algorithms.contains("ECDSA"@) <==> contains(lowered, "ecdsa"@)
            &&& c.algorithms.contains("X25519"@) <==> contains(lowered, "x25519"@)
            &&& c.algorithms.contains("ML-KEM"@) <==> contains(lowered, "mlkem"@)
            &&& c.algorithms.contains("Kyber"@) <==> contains(lowered, "kyber"@)
            &&& c.algorithms.contains("ML-DSA"@) <==> contains(lowered, "mldsa"@)
            &&& c.algorithms.contains("Dilithium"@) <==> contains(lowered, "dilithium"@)
            &&& c.algorithms.contains("Falcon"@) <==> contains(lowered, "falcon"@)
            &&& c.pqc_supported <==> pq
            &&& c.hybrid_supported <==> (contains(lowered, "x25519"@) && pq)
            &&& c.quantum_vulnerable <==> (contains(lowered, "rsa"@) || contains(lowered, "ecdsa"@)
                || contains(lowered, "x25519"@))
            &&& c.encryption_observed
        }),
{
    lemma_signal_names_distinct();
    let t = lowered;
    let e0 = Seq::<Seq<char>>::empty();
    let a = add_signal(e0, t, "rsa"@, "RSA"@);
    let b = add_signal(a, t, "ecdsa"@, "ECDSA"@);
    let c = add_signal(b, t, "x25519"@, "X25519"@);
    let d = add_signal(c, t, "mlkem"@, "ML-KEM"@);
    let e = add_signal(d, t, "kyber"@, "Kyber"@);
    let f = add_signal(e, t, "mldsa"@, "ML-DSA"@);
    let g = add_signal(f, t, "dilithium"@, "Dilithium"@);
    lemma_add_signal(e0, t, "rsa"@, "RSA"@);
    lemma_add_signal(a, t, "ecdsa"@, "ECDSA"@);
    lemma_add_signal(b, t, "x25519"@, "X25519"@);
    lemma_add_signal(c, t, "mlkem"@, "ML-KEM"@);
    lemma_add_signal(d, t, "kyber"@, "Kyber"@);
    lemma_add_signal(e, t, "mldsa"@, "ML-DSA"@);
    lemma_add_signal(f, t, "dilithium"@, "Dilithium"@);
    lemma_add_signal(g, t, "falcon"@, "Falcon"@);
    assert(!e0.contains("RSA"@) && !e0.contains("ECDSA"@) && !e0.contains("X25519"@) && !e0.contains(
        "ML-KEM"@,
    ) && !e0.contains("Kyber"@) && !e0.contains("ML-DSA"@) && !e0.contains("Dilithium"@)
        && !e0.contains("Falcon"@));
}

} // verus!
