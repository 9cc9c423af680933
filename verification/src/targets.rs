//! Target specifications: single hosts, IPv4 CIDR blocks and IPv4 ranges,
//! expanded into a bounded, sorted list of distinct hosts.
use vstd::prelude::*;
use crate::numbers::{
    all_digits, digits_value, lemma_decimal_value, lemma_parse_decimal, parse_unsigned,
    parse_unsigned_exec,
};
use crate::order::{insert_sorted, lemma_lex_sorted_no_duplicates, lex_sorted};
use crate::text::{
    char_vec_views, chars_of, decimal, digit_char, lemma_decimal_digits, lemma_split_on_append,
    lemma_split_on_single, lemma_split_once_absent, lemma_split_once_at, push_chars, push_decimal,
    push_str, slice_chars, split_chars, split_on, split_once, split_once_chars, string_from_chars,
    string_views, strings_from,
};

verus! {

/// One dotted-quad octet as `Ipv4Addr`'s parser reads it: one to three ASCII
/// digits, no leading zero unless the octet is `0`, value at most 255.
pub open spec fn parse_octet(s: Seq<char>) -> Option<nat> {
    if 1 <= s.len() <= 3 && all_digits(s) && !(s[0] == '0' && s.len() > 1) && digits_value(s)
        <= 255 {
        Some(digits_value(s))
    } else {
        None
    }
}

/// `Ipv4Addr` from dotted-quad text, as its numeric value.
pub open spec fn parse_ipv4(s: Seq<char>) -> Option<u32> {
    let parts = split_on(s, '.');
    if parts.len() == 4 && parse_octet(parts[0]) is Some && parse_octet(parts[1]) is Some
        && parse_octet(parts[2]) is Some && parse_octet(parts[3]) is Some {
        Some(
            (parse_octet(parts[0])->0 * 16777216 + parse_octet(parts[1])->0 * 65536 + parse_octet(
                parts[2],
            )->0 * 256 + parse_octet(parts[3])->0) as u32,
        )
    } else {
        None
    }
}

/// The dotted-quad text of an address.
pub open spec fn ipv4_text(a: u32) -> Seq<char> {
    decimal((a / 16777216) as nat) + seq!['.'] + decimal(((a / 65536) % 256) as nat) + seq!['.']
        + decimal(((a / 256) % 256) as nat) + seq!['.'] + decimal((a % 256) as nat)
}

pub open spec fn pow2(n: nat) -> nat
    decreases n,
{
    if n == 0 {
        1
    } else {
        2 * pow2((n - 1) as nat)
    }
}

/// The texts of `count` consecutive addresses starting at `first`.
pub open spec fn host_run(first: nat, count: nat) -> Seq<Seq<char>> {
    Seq::new(count, |k: int| ipv4_text((first + k) as u32))
}

/// Why target specifications are refused.
#[derive(Debug, PartialEq, Eq)]
pub enum TargetError {
    /// `max_targets` is zero.
    ZeroMaxTargets,
    /// The address part of a CIDR block is not an IPv4 address.
    InvalidCidrAddress(String),
    /// The prefix part of a CIDR block is not a number from 0 to 255.
    InvalidCidrPrefix(String),
    /// A CIDR prefix above 32.
    PrefixTooLarge(u8),
    /// One specification expands to more hosts than allowed.
    TooManyHosts(String, u64),
    /// A range whose start lies after its end.
    StartAfterEnd(String),
    /// A text with `-` that is neither form of range.
    InvalidRange(String),
    /// The distinct hosts of all specifications exceed the limit.
    ListTooLong(usize, usize),
}

/// `TargetError` with its texts as character sequences.
pub enum TargetFault {
    ZeroMaxTargets,
    InvalidCidrAddress(Seq<char>),
    InvalidCidrPrefix(Seq<char>),
    PrefixTooLarge(u8),
    TooManyHosts(Seq<char>, nat),
    StartAfterEnd(Seq<char>),
    InvalidRange(Seq<char>),
    ListTooLong(nat, nat),
}

impl View for TargetError {
    type V = TargetFault;

    open spec fn view(&self) -> TargetFault {
        match self {
            TargetError::ZeroMaxTargets => TargetFault::ZeroMaxTargets,
            TargetError::InvalidCidrAddress(s) => TargetFault::InvalidCidrAddress(s@),
            TargetError::InvalidCidrPrefix(s) => TargetFault::InvalidCidrPrefix(s@),
            TargetError::PrefixTooLarge(p) => TargetFault::PrefixTooLarge(*p),
            TargetError::TooManyHosts(s, n) => TargetFault::TooManyHosts(s@, *n as nat),
            TargetError::StartAfterEnd(s) => TargetFault::StartAfterEnd(s@),
            TargetError::InvalidRange(s) => TargetFault::InvalidRange(s@),
            TargetError::ListTooLong(n, m) => TargetFault::ListTooLong(*n as nat, *m as nat),
        }
    }
}

impl TargetFault {
    pub open spec fn message(self) -> Seq<char> {
        match self {
            TargetFault::ZeroMaxTargets => "--max-targets must be greater than zero"@,
            TargetFault::InvalidCidrAddress(a) => "invalid IPv4 CIDR address: "@ + a,
            TargetFault::InvalidCidrPrefix(p) => "invalid CIDR prefix: "@ + p,
            TargetFault::PrefixTooLarge(p) => "invalid CIDR prefix /"@ + decimal(p as nat)
                + "; expected /0 through /32"@,
            TargetFault::TooManyHosts(s, n) => "target "@ + s + " expands to "@ + decimal(n)
                + " hosts; increase --max-targets or use a smaller range"@,
            TargetFault::StartAfterEnd(s) => "invalid target range "@ + s
                + "; start must not exceed end"@,
            TargetFault::InvalidRange(s) => "invalid target range "@ + s
                + "; use 192.168.1.1-192.168.1.38 or 192.168.1.1-38"@,
            TargetFault::ListTooLong(n, m) => "target list expands to "@ + decimal(n)
                + " hosts; maximum is "@ + decimal(m),
        }
    }
}

impl TargetError {
    /// The text that the command line shows for this error.
    pub fn message(&self) -> (s: String)
        ensures
            s@ == self@.message(),
    {
        let mut v: Vec<char> = Vec::new();
        match self {
            TargetError::ZeroMaxTargets => {
                push_str(&mut v, "--max-targets must be greater than zero");
            },
            TargetError::InvalidCidrAddress(a) => {
                push_str(&mut v, "invalid IPv4 CIDR address: ");
                push_str(&mut v, a.as_str());
            },
            TargetError::InvalidCidrPrefix(p) => {
                push_str(&mut v, "invalid CIDR prefix: ");
                push_str(&mut v, p.as_str());
            },
            TargetError::PrefixTooLarge(p) => {
                push_str(&mut v, "invalid CIDR prefix /");
                push_decimal(&mut v, *p as u64);
                push_str(&mut v, "; expected /0 through /32");
            },
            TargetError::TooManyHosts(s, n) => {
                push_str(&mut v, "target ");
                push_str(&mut v, s.as_str());
                push_str(&mut v, " expands to ");
                push_decimal(&mut v, *n);
                push_str(&mut v, " hosts; increase --max-targets or use a smaller range");
            },
            TargetError::StartAfterEnd(s) => {
                push_str(&mut v, "invalid target range ");
                push_str(&mut v, s.as_str());
                push_str(&mut v, "; start must not exceed end");
            },
            TargetError::InvalidRange(s) => {
                push_str(&mut v, "invalid target range ");
                push_str(&mut v, s.as_str());
                push_str(&mut v, "; use 192.168.1.1-192.168.1.38 or 192.168.1.1-38");
            },
            TargetError::ListTooLong(n, m) => {
                push_str(&mut v, "target list expands to ");
                push_decimal(&mut v, *n as u64);
                push_str(&mut v, " hosts; maximum is ");
                push_decimal(&mut v, *m as u64);
            },
        }
        string_from_chars(&v)
    }
}

/// The hosts of an inclusive address range `first..=last`.
pub open spec fn range_targets(spec: Seq<char>, first: nat, last: nat, max: nat) -> Result<
    Seq<Seq<char>>,
    TargetFault,
> {
    if first > last {
        Err(TargetFault::StartAfterEnd(spec))
    } else if (last - first + 1) as nat > max {
        Err(TargetFault::TooManyHosts(spec, (last - first + 1) as nat))
    } else {
        Ok(host_run(first, (last - first + 1) as nat))
    }
}

/// The hosts that one specification stands for: the whole block of a CIDR
/// `a.b.c.d/p`, an explicit range `a.b.c.d-e.f.g.h`, a shorthand range
/// `a.b.c.d-n` (last octet `n` in the same /24), or the text itself.
pub open spec fn expand_spec(spec: Seq<char>, max: nat) -> Result<Seq<Seq<char>>, TargetFault> {
    match split_once(spec, '/') {
        Some((address, prefix)) => match parse_ipv4(address) {
            None => Err(TargetFault::InvalidCidrAddress(address)),
            Some(ip) => match parse_unsigned(prefix, 255) {
                None => Err(TargetFault::InvalidCidrPrefix(prefix)),
                Some(p) => if p > 32 {
                    Err(TargetFault::PrefixTooLarge(p as u8))
                } else if pow2((32 - p) as nat) > max {
                    Err(TargetFault::TooManyHosts(spec, pow2((32 - p) as nat)))
                } else {
                    Ok(host_run((ip as nat - (ip as nat) % pow2((32 - p) as nat)) as nat, pow2((32 - p) as nat)))
                },
            },
        },
        None => match split_once(spec, '-') {
            Some((first, last)) => if parse_ipv4(first) is Some && parse_ipv4(last) is Some {
                range_targets(spec, parse_ipv4(first)->0 as nat, parse_ipv4(last)->0 as nat, max)
            } else if parse_ipv4(first) is Some && parse_unsigned(last, 255) is Some {
                let a = parse_ipv4(first)->0;
                range_targets(spec, a as nat, (a - a % 256 + parse_unsigned(last, 255)->0) as nat, max)
            } else {
                Err(TargetFault::InvalidRange(spec))
            },
            None => Ok(seq![spec]),
        },
    }
}

/// The hosts of all specifications in order, or the first error.
pub open spec fn expand_specs(specs: Seq<Seq<char>>, max: nat) -> Result<Seq<Seq<char>>, TargetFault>
    decreases specs.len(),
{
    if specs.len() == 0 {
        Ok(Seq::empty())
    } else {
        match expand_specs(specs.drop_last(), max) {
            Err(e) => Err(e),
            Ok(hs) => match expand_spec(specs.last(), max) {
                Err(e) => Err(e),
                Ok(more) => Ok(hs + more),
            },
        }
    }
}

/// What a target list stands for: its hosts, provided `max` is positive and the
/// distinct hosts number at most `max`.
pub open spec fn target_expansion(specs: Seq<Seq<char>>, max: nat) -> Result<
    Seq<Seq<char>>,
    TargetFault,
> {
    if max == 0 {
        Err(TargetFault::ZeroMaxTargets)
    } else {
        match expand_specs(specs, max) {
            Err(e) => Err(e),
            Ok(hosts) => if hosts.to_set().len() > max {
                Err(TargetFault::ListTooLong(hosts.to_set().len(), max))
            } else {
                Ok(hosts)
            },
        }
    }
}

fn parse_octet_exec(s: &[char]) -> (r: Option<u32>)
    ensures
        match r {
            Some(v) => parse_octet(s@) == Some(v as nat),
            None => parse_octet(s@) is None,
        },
{
    if s.len() < 1 || s.len() > 3 || (s[0] == '0' && s.len() > 1) || s[0] == '+' {
        return None;
    }
    match parse_unsigned_exec(s, 255) {
        Some(v) => Some(v as u32),
        None => None,
    }
}

/// Parses dotted-quad IPv4 text into its numeric value.
pub fn parse_ipv4_exec(s: &[char]) -> (r: Option<u32>)
    ensures
        match r {
            Some(v) => parse_ipv4(s@) == Some(v),
            None => parse_ipv4(s@) is None,
        },
{
    let parts = split_chars(s, '.');
    if parts.len() != 4 {
        return None;
    }
    let a = match parse_octet_exec(parts[0].as_slice()) {
        Some(x) => x,
        None => return None,
    };
    let b = match parse_octet_exec(parts[1].as_slice()) {
        Some(x) => x,
        None => return None,
    };
    let c = match parse_octet_exec(parts[2].as_slice()) {
        Some(x) => x,
        None => return None,
    };
    let d = match parse_octet_exec(parts[3].as_slice()) {
        Some(x) => x,
        None => return None,
    };
    Some(a * 16777216 + b * 65536 + c * 256 + d)
}

/// Appends the dotted-quad text of `a`.
pub fn push_ipv4(v: &mut Vec<char>, a: u32)
    ensures
        final(v)@ == old(v)@ + ipv4_text(a),
{
    let ghost start = v@;
    push_decimal(v, (a / 16777216) as u64);
    v.push('.');
    push_decimal(v, ((a / 65536) % 256) as u64);
    v.push('.');
    push_decimal(v, ((a / 256) % 256) as u64);
    v.push('.');
    push_decimal(v, (a % 256) as u64);
    assert(v@ == start + ipv4_text(a));
}

fn compute_pow2(n: u32) -> (r: u64)
    requires
        n <= 32,
    ensures
        r as nat == pow2(n as nat),
        r <= 4294967296,
{
    let mut r: u64 = 1;
    let mut i: u32 = 0;
    while i < n
        invariant
            i <= n <= 32,
            r as nat == pow2(i as nat),
        decreases n - i,
    {
        proof {
            lemma_pow2_bound(i as nat);
        }
        r = r * 2;
        i = i + 1;
    }
    proof {
        lemma_pow2_bound(n as nat);
    }
    r
}

proof fn lemma_pow2_bound(i: nat)
    requires
        i <= 32,
    ensures
        1 <= pow2(i) <= 4294967296,
        i < 32 ==> pow2(i) <= 2147483648,
    decreases 32 - i,
{
    lemma_pow2_positive(i);
    if i < 32 {
        lemma_pow2_bound(i + 1);
        assert(pow2(i + 1) == 2 * pow2(i));
    } else {
        lemma_pow2_32();
    }
}

proof fn lemma_pow2_32()
    ensures
        pow2(32) == 4294967296,
{
    reveal_with_fuel(pow2, 33);
}

proof fn lemma_pow2_positive(n: nat)
    ensures
        pow2(n) >= 1,
    decreases n,
{
    if n > 0 {
        lemma_pow2_positive((n - 1) as nat);
    }
}

/// Adds the texts of `count` consecutive addresses from `first` to `sorted`.
fn add_run(sorted: &mut Vec<Vec<char>>, first: u64, count: u64)
    requires
        first + count <= 4294967296,
        lex_sorted(char_vec_views(old(sorted)@)),
    ensures
        lex_sorted(char_vec_views(final(sorted)@)),
        char_vec_views(final(sorted)@).to_set() == char_vec_views(old(sorted)@).to_set()
            + host_run(first as nat, count as nat).to_set(),
{
    let ghost start = char_vec_views(sorted@).to_set();
    let mut k: u64 = 0;
    while k < count
        invariant
            k <= count,
            first + count <= 4294967296,
            lex_sorted(char_vec_views(sorted@)),
            char_vec_views(sorted@).to_set() == start + host_run(first as nat, k as nat).to_set(),
        decreases count - k,
    {
        let mut text: Vec<char> = Vec::new();
        push_ipv4(&mut text, (first + k) as u32);
        assert(text@ == ipv4_text((first + k) as u32));
        insert_sorted(sorted, text);
        proof {
            let before = host_run(first as nat, k as nat);
            let after = host_run(first as nat, (k + 1) as nat);
            assert(after == before.push(ipv4_text((first + k) as u32)));
            assert(after.to_set() == before.to_set().insert(ipv4_text((first + k) as u32))) by {
                before.lemma_push_to_set_commute(ipv4_text((first + k) as u32));
            }
            assert(start + after.to_set() == (start + before.to_set()).insert(
                ipv4_text((first + k) as u32),
            ));
        }
        k = k + 1;
    }
}

/// Adds the hosts of the inclusive range `first..=last`.
fn append_target_range(
    sorted: &mut Vec<Vec<char>>,
    first: u64,
    last: u64,
    spec: &[char],
    max_targets: usize,
) -> (r: Result<(), TargetError>)
    requires
        last < 4294967296,
        lex_sorted(char_vec_views(old(sorted)@)),
    ensures
        lex_sorted(char_vec_views(final(sorted)@)),
        match r {
            Ok(()) => range_targets(spec@, first as nat, last as nat, max_targets as nat) matches Ok(
                more,
            ) && char_vec_views(final(sorted)@).to_set() == char_vec_views(old(sorted)@).to_set()
                + more.to_set(),
            Err(e) => range_targets(spec@, first as nat, last as nat, max_targets as nat) == Err::<
                Seq<Seq<char>>,
                TargetFault,
            >(e@) && final(sorted)@ == old(sorted)@,
        },
{
    if first > last {
        return Err(TargetError::StartAfterEnd(string_from_chars(spec)));
    }
    let count = last - first + 1;
    if count > max_targets as u64 {
        return Err(TargetError::TooManyHosts(string_from_chars(spec), count));
    }
    add_run(sorted, first, count);
    Ok(())
}

proof fn lemma_block_fits(ip: nat, count: nat, p: nat)
    requires
        ip < 4294967296,
        p <= 32,
        count == pow2((32 - p) as nat),
    ensures
        (ip - ip % count) + count <= 4294967296,
        ip % count <= ip,
{
    lemma_pow2_positive((32 - p) as nat);
    lemma_pow2_positive(p);
    lemma_pow2_add((32 - p) as nat, p);
    lemma_pow2_32();
    assert((32 - p) as nat + p == 32);
    let m = pow2(p);
    assert(count * m == 4294967296);
    assert((ip - ip % count) + count <= 4294967296) by (nonlinear_arith)
        requires
            count * m == 4294967296,
            ip < 4294967296,
            count >= 1,
            m >= 1,
    {
        assert(ip == count * (ip / count) + ip % count);
        assert(ip / count < m) by {
            if ip / count >= m {
                assert(count * (ip / count) >= count * m);
            }
        }
        assert(count * (ip / count) + count == count * (ip / count + 1));
        assert(count * (ip / count + 1) <= count * m);
    }
    assert(ip % count <= ip) by (nonlinear_arith)
        requires
            count >= 1,
    ;
}

proof fn lemma_pow2_add(a: nat, b: nat)
    ensures
        pow2(a) * pow2(b) == pow2(a + b),
    decreases a,
{
    if a > 0 {
        lemma_pow2_add((a - 1) as nat, b);
        assert(pow2(a) * pow2(b) == 2 * (pow2((a - 1) as nat) * pow2(b))) by (nonlinear_arith)
            requires
                pow2(a) == 2 * pow2((a - 1) as nat),
        ;
        assert((a + b - 1) as nat == (a - 1) as nat + b);
        assert(pow2(a + b) == 2 * pow2((a + b - 1) as nat));
    } else {
        assert(pow2(0) == 1);
        assert(a + b == b);
    }
}

/// Adds the hosts of one specification to `sorted`.
fn expand_one(spec: &[char], max_targets: usize, sorted: &mut Vec<Vec<char>>) -> (r: Result<
    (),
    TargetError,
>)
    requires
        lex_sorted(char_vec_views(old(sorted)@)),
    ensures
        lex_sorted(char_vec_views(final(sorted)@)),
        match r {
            Ok(()) => expand_spec(spec@, max_targets as nat) matches Ok(more) && char_vec_views(
                final(sorted)@,
            ).to_set() == char_vec_views(old(sorted)@).to_set() + more.to_set(),
            Err(e) => expand_spec(spec@, max_targets as nat) == Err::<Seq<Seq<char>>, TargetFault>(
                e@,
            ) && final(sorted)@ == old(sorted)@,
        },
{
    match split_once_chars(spec, '/') {
        Some((address, prefix)) => {
            let ip = match parse_ipv4_exec(&address) {
                Some(ip) => ip,
                None => {
                    return Err(TargetError::InvalidCidrAddress(string_from_chars(&address)));
                },
            };
            let p = match parse_unsigned_exec(&prefix, 255) {
                Some(p) => p,
                None => {
                    return Err(TargetError::InvalidCidrPrefix(string_from_chars(&prefix)));
                },
            };
            if p > 32 {
                return Err(TargetError::PrefixTooLarge(p as u8));
            }
            let count = compute_pow2((32 - p) as u32);
            if count > max_targets as u64 {
                return Err(TargetError::TooManyHosts(string_from_chars(spec), count));
            }
            proof {
                lemma_pow2_positive((32 - p) as nat);
                lemma_block_fits(ip as nat, count as nat, p as nat);
            }
            let base = ip as u64 - ip as u64 % count;
            add_run(sorted, base, count);
            Ok(())
        },
        None => {
            match split_once_chars(spec, '-') {
                Some((first, last)) => {
                    let a = parse_ipv4_exec(&first);
                    let b = parse_ipv4_exec(&last);
                    if a.is_some() && b.is_some() {
                        let a = a.unwrap();
                        let b = b.unwrap();
                        return append_target_range(sorted, a as u64, b as u64, spec, max_targets);
                    }
                    if let Some(a) = a {
                        if let Some(o) = parse_unsigned_exec(&last, 255) {
                            let subnet = a as u64 - a as u64 % 256;
                            proof {
                                assert(pow2(8) == 256) by {
                                    reveal_with_fuel(pow2, 9);
                                }
                                lemma_block_fits(a as nat, 256, 24);
                            }
                            return append_target_range(
                                sorted,
                                a as u64,
                                subnet + o,
                                spec,
                                max_targets,
                            );
                        }
                    }
                    Err(TargetError::InvalidRange(string_from_chars(spec)))
                },
                None => {
                    let ghost before = char_vec_views(sorted@).to_set();
                    let whole = slice_chars(spec, 0, spec.len());
                    assert(whole@ == spec@);
                    insert_sorted(sorted, whole);
                    assert(seq![spec@].to_set() == Set::<Seq<char>>::empty().insert(spec@)) by {
                        Seq::<Seq<char>>::empty().lemma_push_to_set_commute(spec@);
                        assert(Seq::<Seq<char>>::empty().push(spec@) == seq![spec@]);
                    }
                    assert(before.insert(spec@) == before + seq![spec@].to_set());
                    Ok(())
                },
            }
        },
    }
}

/// Expands target specifications (hosts, CIDR blocks, ranges) into the sorted list
/// of distinct hosts they name.
pub fn expand_targets(specs: &[String], max_targets: usize) -> (r: Result<Vec<String>, TargetError>)
    ensures
        match r {
            Ok(v) => target_expansion(string_views(specs@), max_targets as nat) matches Ok(hosts)
                && lex_sorted(string_views(v@)) && string_views(v@).to_set() == hosts.to_set()
                && 1 <= max_targets && v@.len() <= max_targets,
            Err(e) => target_expansion(string_views(specs@), max_targets as nat) == Err::<
                Seq<Seq<char>>,
                TargetFault,
            >(e@),
        },
{
    if max_targets == 0 {
        return Err(TargetError::ZeroMaxTargets);
    }
    let ghost views = string_views(specs@);
    let mut sorted: Vec<Vec<char>> = Vec::new();
    let ghost mut hosts: Seq<Seq<char>> = Seq::empty();
    let mut i: usize = 0;
    while i < specs.len()
        invariant
            i <= specs.len(),
            views == string_views(specs@),
            max_targets > 0,
            expand_specs(views.take(i as int), max_targets as nat) == Ok::<
                Seq<Seq<char>>,
                TargetFault,
            >(hosts),
            lex_sorted(char_vec_views(sorted@)),
            char_vec_views(sorted@).to_set() == hosts.to_set(),
        decreases specs.len() - i,
    {
        proof {
            assert(views.take(i + 1).drop_last() == views.take(i as int));
            assert(views.take(i + 1).last() == specs@[i as int]@);
        }
        let spec = chars_of(specs[i].as_str());
        match expand_one(&spec, max_targets, &mut sorted) {
            Err(e) => {
                proof {
                    lemma_expand_error_extends(views, i as int + 1, max_targets as nat);
                }
                return Err(e);
            },
            Ok(()) => {
                proof {
                    let more = expand_spec(spec@, max_targets as nat)->Ok_0;
                    vstd::seq_lib::seq_to_set_distributes_over_add(hosts, more);
                    hosts = hosts + more;
                }
            },
        }
        i = i + 1;
    }
    assert(views.take(i as int) == views);
    proof {
        let sv = char_vec_views(sorted@);
        lemma_lex_sorted_no_duplicates(sv);
        sv.unique_seq_to_set();
    }
    if sorted.len() > max_targets {
        return Err(TargetError::ListTooLong(sorted.len(), max_targets));
    }
    let out = strings_from(&sorted);
    Ok(out)
}

proof fn lemma_expand_error_extends(specs: Seq<Seq<char>>, k: int, max: nat)
    requires
        1 <= k <= specs.len(),
        expand_specs(specs.take(k), max) is Err,
    ensures
        expand_specs(specs, max) == expand_specs(specs.take(k), max),
    decreases specs.len() - k,
{
    if k < specs.len() {
        let t = specs.drop_last();
        assert(t.take(k) == specs.take(k));
        lemma_expand_error_extends(t, k, max);
    } else {
        assert(specs.take(k) == specs);
    }
}

proof fn lemma_decimal_octet(o: nat)
    requires
        o <= 255,
    ensures
        parse_octet(decimal(o)) == Some(o),
{
    lemma_decimal_value(o);
    lemma_decimal_digits(o);
    reveal_with_fuel(decimal, 3);
    if o >= 10 {
        assert(decimal(o)[0] == decimal(o / 10)[0]);
        if o >= 100 {
            assert(decimal(o / 10)[0] == decimal(o / 100)[0]);
            assert(decimal(o / 100)[0] == digit_char(o / 100));
        } else {
            assert(decimal(o / 10)[0] == digit_char(o / 10));
        }
    }
}

/// The four octets of an address make up its value.
proof fn lemma_octets_value(a: u32)
    ensures
        (a / 16777216) * 16777216 + ((a / 65536) % 256) * 65536 + ((a / 256) % 256) * 256 + a % 256
            == a,
        a / 16777216 <= 255,
{
    assert((a / 16777216) * 16777216 + ((a / 65536) % 256) * 65536 + ((a / 256) % 256) * 256 + a
        % 256 == a) by (bit_vector);
    assert(a / 16777216 <= 255) by (bit_vector);
}

/// The characters of an address's text are digits and dots.
pub open spec fn address_char(c: char) -> bool {
    ('0' <= c && c <= '9') || c == '.'
}

proof fn lemma_ipv4_text_chars(a: u32)
    ensures
        forall|i: int| 0 <= i < ipv4_text(a).len() ==> address_char(#[trigger] ipv4_text(a)[i]),
        ipv4_text(a).len() >= 7,
{
    lemma_decimal_digits((a / 16777216) as nat);
    lemma_decimal_digits(((a / 65536) % 256) as nat);
    lemma_decimal_digits(((a / 256) % 256) as nat);
    lemma_decimal_digits((a % 256) as nat);
}

/// The dotted-quad text of an address reads back as that address.
pub proof fn lemma_ipv4_round_trip(a: u32)
    ensures
        parse_ipv4(ipv4_text(a)) == Some(a),
{
    let o1 = (a / 16777216) as nat;
    let o2 = ((a / 65536) % 256) as nat;
    let o3 = ((a / 256) % 256) as nat;
    let o4 = (a % 256) as nat;
    lemma_octets_value(a);
    let d1 = decimal(o1);
    let d2 = decimal(o2);
    let d3 = decimal(o3);
    let d4 = decimal(o4);
    lemma_decimal_digits(o1);
    lemma_decimal_digits(o2);
    lemma_decimal_digits(o3);
    lemma_decimal_digits(o4);
    lemma_split_on_single(d1, '.');
    lemma_split_on_append(d1, d2, '.');
    lemma_split_on_append(d1 + seq!['.'] + d2, d3, '.');
    lemma_split_on_append(d1 + seq!['.'] + d2 + seq!['.'] + d3, d4, '.');
    let parts = split_on(ipv4_text(a), '.');
    assert(parts =~= seq![d1, d2, d3, d4]);
    lemma_decimal_octet(o1);
    lemma_decimal_octet(o2);
    lemma_decimal_octet(o3);
    lemma_decimal_octet(o4);
}

/// The LAN shorthand `a.b.c.d-n` stands for the explicit range from the address
/// to octet `n` of its /24: both forms expand to the same hosts, or are both refused.
pub proof fn lemma_shorthand_range(a: u32, n: u8, max: nat)
    ensures
        ({
            let last = (a - a % 256 + n) as u32;
            let short = ipv4_text(a) + "-"@ + decimal(n as nat);
            let long = ipv4_text(a) + "-"@ + ipv4_text(last);
            &&& expand_spec(short, max) == range_targets(short, a as nat, last as nat, max)
            &&& expand_spec(long, max) == range_targets(long, a as nat, last as nat, max)
            &&& (expand_spec(short, max) is Ok <==> expand_spec(long, max) is Ok)
            &&& (expand_spec(short, max) is Ok ==> expand_spec(short, max) == expand_spec(long, max))
        }),
{
    reveal_strlit("-");
    assert(a - a % 256 + n <= 4294967295) by (bit_vector);
    let last = (a - a % 256 + n) as u32;
    let first = ipv4_text(a);
    let d = decimal(n as nat);
    let full = ipv4_text(last);
    let short = first + "-"@ + d;
    let long = first + "-"@ + full;
    let k = first.len() as int;
    lemma_ipv4_text_chars(a);
    lemma_ipv4_text_chars(last);
    lemma_decimal_digits(n as nat);
    lemma_ipv4_round_trip(a);
    lemma_ipv4_round_trip(last);
    lemma_parse_decimal(n as nat, 255);
    lemma_split_on_single(d, '.');
    assert(!address_char('/') && !address_char('-'));
    assert forall|i: int| 0 <= i < short.len() implies short[i] != '/' by {
        if i < k {
            assert(address_char(first[i]));
        } else if i > k {
            assert(short[i] == d[i - k - 1]);
        }
    }
    assert forall|i: int| 0 <= i < long.len() implies long[i] != '/' by {
        if i < k {
            assert(address_char(first[i]));
        } else if i > k {
            assert(long[i] == full[i - k - 1]);
            assert(address_char(full[i - k - 1]));
        }
    }
    assert forall|i: int| 0 <= i < k implies short[i] != '-' && long[i] != '-' by {
        assert(address_char(first[i]));
    }
    lemma_split_once_absent(short, '/');
    lemma_split_once_absent(long, '/');
    lemma_split_once_at(short, '-', k);
    lemma_split_once_at(long, '-', k);
    assert(short.take(k) =~= first);
    assert(short.skip(k + 1) =~= d);
    assert(long.take(k) =~= first);
    assert(long.skip(k + 1) =~= full);
    assert(seq![d].len() != 4);
}

} // verus!
