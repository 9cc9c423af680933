//! Port lists such as `80,443,8000-8002`: parsing and rendering.
use vstd::prelude::*;
use crate::numbers::{lemma_parse_decimal, parse_unsigned, parse_unsigned_exec};
use crate::text::{
    chars_of, nonempty_trimmed, decimal, lemma_decimal_digits, lemma_split_on_append,
    lemma_split_on_single, lemma_split_once_absent, lemma_split_once_at, lemma_trim_unchanged,
    push_chars, push_decimal, push_str, split_chars, split_on, split_once, split_once_chars,
    string_from_chars, trim, trim_chars,
};

verus! {

/// Why a port list is refused; each carries the offending text.
#[derive(Debug, PartialEq, Eq)]
pub enum PortError {
    /// The text before `-` in a range is not a port number.
    InvalidRangeStart(String),
    /// The text after `-` in a range is not a port number.
    InvalidRangeEnd(String),
    /// A range whose bounds are zero or out of order.
    InvalidRange(String),
    /// An item that is not a port number.
    InvalidPort(String),
    /// The port number 0.
    ZeroPort,
}

/// `PortError` with its texts as character sequences.
pub enum PortFault {
    InvalidRangeStart(Seq<char>),
    InvalidRangeEnd(Seq<char>),
    InvalidRange(Seq<char>),
    InvalidPort(Seq<char>),
    ZeroPort,
}

impl View for PortError {
    type V = PortFault;

    open spec fn view(&self) -> PortFault {
        match self {
            PortError::InvalidRangeStart(s) => PortFault::InvalidRangeStart(s@),
            PortError::InvalidRangeEnd(s) => PortFault::InvalidRangeEnd(s@),
            PortError::InvalidRange(s) => PortFault::InvalidRange(s@),
            PortError::InvalidPort(s) => PortFault::InvalidPort(s@),
            PortError::ZeroPort => PortFault::ZeroPort,
        }
    }
}

impl PortFault {
    pub open spec fn message(self) -> Seq<char> {
        match self {
            PortFault::InvalidRangeStart(s) => "invalid port range start: "@ + s,
            PortFault::InvalidRangeEnd(s) => "invalid port range end: "@ + s,
            PortFault::InvalidRange(s) => "invalid port range "@ + s + "; expected 1-65535"@,
            PortFault::InvalidPort(s) => "invalid port: "@ + s,
            PortFault::ZeroPort => "port 0 is not a TCP service port"@,
        }
    }
}

impl PortError {
    /// The text that the command line shows for this error.
    pub fn message(&self) -> (s: String)
        ensures
            s@ == self@.message(),
    {
        let mut v: Vec<char> = Vec::new();
        match self {
            PortError::InvalidRangeStart(t) => {
                push_str(&mut v, "invalid port range start: ");
                push_str(&mut v, t.as_str());
            },
            PortError::InvalidRangeEnd(t) => {
                push_str(&mut v, "invalid port range end: ");
                push_str(&mut v, t.as_str());
            },
            PortError::InvalidRange(t) => {
                push_str(&mut v, "invalid port range ");
                push_str(&mut v, t.as_str());
                push_str(&mut v, "; expected 1-65535");
            },
            PortError::InvalidPort(t) => {
                push_str(&mut v, "invalid port: ");
                push_str(&mut v, t.as_str());
            },
            PortError::ZeroPort => {
                push_str(&mut v, "port 0 is not a TCP service port");
            },
        }
        string_from_chars(&v)
    }
}

/// The ports one item of a port list stands for, as an inclusive range: a single
/// port `p` or a range `a-b` (each side trimmed), with no port 0 and `a <= b`.
pub open spec fn port_item(item: Seq<char>) -> Result<(u16, u16), PortFault> {
    match split_once(item, '-') {
        Some((first, last)) => match parse_unsigned(trim(first), 65535) {
            None => Err(PortFault::InvalidRangeStart(first)),
            Some(a) => match parse_unsigned(trim(last), 65535) {
                None => Err(PortFault::InvalidRangeEnd(last)),
                Some(b) => if a == 0 || b == 0 || a > b {
                    Err(PortFault::InvalidRange(item))
                } else {
                    Ok((a as u16, b as u16))
                },
            },
        },
        None => match parse_unsigned(item, 65535) {
            None => Err(PortFault::InvalidPort(item)),
            Some(p) => if p == 0 {
                Err(PortFault::ZeroPort)
            } else {
                Ok((p as u16, p as u16))
            },
        },
    }
}

/// The items of a port list: its comma-separated pieces, trimmed, empty ones dropped.
pub open spec fn port_items(spec: Seq<char>) -> Seq<Seq<char>> {
    nonempty_trimmed(split_on(spec, ','))
}

/// The ranges of all items, or the error of the first item that is refused.
pub open spec fn port_ranges(items: Seq<Seq<char>>) -> Result<Seq<(u16, u16)>, PortFault>
    decreases items.len(),
{
    if items.len() == 0 {
        Ok(Seq::empty())
    } else {
        match port_ranges(items.drop_last()) {
            Err(e) => Err(e),
            Ok(rs) => match port_item(items.last()) {
                Err(e) => Err(e),
                Ok(r) => Ok(rs.push(r)),
            },
        }
    }
}

/// Whether port `p` lies in one of the ranges.
pub open spec fn covered(rs: Seq<(u16, u16)>, p: u16) -> bool {
    exists|i: int| 0 <= i < rs.len() && (#[trigger] rs[i]).0 <= p && p <= rs[i].1
}

pub open spec fn strictly_increasing(v: Seq<u16>) -> bool {
    forall|i: int, j: int| 0 <= i < j < v.len() ==> v[i] < v[j]
}

/// What a port list means: the ports of its items, or the first error.
pub open spec fn port_list(spec: Seq<char>) -> Result<Seq<(u16, u16)>, PortFault> {
    port_ranges(port_items(spec))
}

/// Whether `ports` lists exactly the ports covered by `rs`, ascending, once each.
pub open spec fn lists_covered(ports: Seq<u16>, rs: Seq<(u16, u16)>) -> bool {
    &&& strictly_increasing(ports)
    &&& forall|p: u16| ports.contains(p) <==> covered(rs, p)
}

fn parse_port_item(item: &[char]) -> (r: Result<(u16, u16), PortError>)
    ensures
        match r {
            Ok(rg) => port_item(item@) == Ok::<(u16, u16), PortFault>(rg),
            Err(e) => port_item(item@) == Err::<(u16, u16), PortFault>(e@),
        },
{
    match split_once_chars(item, '-') {
        Some((first, last)) => {
            let ft = trim_chars(&first);
            match parse_unsigned_exec(&ft, 65535) {
                None => Err(PortError::InvalidRangeStart(string_from_chars(&first))),
                Some(a) => {
                    let lt = trim_chars(&last);
                    match parse_unsigned_exec(&lt, 65535) {
                        None => Err(PortError::InvalidRangeEnd(string_from_chars(&last))),
                        Some(b) => {
                            if a == 0 || b == 0 || a > b {
                                Err(PortError::InvalidRange(string_from_chars(item)))
                            } else {
                                Ok((a as u16, b as u16))
                            }
                        },
                    }
                },
            }
        },
        None => match parse_unsigned_exec(item, 65535) {
            None => Err(PortError::InvalidPort(string_from_chars(item))),
            Some(p) => {
                if p == 0 {
                    Err(PortError::ZeroPort)
                } else {
                    Ok((p as u16, p as u16))
                }
            },
        },
    }
}

/// Parses a port list into its ports, ascending and without repeats.
pub fn parse_ports(spec: &str) -> (r: Result<Vec<u16>, PortError>)
    ensures
        match r {
            Ok(v) => port_list(spec@) matches Ok(rs) && lists_covered(v@, rs),
            Err(e) => port_list(spec@) == Err::<Seq<(u16, u16)>, PortFault>(e@),
        },
{
    let cs = chars_of(spec);
    let parts = split_chars(&cs, ',');
    let ghost pieces = split_on(spec@, ',');
    let ghost items = port_items(spec@);
    let mut marks: Vec<bool> = vec![false; 65536];
    let ghost mut rs: Seq<(u16, u16)> = Seq::empty();
    let mut k: usize = 0;
    while k < parts.len()
        invariant
            k <= parts.len(),
            parts@.len() == pieces.len(),
            forall|j: int| 0 <= j < parts@.len() ==> #[trigger] parts@[j]@ == pieces[j],
            items == nonempty_trimmed(pieces),
            pieces == split_on(spec@, ','),
            items == port_items(spec@),
            port_ranges(nonempty_trimmed(pieces.take(k as int))) == Ok::<
                Seq<(u16, u16)>,
                PortFault,
            >(rs),
            marks@.len() == 65536,
            forall|p: u16| #[trigger] marks@[p as int] <==> covered(rs, p),
        decreases parts.len() - k,
    {
        proof {
            assert(pieces.take(k + 1).drop_last() == pieces.take(k as int));
            assert(pieces.take(k + 1).last() == parts@[k as int]@);
        }
        let item = trim_chars(parts[k].as_slice());
        proof {
            let pre = nonempty_trimmed(pieces.take(k as int));
            if item@.len() > 0 {
                assert(nonempty_trimmed(pieces.take(k + 1)) == pre.push(item@));
                assert(pre.push(item@).drop_last() == pre);
                assert(pre.push(item@).last() == item@);
            } else {
                assert(nonempty_trimmed(pieces.take(k + 1)) == pre);
            }
        }
        if item.len() > 0 {
            match parse_port_item(&item) {
                Err(e) => {
                    proof {
                        let pre = nonempty_trimmed(pieces.take(k as int));
                        assert(port_ranges(pre.push(item@)) == Err::<Seq<(u16, u16)>, PortFault>(
                            e@,
                        ));
                        lemma_port_ranges_error_extends(pieces, k as int + 1);
                    }
                    return Err(e);
                },
                Ok((a, b)) => {
                    let ghost old_rs = rs;
                    proof {
                        rs = rs.push((a, b));
                    }
                    let mut p: u32 = a as u32;
                    while p <= b as u32
                        invariant
                            a as u32 <= p <= b as u32 + 1,
                            b <= 65535,
                            marks@.len() == 65536,
                            rs == old_rs.push((a, b)),
                            forall|q: u16| #[trigger]
                                marks@[q as int] <==> (covered(old_rs, q) || (a <= q && (q as u32)
                                    < p)),
                        decreases b as u32 + 1 - p,
                    {
                        marks.set(p as usize, true);
                        p = p + 1;
                    }
                    proof {
                        assert forall|q: u16| #[trigger]
                            marks@[q as int] <==> covered(rs, q) by {
                            if covered(old_rs, q) {
                                let i = choose|i: int|
                                    0 <= i < old_rs.len() && (#[trigger] old_rs[i]).0 <= q && q
                                        <= old_rs[i].1;
                                assert(rs[i] == old_rs[i]);
                            }
                            if a <= q && q <= b {
                                assert(rs[old_rs.len() as int] == (a, b));
                            }
                            if covered(rs, q) {
                                let i = choose|i: int|
                                    0 <= i < rs.len() && (#[trigger] rs[i]).0 <= q && q <= rs[i].1;
                                if i < old_rs.len() {
                                    assert(rs[i] == old_rs[i]);
                                }
                            }
                        }
                    }
                },
            }
        }
        k = k + 1;
    }
    assert(pieces.take(k as int) == pieces);
    proof {
        lemma_ranges_avoid_zero(nonempty_trimmed(pieces));
    }
    let mut ports: Vec<u16> = Vec::new();
    let mut p: u32 = 1;
    while p <= 65535
        invariant
            1 <= p <= 65536,
            marks@.len() == 65536,
            forall|q: u16| #[trigger] marks@[q as int] <==> covered(rs, q),
            !covered(rs, 0u16),
            strictly_increasing(ports@),
            forall|i: int| 0 <= i < ports@.len() ==> (#[trigger] ports@[i] as u32) < p,
            forall|q: u16|
                1 <= q && (q as u32) < p ==> (ports@.contains(q) <==> #[trigger] marks@[q as int]),
            forall|i: int| 0 <= i < ports@.len() ==> 1 <= #[trigger] ports@[i],
        decreases 65536 - p,
    {
        let ghost old_ports = ports@;
        if marks[p as usize] {
            ports.push(p as u16);
        }
        proof {
            assert forall|q: u16| ports@.contains(q) implies old_ports.contains(q) || q as u32
                == p by {
                let i = choose|i: int| 0 <= i < ports@.len() && ports@[i] == q;
                if i < old_ports.len() {
                    assert(old_ports[i] == q);
                }
            }
            assert forall|q: u16| old_ports.contains(q) implies ports@.contains(q) by {
                let i = choose|i: int| 0 <= i < old_ports.len() && old_ports[i] == q;
                assert(ports@[i] == q);
            }
            if marks@[p as int] {
                assert(ports@[old_ports.len() as int] == p as u16);
            }
        }
        p = p + 1;
    }
    proof {
        assert forall|q: u16| ports@.contains(q) <==> covered(rs, q) by {
            if q >= 1 {
                assert(ports@.contains(q) <==> marks@[q as int]);
            }
            if q == 0 && ports@.contains(q) {
                let i = choose|i: int| 0 <= i < ports@.len() && ports@[i] == q;
                assert(1 <= ports@[i]);
            }
        }
    }
    Ok(ports)
}

proof fn lemma_port_ranges_error_extends(pieces: Seq<Seq<char>>, k: int)
    requires
        1 <= k <= pieces.len(),
        port_ranges(nonempty_trimmed(pieces.take(k))) is Err,
    ensures
        port_ranges(nonempty_trimmed(pieces)) == port_ranges(nonempty_trimmed(pieces.take(k))),
    decreases pieces.len() - k,
{
    if k < pieces.len() {
        let t = pieces.drop_last();
        assert(t.take(k) == pieces.take(k));
        lemma_port_ranges_error_extends(t, k);
        let x = trim(pieces.last());
        if x.len() > 0 {
            assert(nonempty_trimmed(t).push(x).drop_last() == nonempty_trimmed(t));
        }
    } else {
        assert(pieces.take(k) == pieces);
    }
}

proof fn lemma_ranges_avoid_zero(items: Seq<Seq<char>>)
    ensures
        port_ranges(items) matches Ok(rs) ==> !covered(rs, 0u16),
    decreases items.len(),
{
    if items.len() > 0 {
        lemma_ranges_avoid_zero(items.drop_last());
        if let Ok(rs) = port_ranges(items) {
            let prev = port_ranges(items.drop_last())->Ok_0;
            assert forall|i: int| 0 <= i < rs.len() implies !((#[trigger] rs[i]).0 <= 0u16 && 0u16
                <= rs[i].1) by {
                if i < prev.len() {
                    assert(rs[i] == prev[i]);
                }
            }
        }
    }
}

/// The comma-separated decimal rendering of `ports`.
pub open spec fn join_ports(ports: Seq<u16>) -> Seq<char>
    decreases ports.len(),
{
    if ports.len() == 0 {
        Seq::empty()
    } else if ports.len() == 1 {
        decimal(ports[0] as nat)
    } else {
        join_ports(ports.drop_last()) + seq![','] + decimal(ports.last() as nat)
    }
}

/// The text that records which ports a scan attempted: `1-65535` for the full
/// range, otherwise the ports joined by commas.
pub open spec fn port_spec_text(ports: Seq<u16>) -> Seq<char> {
    if ports.len() == 65535 && ports[0] == 1 && ports.last() == 65535 {
        "1-65535"@
    } else {
        join_ports(ports)
    }
}

/// Renders the attempted ports as a port list.
pub fn ports_to_spec(ports: &[u16]) -> (s: String)
    ensures
        s@ == port_spec_text(ports@),
{
    if ports.len() == 65535 && ports[0] == 1 && ports[ports.len() - 1] == 65535 {
        return String::from_str("1-65535");
    }
    let mut v: Vec<char> = Vec::new();
    let mut i: usize = 0;
    while i < ports.len()
        invariant
            i <= ports.len(),
            v@ == join_ports(ports@.take(i as int)),
        decreases ports.len() - i,
    {
        proof {
            assert(ports@.take(i + 1).drop_last() == ports@.take(i as int));
        }
        if i > 0 {
            v.push(',');
        }
        let ghost before = v@;
        push_decimal(&mut v, ports[i] as u64);
        proof {
            if i == 0 {
                assert(v@ == decimal(ports@[0] as nat));
            } else {
                assert(v@ == join_ports(ports@.take(i as int)) + seq![','] + decimal(
                    ports@[i as int] as nat,
                ));
            }
        }
        i = i + 1;
    }
    assert(ports@.take(i as int) == ports@);
    string_from_chars(&v)
}


/// The decimal rendering of each port.
pub open spec fn port_numerals(ports: Seq<u16>) -> Seq<Seq<char>> {
    Seq::new(ports.len(), |i: int| decimal(ports[i] as nat))
}

/// One single-port range per port.
pub open spec fn single_ranges(ports: Seq<u16>) -> Seq<(u16, u16)> {
    Seq::new(ports.len(), |i: int| (ports[i], ports[i]))
}

proof fn lemma_join_ports_split(ports: Seq<u16>)
    requires
        ports.len() >= 1,
    ensures
        split_on(join_ports(ports), ',') == port_numerals(ports),
    decreases ports.len(),
{
    let last = decimal(ports.last() as nat);
    lemma_decimal_digits(ports.last() as nat);
    if ports.len() == 1 {
        lemma_split_on_single(last, ',');
        assert(seq![last] =~= port_numerals(ports));
    } else {
        let init = ports.drop_last();
        lemma_join_ports_split(init);
        lemma_split_on_append(join_ports(init), last, ',');
        assert(port_numerals(init).push(last) =~= port_numerals(ports));
    }
}

proof fn lemma_numerals_trimmed(ports: Seq<u16>)
    ensures
        nonempty_trimmed(port_numerals(ports)) == port_numerals(ports),
    decreases ports.len(),
{
    if ports.len() > 0 {
        let init = ports.drop_last();
        let last = decimal(ports.last() as nat);
        lemma_numerals_trimmed(init);
        lemma_decimal_digits(ports.last() as nat);
        lemma_trim_unchanged(last);
        assert(port_numerals(ports).drop_last() =~= port_numerals(init));
        assert(port_numerals(init).push(last) =~= port_numerals(ports));
    }
}

proof fn lemma_numeral_item(p: u16)
    requires
        p >= 1,
    ensures
        port_item(decimal(p as nat)) == Ok::<(u16, u16), PortFault>((p, p)),
{
    lemma_decimal_digits(p as nat);
    lemma_split_once_absent(decimal(p as nat), '-');
    lemma_parse_decimal(p as nat, 65535);
}

proof fn lemma_numerals_ranges(ports: Seq<u16>)
    requires
        forall|i: int| 0 <= i < ports.len() ==> 1 <= #[trigger] ports[i],
    ensures
        port_ranges(port_numerals(ports)) == Ok::<Seq<(u16, u16)>, PortFault>(single_ranges(ports)),
    decreases ports.len(),
{
    if ports.len() > 0 {
        let init = ports.drop_last();
        assert forall|i: int| 0 <= i < init.len() implies 1 <= #[trigger] init[i] by {
            assert(init[i] == ports[i]);
        }
        lemma_numerals_ranges(init);
        assert(1 <= ports[ports.len() - 1]);
        lemma_numeral_item(ports.last());
        let items = port_numerals(ports);
        assert(items.drop_last() =~= port_numerals(init));
        assert(items.last() == decimal(ports.last() as nat));
        assert(port_item(items.last()) == Ok::<(u16, u16), PortFault>((ports.last(), ports.last())));
        assert(single_ranges(init).push((ports.last(), ports.last())) =~= single_ranges(ports));
        assert(port_ranges(items) == Ok::<Seq<(u16, u16)>, PortFault>(
            single_ranges(init).push((ports.last(), ports.last())),
        ));
    } else {
        assert(port_numerals(ports).len() == 0);
        assert(single_ranges(ports) =~= Seq::<(u16, u16)>::empty());
    }
}

proof fn lemma_single_ranges_cover(ports: Seq<u16>)
    ensures
        forall|q: u16| ports.contains(q) <==> covered(single_ranges(ports), q),
{
    assert forall|q: u16| ports.contains(q) <==> covered(single_ranges(ports), q) by {
        if ports.contains(q) {
            let i = choose|i: int| 0 <= i < ports.len() && ports[i] == q;
            assert(single_ranges(ports)[i] == (q, q));
        }
        if covered(single_ranges(ports), q) {
            let i = choose|i: int|
                0 <= i < single_ranges(ports).len() && (#[trigger] single_ranges(ports)[i]).0 <= q
                    && q <= single_ranges(ports)[i].1;
            assert(ports[i] == q);
        }
    }
}

proof fn lemma_increasing_gap(ports: Seq<u16>, i: int, j: int)
    requires
        strictly_increasing(ports),
        0 <= i <= j < ports.len(),
    ensures
        ports[j] - ports[i] >= j - i,
    decreases j - i,
{
    if i < j {
        lemma_increasing_gap(ports, i, j - 1);
    }
}

/// Two ascending lists without repeats that hold the same ports are equal.
proof fn lemma_increasing_unique(a: Seq<u16>, b: Seq<u16>)
    requires
        strictly_increasing(a),
        strictly_increasing(b),
        forall|q: u16| a.contains(q) <==> b.contains(q),
    ensures
        a == b,
    decreases a.len(),
{
    if a.len() == 0 {
        if b.len() > 0 {
            assert(b.contains(b[0]));
        }
        assert(b =~= a);
    } else {
        assert(a.contains(a.last()));
        assert(b.len() > 0);
        assert(b.contains(b.last()));
        let ia = choose|i: int| 0 <= i < a.len() && a[i] == b.last();
        let ib = choose|i: int| 0 <= i < b.len() && b[i] == a.last();
        assert(a.last() == b.last()) by {
            if ia < a.len() - 1 {
                assert(a[ia] < a[a.len() - 1]);
            }
            if ib < b.len() - 1 {
                assert(b[ib] < b[b.len() - 1]);
            }
        }
        let a2 = a.drop_last();
        let b2 = b.drop_last();
        assert forall|q: u16| a2.contains(q) <==> b2.contains(q) by {
            if a2.contains(q) {
                let i = choose|i: int| 0 <= i < a2.len() && a2[i] == q;
                assert(a[i] == q && a[i] < a[a.len() - 1]);
                assert(a.contains(q));
                let k = choose|k: int| 0 <= k < b.len() && b[k] == q;
                assert(k != b.len() - 1);
                assert(b2[k] == q);
            }
            if b2.contains(q) {
                let i = choose|i: int| 0 <= i < b2.len() && b2[i] == q;
                assert(b[i] == q && b[i] < b[b.len() - 1]);
                assert(b.contains(q));
                let k = choose|k: int| 0 <= k < a.len() && a[k] == q;
                assert(k != a.len() - 1);
                assert(a2[k] == q);
            }
        }
        lemma_increasing_unique(a2, b2);
        assert(a =~= a2.push(a.last()));
        assert(b =~= b2.push(b.last()));
    }
}

proof fn lemma_full_range_text()
    ensures
        port_list("1-65535"@) == Ok::<Seq<(u16, u16)>, PortFault>(seq![(1u16, 65535u16)]),
{
    reveal_strlit("1-65535");
    let s = "1-65535"@;
    lemma_split_on_single(s, ',');
    lemma_trim_unchanged(s);
    let parts = seq![s];
    let none = Seq::<Seq<char>>::empty();
    assert(parts.drop_last() =~= none);
    assert(parts.last() == s);
    assert(nonempty_trimmed(none) == none);
    assert(nonempty_trimmed(parts) == nonempty_trimmed(none).push(s));
    assert(nonempty_trimmed(parts) =~= seq![s]);
    assert(port_items(s) =~= seq![s]);
    lemma_split_once_at(s, '-', 1);
    assert(decimal(1) =~= s.take(1));
    assert(decimal(6) == seq!['6']);
    assert(decimal(65) == seq!['6', '5']);
    assert(decimal(655) == seq!['6', '5', '5']);
    assert(decimal(6553) == seq!['6', '5', '5', '3']);
    assert(decimal(65535) =~= s.skip(2));
    lemma_decimal_digits(1);
    lemma_decimal_digits(65535);
    lemma_trim_unchanged(decimal(1));
    lemma_trim_unchanged(decimal(65535));
    lemma_parse_decimal(1, 65535);
    lemma_parse_decimal(65535, 65535);
    assert(port_item(s) == Ok::<(u16, u16), PortFault>((1u16, 65535u16)));
    assert(port_ranges(none) == Ok::<Seq<(u16, u16)>, PortFault>(Seq::empty()));
    assert(Seq::<(u16, u16)>::empty().push((1u16, 65535u16)) =~= seq![(1u16, 65535u16)]);
}

proof fn lemma_full_range_ports(ports: Seq<u16>)
    requires
        strictly_increasing(ports),
        ports.len() == 65535,
        ports[0] == 1,
        ports.last() == 65535,
    ensures
        forall|q: u16| ports.contains(q) <==> covered(seq![(1u16, 65535u16)], q),
{
    assert forall|q: u16| ports.contains(q) <==> covered(seq![(1u16, 65535u16)], q) by {
        if 1 <= q {
            let i = q - 1;
            lemma_increasing_gap(ports, 0, i);
            lemma_increasing_gap(ports, i, 65534);
            assert(ports[i] == q);
        }
        if ports.contains(q) {
            let i = choose|i: int| 0 <= i < ports.len() && ports[i] == q;
            lemma_increasing_gap(ports, 0, i);
        }
        let rs = seq![(1u16, 65535u16)];
        if 1 <= q {
            assert(rs[0].0 <= q && q <= rs[0].1);
        }
    }
}

/// Rendering ports with `ports_to_spec` and reading the text back with
/// `parse_ports` gives the same ports: for an ascending list without repeats or
/// port 0, the text is accepted and the only list `parse_ports` can return for it
/// is that list.
pub proof fn lemma_port_spec_round_trip(ports: Seq<u16>)
    requires
        strictly_increasing(ports),
        forall|i: int| 0 <= i < ports.len() ==> 1 <= #[trigger] ports[i],
    ensures
        match port_list(port_spec_text(ports)) {
            Ok(rs) => lists_covered(ports, rs) && forall|v: Seq<u16>|
                lists_covered(v, rs) ==> v == ports,
            Err(_) => false,
        },
{
    if ports.len() == 65535 && ports[0] == 1 && ports.last() == 65535 {
        lemma_full_range_text();
        lemma_full_range_ports(ports);
    } else if ports.len() == 0 {
        let parts = seq![Seq::<char>::empty()];
        let none = Seq::<Seq<char>>::empty();
        assert(parts.drop_last() =~= none);
        assert(trim(parts.last()).len() == 0);
        assert(nonempty_trimmed(none) == none);
        assert(nonempty_trimmed(parts) == nonempty_trimmed(none));
        assert(port_items(port_spec_text(ports)) =~= Seq::<Seq<char>>::empty());
        assert forall|q: u16| !ports.contains(q) && !covered(Seq::<(u16, u16)>::empty(), q) by {}
    } else {
        lemma_join_ports_split(ports);
        lemma_numerals_trimmed(ports);
        lemma_numerals_ranges(ports);
        lemma_single_ranges_cover(ports);
    }
    if let Ok(rs) = port_list(port_spec_text(ports)) {
        assert forall|v: Seq<u16>| lists_covered(v, rs) implies v == ports by {
            lemma_increasing_unique(v, ports);
        }
    }
}

} // verus!
