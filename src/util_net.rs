//! IPv4 addresses, CIDR rules and the engines that match addresses against them.
use std::collections::HashSet;
use vstd::prelude::*;
use crate::util_str::{
    decimal, lemma_decimal_parses, lemma_decimal_without, lemma_split_append,
    lemma_split_without_sep, parse_decimal, parse_unsigned, split_on, split_str, to_decimal, views,
};

verus! {

broadcast use vstd::std_specs::hash::group_hash_axioms;

/// The 32-bit mask with `len` leading one-bits and `32 - len` trailing zero-bits.
pub open spec fn mask_of(len: u32) -> u32 {
    if len == 0 {
        0
    } else if len >= 32 {
        0xFFFF_FFFFu32
    } else {
        0xFFFF_FFFFu32 << (32 - len) as u32
    }
}

/// The numeric value of four octets read in network (big-endian) order.
pub open spec fn octets_value(o: [u8; 4]) -> u32 {
    (o[0] as int * 0x100_0000 + o[1] as int * 0x1_0000 + o[2] as int * 0x100 + o[3] as int) as u32
}

/// `a` and `b` agree on their first `len` bits.
pub open spec fn prefix_matches(a: u32, b: u32, len: u32) -> bool {
    a & mask_of(len) == b & mask_of(len)
}

/// The mask with `mask_len` leading one-bits; a length over 32 gives all ones.
pub fn ipv4_mask(mask_len: u8) -> (r: u32)
    ensures
        r == mask_of(mask_len as u32),
{
    if mask_len == 0 {
        0
    } else if mask_len >= 32 {
        0xFFFF_FFFF
    } else {
        0xFFFF_FFFFu32 << (32 - mask_len as u32)
    }
}

/// The mask with `mask_len` leading one-bits, for a prefix length in `[0, 32]`.
pub fn get_ipv4_mask(mask_len: u8) -> (r: u32)
    requires
        mask_len <= 32,
    ensures
        r == mask_of(mask_len as u32),
{
    ipv4_mask(mask_len)
}

/// Reads four octets as a big-endian 32-bit number.
pub fn ipv4_to_u32(ipv4: &[u8; 4]) -> (r: u32)
    ensures
        r == octets_value(*ipv4),
{
    let a = ipv4[0] as u32;
    let b = ipv4[1] as u32;
    let c = ipv4[2] as u32;
    let d = ipv4[3] as u32;
    a * 0x100_0000 + b * 0x1_0000 + c * 0x100 + d
}

/// The mask of every length has exactly that many leading one-bits.
pub proof fn lemma_mask_leading_ones(len: u32, i: u32)
    requires
        len <= 32,
        i < 32,
    ensures
        mask_of(0) == 0,
        mask_of(32) == 0xFFFF_FFFFu32,
        ((mask_of(len) >> (31 - i) as u32) & 1 == 1) <==> i < len,
{
    if len == 0 {
        assert(((0u32 >> (31 - i) as u32) & 1 == 1) == false) by (bit_vector)
            requires i < 32;
    } else if len == 32 {
        assert(((0xFFFF_FFFFu32 >> (31 - i) as u32) & 1 == 1)) by (bit_vector)
            requires i < 32;
    } else {
        assert((((0xFFFF_FFFFu32 << (32 - len) as u32) >> (31 - i) as u32) & 1 == 1) <==> i < len)
            by (bit_vector)
            requires 0 < len < 32, i < 32;
    }
}

/// The octets that dotted-decimal text `s` spells: exactly four pieces between
/// dots, each an unsigned number in `[0, 255]`.
pub open spec fn parse_address(s: Seq<char>) -> Option<Seq<u8>> {
    let parts = split_on(s, '.');
    if parts.len() == 4 && (forall|i: int| 0 <= i < 4 ==> (#[trigger] parse_unsigned(parts[i], 255)) is Some) {
        Some(Seq::new(4, |i: int| parse_unsigned(parts[i], 255)->0 as u8))
    } else {
        None
    }
}

/// The canonical dotted-decimal text of four octets.
pub open spec fn dotted(o: Seq<u8>) -> Seq<char> {
    decimal(o[0] as nat) + seq!['.'] + decimal(o[1] as nat) + seq!['.'] + decimal(o[2] as nat) + seq!['.']
        + decimal(o[3] as nat)
}

/// Parses dotted-decimal IPv4 text such as `10.0.0.1`.
pub fn parse_ipv4_addr(addr: &str) -> (r: Option<[u8; 4]>)
    ensures
        r is Some <==> parse_address(addr@) is Some,
        r is Some ==> parse_address(addr@) == Some(r->0@),
{
    let parts = split_str(addr, '.');
    proof {
        assert(views(parts@).len() == parts@.len());
    }
    if parts.len() != 4 {
        return None;
    }
    let ghost pv = split_on(addr@, '.');
    proof {
        assert forall|i: int| 0 <= i < 4 implies #[trigger] parts@[i]@ == pv[i] by {
            assert(views(parts@)[i] == parts@[i]@);
        }
    }
    let a = match parse_decimal(parts[0].as_str(), 255) {
        Some(v) => v,
        None => return None,
    };
    let b = match parse_decimal(parts[1].as_str(), 255) {
        Some(v) => v,
        None => return None,
    };
    let c = match parse_decimal(parts[2].as_str(), 255) {
        Some(v) => v,
        None => return None,
    };
    let d = match parse_decimal(parts[3].as_str(), 255) {
        Some(v) => v,
        None => return None,
    };
    let octets = [a as u8, b as u8, c as u8, d as u8];
    proof {
        assert forall|i: int| 0 <= i < 4 implies (#[trigger] parse_unsigned(pv[i], 255)) is Some by {
            if i == 0 {} else if i == 1 {} else if i == 2 {} else {}
        }
        assert(octets@ =~= Seq::new(4, |i: int| parse_unsigned(pv[i], 255)->0 as u8));
    }
    Some(octets)
}

/// Writes four octets as dotted-decimal text.
pub fn octets_to_address(o: &[u8; 4]) -> (r: String)
    ensures
        r@ == dotted(o@),
{
    let dot = ".";
    proof {
        reveal_strlit(".");
    }
    let mut r = to_decimal(o[0] as u32);
    r.append(dot);
    r.append(to_decimal(o[1] as u32).as_str());
    r.append(dot);
    r.append(to_decimal(o[2] as u32).as_str());
    r.append(dot);
    r.append(to_decimal(o[3] as u32).as_str());
    r
}

/// Parsing the canonical text of any four octets gives back those octets, and
/// writing them out again gives back the same text.
pub proof fn lemma_address_round_trip(o: [u8; 4])
    ensures
        parse_address(dotted(o@)) == Some(o@),
        dotted(parse_address(dotted(o@))->0) == dotted(o@),
{
    let d0 = decimal(o[0] as nat);
    let d1 = decimal(o[1] as nat);
    let d2 = decimal(o[2] as nat);
    let d3 = decimal(o[3] as nat);
    lemma_decimal_without(o[0] as nat, '.');
    lemma_decimal_without(o[1] as nat, '.');
    lemma_decimal_without(o[2] as nat, '.');
    lemma_decimal_without(o[3] as nat, '.');
    lemma_decimal_parses(o[0] as nat, 255);
    lemma_decimal_parses(o[1] as nat, 255);
    lemma_decimal_parses(o[2] as nat, 255);
    lemma_decimal_parses(o[3] as nat, 255);
    lemma_split_without_sep(d0, '.');
    lemma_split_append(d0, d1, '.');
    lemma_split_append(d0 + seq!['.'] + d1, d2, '.');
    lemma_split_append(d0 + seq!['.'] + d1 + seq!['.'] + d2, d3, '.');
    let parts = split_on(dotted(o@), '.');
    assert(parts =~= seq![d0, d1, d2, d3]);
    assert forall|i: int| 0 <= i < 4 implies (#[trigger] parse_unsigned(parts[i], 255)) is Some by {
        if i == 0 {} else if i == 1 {} else if i == 2 {} else {}
    }
    assert(Seq::new(4, |i: int| parse_unsigned(parts[i], 255)->0 as u8) =~= o@);
}


/// The prefix length and octets that rule text `s` spells: `a.b.c.d` alone means
/// `/32`; after one `/` the length must be a number in `[0, 32]`.
pub open spec fn parse_rule(s: Seq<char>) -> Option<(Seq<u8>, u8)> {
    let parts = split_on(s, '/');
    if parts.len() == 1 {
        match parse_address(parts[0]) {
            Some(o) => Some((o, 32u8)),
            None => None,
        }
    } else if parts.len() == 2 {
        match (parse_address(parts[0]), parse_unsigned(parts[1], 32)) {
            (Some(o), Some(m)) => Some((o, m as u8)),
            _ => None,
        }
    } else {
        None
    }
}

/// The address used when listening text names only a port.
pub open spec fn default_listen_addr() -> Seq<u8> {
    seq![127u8, 0u8, 0u8, 1u8]
}

/// The octets and port that listening text `s` spells: `addr:port`, where an
/// empty address means `127.0.0.1` and text after a second `:` is not read.
pub open spec fn parse_listen(s: Seq<char>) -> Option<(Seq<u8>, u16)> {
    let parts = split_on(s, ':');
    let addr = if parts[0].len() == 0 {
        Some(default_listen_addr())
    } else {
        parse_address(parts[0])
    };
    if addr is Some && parts.len() >= 2 && parse_unsigned(parts[1], 0xFFFF) is Some {
        Some((addr->0, parse_unsigned(parts[1], 0xFFFF)->0 as u16))
    } else {
        None
    }
}

/// A transport endpoint: an address of one family and a port.
#[derive(Debug, Clone, Copy, PartialEq, Eq)]
pub enum SocketAddress {
    V4([u8; 4], u16),
    V6([u16; 8], u16),
}

/// One network address. Only IPv4 is supported.
#[derive(Debug, Clone, PartialOrd, PartialEq, Ord, Eq)]
pub enum IpAddress {
    Ipv4([u8; 4]),
}

impl IpAddress {
    /// The four octets of the address.
    pub open spec fn octets(&self) -> [u8; 4] {
        match self {
            IpAddress::Ipv4(o) => *o,
        }
    }

    /// Parses dotted-decimal text.
    pub fn parse_ipv4(addr: &str) -> (r: Option<Self>)
        ensures
            r is Some <==> parse_address(addr@) is Some,
            r is Some ==> parse_address(addr@) == Some(r->0.octets()@),
    {
        match parse_ipv4_addr(addr) {
            Some(o) => Some(IpAddress::Ipv4(o)),
            None => None,
        }
    }

    /// The dotted-decimal text of the address.
    pub fn to_address(&self) -> (r: String)
        ensures
            r@ == dotted(self.octets()@),
    {
        match self {
            IpAddress::Ipv4(o) => octets_to_address(o),
        }
    }

    /// The address as a big-endian 32-bit number.
    pub fn to_u32(&self) -> (r: u32)
        ensures
            r == octets_value(self.octets()),
    {
        match self {
            IpAddress::Ipv4(o) => ipv4_to_u32(o),
        }
    }

    /// Whether the endpoint carries exactly this address; an IPv6 endpoint never does.
    pub fn is_matches(&self, socket_addr: &SocketAddress) -> (r: bool)
        ensures
            r == rule_matches(self.octets(), 32, *socket_addr),
    {
        match self {
            IpAddress::Ipv4(o) => IpAddressMask::Ipv4(*o, 32).is_matches(socket_addr),
        }
    }
}

/// Whether the rule with octets `o` and prefix length `len` covers the endpoint.
pub open spec fn rule_matches(o: [u8; 4], len: u8, socket_addr: SocketAddress) -> bool {
    match socket_addr {
        SocketAddress::V4(a, _) => prefix_matches(octets_value(o), octets_value(a), len as u32),
        SocketAddress::V6(_, _) => false,
    }
}

/// A CIDR rule: an IPv4 address and a prefix length.
#[derive(Debug, Clone)]
pub enum IpAddressMask {
    Ipv4([u8; 4], u8),
}

impl IpAddressMask {
    /// The octets of the rule's address.
    pub open spec fn octets(&self) -> [u8; 4] {
        match self {
            IpAddressMask::Ipv4(o, _) => *o,
        }
    }

    /// The rule's prefix length.
    pub open spec fn mask_len(&self) -> u8 {
        match self {
            IpAddressMask::Ipv4(_, m) => *m,
        }
    }

    /// Parses `a.b.c.d` (prefix length 32) or `a.b.c.d/len` with `len` in `[0, 32]`.
    pub fn parse_ipv4(addr: &str) -> (r: Option<Self>)
        ensures
            r is Some <==> parse_rule(addr@) is Some,
            r is Some ==> parse_rule(addr@) == Some((r->0.octets()@, r->0.mask_len())),
    {
        let parts = split_str(addr, '/');
        let ghost pv = split_on(addr@, '/');
        proof {
            assert(views(parts@).len() == parts@.len());
            assert forall|i: int| 0 <= i < parts@.len() implies #[trigger] parts@[i]@ == pv[i] by {
                assert(views(parts@)[i] == parts@[i]@);
            }
        }
        let mask: u8 = if parts.len() == 1 {
            32
        } else if parts.len() == 2 {
            match parse_decimal(parts[1].as_str(), 32) {
                Some(m) => m as u8,
                None => return None,
            }
        } else {
            return None;
        };
        match parse_ipv4_addr(parts[0].as_str()) {
            Some(o) => Some(IpAddressMask::Ipv4(o, mask)),
            None => None,
        }
    }

    /// The rule as `a.b.c.d/len`, with the length always written.
    pub fn to_address(&self) -> (r: String)
        ensures
            r@ == dotted(self.octets()@) + seq!['/'] + decimal(self.mask_len() as nat),
    {
        match self {
            IpAddressMask::Ipv4(o, mask) => {
                let mut r = octets_to_address(o);
                let slash = "/";
                proof {
                    reveal_strlit("/");
                }
                r.append(slash);
                r.append(to_decimal(*mask as u32).as_str());
                r
            },
        }
    }

    /// Whether the endpoint's address agrees with the rule's on the rule's prefix;
    /// an IPv6 endpoint never matches.
    pub fn is_matches(&self, socket_addr: &SocketAddress) -> (r: bool)
        ensures
            r == rule_matches(self.octets(), self.mask_len(), *socket_addr),
    {
        match socket_addr {
            SocketAddress::V4(a, _) => match self {
                IpAddressMask::Ipv4(o, mask) => {
                    let self_u32 = ipv4_to_u32(o);
                    let addr_u32 = ipv4_to_u32(a);
                    let mask_u32 = ipv4_mask(*mask);
                    self_u32 & mask_u32 == addr_u32 & mask_u32
                },
            },
            SocketAddress::V6(_, _) => false,
        }
    }
}


/// The octets and prefix length of a rule.
pub open spec fn rule_view(m: IpAddressMask) -> (Seq<u8>, u8) {
    (m.octets()@, m.mask_len())
}

/// The rules that the texts `ss` spell, in order, leaving out each text that is
/// no rule.
pub open spec fn parse_rules(ss: Seq<Seq<char>>) -> Seq<(Seq<u8>, u8)>
    decreases ss.len(),
{
    if ss.len() == 0 {
        Seq::empty()
    } else {
        let front = parse_rules(ss.drop_last());
        match parse_rule(ss.last()) {
            Some(r) => front.push(r),
            None => front,
        }
    }
}

/// The text of one rule: `a.b.c.d/len`.
pub open spec fn rule_text(m: IpAddressMask) -> Seq<char> {
    dotted(m.octets()@) + seq!['/'] + decimal(m.mask_len() as nat)
}

/// The texts of `rules` separated by a comma and a space.
pub open spec fn rules_text(rules: Seq<IpAddressMask>) -> Seq<char>
    decreases rules.len(),
{
    if rules.len() == 0 {
        Seq::empty()
    } else if rules.len() == 1 {
        rule_text(rules[0])
    } else {
        rules_text(rules.drop_last()) + ", "@ + rule_text(rules.last())
    }
}

/// An ordered list of CIDR rules, matched by trying each in turn.
#[derive(Debug, Clone)]
pub struct IpAddressMaskGroup {
    pub ip_address_mask_group: Vec<IpAddressMask>,
}

impl IpAddressMaskGroup {
    /// Whether some rule of the group covers the endpoint.
    pub open spec fn matches(&self, socket_addr: SocketAddress) -> bool {
        exists|i: int|
            0 <= i < self.ip_address_mask_group@.len() && rule_matches(
                #[trigger] self.ip_address_mask_group@[i].octets(),
                self.ip_address_mask_group@[i].mask_len(),
                socket_addr,
            )
    }

    /// Builds a group from rule texts; a text that is no rule is left out.
    pub fn parse(ip_mask_group: &[String]) -> (r: Self)
        ensures
            r.ip_address_mask_group@.map_values(|m: IpAddressMask| rule_view(m)) == parse_rules(
                views(ip_mask_group@),
            ),
    {
        let mut ret: Vec<IpAddressMask> = Vec::new();
        let n = ip_mask_group.len();
        proof {
            assert(views(ip_mask_group@).take(0) =~= Seq::<Seq<char>>::empty());
            assert(ret@.map_values(|m: IpAddressMask| rule_view(m)) =~= Seq::<(Seq<u8>, u8)>::empty());
        }
        for i in 0..n
            invariant
                n == ip_mask_group@.len(),
                ret@.map_values(|m: IpAddressMask| rule_view(m)) == parse_rules(
                    views(ip_mask_group@).take(i as int),
                ),
        {
            let ghost before = ret@.map_values(|m: IpAddressMask| rule_view(m));
            proof {
                let t = views(ip_mask_group@).take(i + 1);
                assert(t.drop_last() =~= views(ip_mask_group@).take(i as int));
                assert(t.last() == ip_mask_group@[i as int]@);
            }
            if let Some(ip_mask) = IpAddressMask::parse_ipv4(ip_mask_group[i].as_str()) {
                ret.push(ip_mask);
                proof {
                    assert(ret@.map_values(|m: IpAddressMask| rule_view(m)) =~= before.push(
                        rule_view(ip_mask),
                    ));
                }
            }
        }
        proof {
            assert(views(ip_mask_group@).take(n as int) =~= views(ip_mask_group@));
        }
        IpAddressMaskGroup { ip_address_mask_group: ret }
    }

    /// The group as `[a.b.c.d/len, ...]`, rules separated by a comma and a space.
    pub fn to_text(&self) -> (r: String)
        ensures
            r@ == seq!['['] + rules_text(self.ip_address_mask_group@) + seq![']'],
    {
        let open = "[";
        let close = "]";
        let comma = ", ";
        proof {
            reveal_strlit("[");
            reveal_strlit("]");
        }
        let mut r = String::from_str(open);
        let n = self.ip_address_mask_group.len();
        let ghost rules = self.ip_address_mask_group@;
        proof {
            assert(rules.take(0) =~= Seq::<IpAddressMask>::empty());
        }
        for i in 0..n
            invariant
                n == rules.len(),
                rules == self.ip_address_mask_group@,
                comma@ == ", "@,
                r@ == seq!['['] + rules_text(rules.take(i as int)),
        {
            proof {
                assert(rules.take(i + 1).drop_last() =~= rules.take(i as int));
                assert(rules.take(i + 1).last() == rules[i as int]);
            }
            let ghost before = rules_text(rules.take(i as int));
            if i > 0 {
                r.append(comma);
            }
            r.append(self.ip_address_mask_group[i].to_address().as_str());
            proof {
                if i == 0 {
                    assert(before =~= Seq::<char>::empty());
                    assert(rules.take(1)[0] == rules[0]);
                    assert(r@ =~= seq!['['] + rules_text(rules.take(i + 1)));
                } else {
                    assert(r@ =~= seq!['['] + (before + ", "@ + rule_text(rules[i as int])));
                }
            }
        }
        proof {
            assert(rules.take(n as int) =~= rules);
        }
        r.append(close);
        r
    }

    /// Whether the group holds no rule.
    pub fn is_empty(&self) -> (r: bool)
        ensures
            r == (self.ip_address_mask_group@.len() == 0),
    {
        self.ip_address_mask_group.len() == 0
    }

    /// Whether some rule of the group covers the endpoint; false for an empty group.
    pub fn is_matches(&self, socket_addr: &SocketAddress) -> (r: bool)
        ensures
            r == self.matches(*socket_addr),
    {
        let n = self.ip_address_mask_group.len();
        for i in 0..n
            invariant
                n == self.ip_address_mask_group@.len(),
                forall|j: int|
                    0 <= j < i ==> !rule_matches(
                        #[trigger] self.ip_address_mask_group@[j].octets(),
                        self.ip_address_mask_group@[j].mask_len(),
                        *socket_addr,
                    ),
        {
            if self.ip_address_mask_group[i].is_matches(socket_addr) {
                return true;
            }
        }
        false
    }

    /// True for an empty group (no rule means no restriction); otherwise whether
    /// some rule covers the endpoint.
    pub fn is_empty_or_matches(&self, socket_addr: &SocketAddress) -> (r: bool)
        ensures
            r == (self.ip_address_mask_group@.len() == 0 || self.matches(*socket_addr)),
    {
        self.is_empty() || self.is_matches(socket_addr)
    }
}

/// Parses listening text `addr:port`; an empty address means `127.0.0.1`.
pub fn parse_ip_and_port(listen: &str) -> (r: Option<([u8; 4], u16)>)
    ensures
        r is Some <==> parse_listen(listen@) is Some,
        r matches Some((o, port)) ==> parse_listen(listen@) == Some((o@, port)),
{
    let parts = split_str(listen, ':');
    let ghost pv = split_on(listen@, ':');
    proof {
        assert(views(parts@).len() == parts@.len());
        assert forall|i: int| 0 <= i < parts@.len() implies #[trigger] parts@[i]@ == pv[i] by {
            assert(views(parts@)[i] == parts@[i]@);
        }
    }
    let listen_addr: [u8; 4] = if parts[0].as_str().is_empty() {
        let d = [127u8, 0u8, 0u8, 1u8];
        proof {
            assert(d@ =~= default_listen_addr());
        }
        d
    } else {
        match parse_ipv4_addr(parts[0].as_str()) {
            Some(o) => o,
            None => return None,
        }
    };
    if parts.len() < 2 {
        return None;
    }
    let listen_port = match parse_decimal(parts[1].as_str(), 0xFFFF) {
        Some(p) => p as u16,
        None => return None,
    };
    Some((listen_addr, listen_port))
}

/// An IPv4 address with a port.
#[derive(Debug, Clone)]
pub struct IpAddressAndPort {
    pub ip: IpAddress,
    pub port: u16,
}

impl IpAddressAndPort {
    /// Parses listening text `addr:port`; an empty address means `127.0.0.1`.
    pub fn parse(ip_address_and_port: &str) -> (r: Option<Self>)
        ensures
            r is Some <==> parse_listen(ip_address_and_port@) is Some,
            r is Some ==> parse_listen(ip_address_and_port@) == Some((r->0.ip.octets()@, r->0.port)),
    {
        match parse_ip_and_port(ip_address_and_port) {
            Some((ipv4, port)) => Some(IpAddressAndPort { ip: IpAddress::Ipv4(ipv4), port }),
            None => None,
        }
    }

    /// The text `a.b.c.d:port`.
    pub fn to_address(&self) -> (r: String)
        ensures
            r@ == dotted(self.ip.octets()@) + seq![':'] + decimal(self.port as nat),
    {
        let mut r = self.ip.to_address();
        let colon = ":";
        proof {
            reveal_strlit(":");
        }
        r.append(colon);
        r.append(to_decimal(self.port as u32).as_str());
        r
    }

    /// The octets and the port.
    pub fn to_ipv4_and_port(&self) -> (r: ([u8; 4], u16))
        ensures
            r.0 == self.ip.octets(),
            r.1 == self.port,
    {
        match self.ip {
            IpAddress::Ipv4(ipv4) => (ipv4, self.port),
        }
    }
}


/// The 64-bit key of a prefix length and a masked address: the length in the high
/// 32 bits, the address in the low 32 bits.
pub open spec fn mask_key(len: u32, net: u32) -> u64 {
    (len as int * 0x1_0000_0000 + net as int) as u64
}

/// The prefix length that a key holds.
pub open spec fn key_len(k: u64) -> int {
    k as int / 0x1_0000_0000
}

/// The masked address that a key holds.
pub open spec fn key_net(k: u64) -> u32 {
    (k as int % 0x1_0000_0000) as u32
}

/// `net` has no one-bit beyond its first `len` bits.
pub open spec fn is_masked(len: u32, net: u32) -> bool {
    net & mask_of(len) == net
}

/// Masking twice is masking once.
pub proof fn lemma_mask_idempotent(a: u32, len: u32)
    ensures
        is_masked(len, a & mask_of(len)),
{
    let m = mask_of(len);
    assert((a & m) & m == a & m) by (bit_vector);
}

/// Distinct pairs of a prefix length in `[0, 32]` and an address give distinct keys.
pub proof fn lemma_key_injective(len1: u32, net1: u32, len2: u32, net2: u32)
    requires
        len1 <= 32,
        len2 <= 32,
        is_masked(len1, net1),
        is_masked(len2, net2),
        (len1, net1) != (len2, net2),
    ensures
        mask_key(len1, net1) != mask_key(len2, net2),
{
}

/// A registry of CIDR rules answering membership queries with one set lookup per
/// prefix length between the shortest registered length and the query's length,
/// whatever the number of rules.
pub struct IpAndIpMaskMatcher {
    min_mask_len: u8,
    ip_and_ip_mask_set: HashSet<u64>,
}

impl Default for IpAndIpMaskMatcher {
    fn default() -> (r: Self)
        ensures
            r.wf(),
            r.rules() == Set::<(u32, u32)>::empty(),
            r.min_len() == 32,
    {
        Self::new()
    }
}

impl IpAndIpMaskMatcher {
    /// The shortest length is at most 32 and bounds every key's length from below,
    /// and every key holds a length in `[0, 32]` and an address masked to it.
    pub closed spec fn wf(&self) -> bool {
        &&& self.min_mask_len <= 32
        &&& forall|k: u64| #[trigger]
            self.ip_and_ip_mask_set@.contains(k) ==> {
                &&& self.min_mask_len <= key_len(k) <= 32
                &&& is_masked(key_len(k) as u32, key_net(k))
            }
    }

    /// The registered rules, as pairs of a prefix length in `[0, 32]` and an
    /// address masked to that length.
    pub closed spec fn rules(&self) -> Set<(u32, u32)> {
        Set::new(
            |p: (u32, u32)|
                p.0 <= 32 && is_masked(p.0, p.1) && self.ip_and_ip_mask_set@.contains(mask_key(p.0, p.1)),
        )
    }

    /// The shortest prefix length registered so far; 32 before any.
    pub closed spec fn min_len(&self) -> u32 {
        self.min_mask_len as u32
    }

    /// Some registered rule no longer than `query_len` covers `addr`.
    pub open spec fn covers(&self, addr: u32, query_len: u32) -> bool {
        exists|len: u32, net: u32|
            #[trigger] self.rules().contains((len, net)) && len <= query_len && prefix_matches(addr, net, len)
    }

    /// A matcher with no rule.
    pub fn new() -> (r: Self)
        ensures
            r.wf(),
            r.rules() == Set::<(u32, u32)>::empty(),
            r.min_len() == 32,
    {
        let r = IpAndIpMaskMatcher { min_mask_len: 32, ip_and_ip_mask_set: HashSet::with_capacity(128) };
        proof {
            assert(r.rules() =~= Set::<(u32, u32)>::empty());
        }
        r
    }

    /// The key of `ip_addr_as_u64` masked to `mask_len` bits.
    fn get_mask_n_ip(ip_addr_as_u64: u64, mask_len: u8) -> (r: u64)
        requires
            ip_addr_as_u64 <= 0xFFFF_FFFF,
            mask_len <= 32,
        ensures
            r == mask_key(mask_len as u32, (ip_addr_as_u64 as u32) & mask_of(mask_len as u32)),
    {
        let mask = (mask_len as u64) * 0x1_0000_0000;
        let ip_mask_bits = get_ipv4_mask(mask_len);
        let net = ip_addr_as_u64 & (ip_mask_bits as u64);
        assert(net == ((ip_addr_as_u64 as u32) & ip_mask_bits) as u64) by (bit_vector)
            requires
                ip_addr_as_u64 <= 0xFFFF_FFFF,
                net == ip_addr_as_u64 & (ip_mask_bits as u64),
        ;
        mask + net
    }

    /// Registers the rule `ip_address/mask_len`; refused, with no change, when
    /// `mask_len` exceeds 32.
    pub fn add_ip_address_mask(&mut self, ip_address: &IpAddress, mask_len: u8) -> (r: bool)
        requires
            old(self).wf(),
        ensures
            final(self).wf(),
            r == (mask_len <= 32),
            r ==> final(self).rules() == old(self).rules().insert(
                (mask_len as u32, octets_value(ip_address.octets()) & mask_of(mask_len as u32)),
            ),
            r ==> final(self).min_len() == if mask_len < old(self).min_len() {
                mask_len as u32
            } else {
                old(self).min_len()
            },
            !r ==> *final(self) == *old(self),
    {
        if mask_len > 32 {
            return false;
        }
        if mask_len < self.min_mask_len {
            self.min_mask_len = mask_len;
        }
        let mask_n_ip = Self::get_mask_n_ip(ip_address.to_u32() as u64, mask_len);
        let ghost net = octets_value(ip_address.octets()) & mask_of(mask_len as u32);
        proof {
            lemma_mask_idempotent(octets_value(ip_address.octets()), mask_len as u32);
            assert(key_len(mask_n_ip) == mask_len);
            assert(key_net(mask_n_ip) == net);
        }
        self.ip_and_ip_mask_set.insert(mask_n_ip);
        proof {
            let new_rules = old(self).rules().insert((mask_len as u32, net));
            assert forall|p: (u32, u32)| #[trigger] self.rules().contains(p) == new_rules.contains(p) by {
                if p.0 <= 32 && is_masked(p.0, p.1) && mask_key(p.0, p.1) == mask_n_ip && p != (
                mask_len as u32, net) {
                    lemma_key_injective(p.0, p.1, mask_len as u32, net);
                }
            }
            assert(self.rules() =~= new_rules);
        }
        true
    }

    /// Registers the single address `ip_address` (prefix length 32).
    pub fn add_ip_address(&mut self, ip_address: &IpAddress) -> (r: bool)
        requires
            old(self).wf(),
        ensures
            final(self).wf(),
            r,
            final(self).rules() == old(self).rules().insert((32u32, octets_value(ip_address.octets()))),
            final(self).min_len() == old(self).min_len(),
    {
        proof {
            let a = octets_value(ip_address.octets());
            assert(a & 0xFFFF_FFFFu32 == a) by (bit_vector);
        }
        self.add_ip_address_mask(ip_address, 32)
    }

    /// Whether some registered rule covers `ip_address` exactly or more broadly.
    pub fn contains_ip_address(&self, ip_address: &IpAddress) -> (r: bool)
        requires
            self.wf(),
        ensures
            r == self.covers(octets_value(ip_address.octets()), 32),
    {
        self.contains_ip_address_mask(ip_address, 32)
    }

    /// Whether some registered rule with a prefix length of at most `mask_len`
    /// covers `ip_address`; false when `mask_len` exceeds 32.
    pub fn contains_ip_address_mask(&self, ip_address: &IpAddress, mask_len: u8) -> (r: bool)
        requires
            self.wf(),
        ensures
            r == (mask_len <= 32 && self.covers(octets_value(ip_address.octets()), mask_len as u32)),
    {
        if mask_len > 32 {
            return false;
        }
        let addr = ip_address.to_u32();
        let ip_addr_as_u64 = addr as u64;
        let mut i_mask_len: u8 = mask_len + 1;
        while i_mask_len > self.min_mask_len
            invariant
                self.wf(),
                i_mask_len <= mask_len + 1,
                mask_len <= 32,
                addr == octets_value(ip_address.octets()),
                ip_addr_as_u64 == addr as u64,
                forall|len: u32|
                    i_mask_len <= len <= mask_len ==> !self.ip_and_ip_mask_set@.contains(
                        #[trigger] mask_key(len, addr & mask_of(len)),
                    ),
            decreases i_mask_len,
        {
            i_mask_len = i_mask_len - 1;
            let mask_n_ip = Self::get_mask_n_ip(ip_addr_as_u64, i_mask_len);
            if self.ip_and_ip_mask_set.contains(&mask_n_ip) {
                proof {
                    let len = i_mask_len as u32;
                    lemma_mask_idempotent(addr, len);
                    assert(self.rules().contains((len, addr & mask_of(len))));
                }
                return true;
            }
        }
        proof {
            if self.covers(addr, mask_len as u32) {
                let (len, net) = choose|len: u32, net: u32|
                    #[trigger] self.rules().contains((len, net)) && len <= mask_len as u32
                        && prefix_matches(addr, net, len);
                assert(self.ip_and_ip_mask_set@.contains(mask_key(len, net)));
                assert(key_len(mask_key(len, net)) == len);
                assert(net == addr & mask_of(len));
                assert(false);
            }
        }
        false
    }
}


/// A rule of prefix length 32 matches only its own address; a rule of prefix
/// length 0 matches every IPv4 address.
pub proof fn lemma_rule_extremes(o: [u8; 4], a: [u8; 4], port: u16)
    ensures
        rule_matches(o, 32, SocketAddress::V4(a, port)) <==> o@ == a@,
        rule_matches(o, 0, SocketAddress::V4(a, port)),
{
    let x = octets_value(o);
    let y = octets_value(a);
    assert(x & 0xFFFF_FFFFu32 == x && y & 0xFFFF_FFFFu32 == y) by (bit_vector);
    assert(x & 0u32 == 0 && y & 0u32 == 0) by (bit_vector);
    if x == y {
        assert(o[0] == a[0] && o[1] == a[1] && o[2] == a[2] && o[3] == a[3]);
        assert(o@ =~= a@);
    }
}

/// An empty group matches no endpoint, and lets every endpoint through when an
/// empty group means no restriction.
pub proof fn lemma_empty_group(g: IpAddressMaskGroup, socket_addr: SocketAddress)
    requires
        g.ip_address_mask_group@.len() == 0,
    ensures
        !g.matches(socket_addr),
        g.ip_address_mask_group@.len() == 0 || g.matches(socket_addr),
{
}

/// After registering `127.0.0.0/24` alone, every address of `127.0.0.0/24` is
/// covered for each query length in `[24, 32]`, and none for query length 23.
pub proof fn lemma_matcher_with_one_rule(m: IpAndIpMaskMatcher, a: [u8; 4], query_len: u32)
    requires
        m.rules() == Set::<(u32, u32)>::empty().insert(
            (24u32, octets_value([127u8, 0u8, 0u8, 0u8]) & mask_of(24)),
        ),
        a[0] == 127 && a[1] == 0 && a[2] == 0,
    ensures
        24 <= query_len <= 32 ==> m.covers(octets_value(a), query_len),
        !m.covers(octets_value(a), 23),
{
    let x = octets_value(a);
    let net = octets_value([127u8, 0u8, 0u8, 0u8]) & mask_of(24);
    assert(net == 0x7F00_0000u32) by (bit_vector)
        requires net == 0x7F00_0000u32 & (0xFFFF_FFFFu32 << 8u32);
    assert(0x7F00_0000u32 <= x <= 0x7F00_00FFu32);
    assert(x & (0xFFFF_FFFFu32 << 8u32) == 0x7F00_0000u32) by (bit_vector)
        requires 0x7F00_0000u32 <= x <= 0x7F00_00FFu32;
    assert(prefix_matches(x, net, 24));
    assert(m.rules().contains((24u32, net)));
    if 24 <= query_len <= 32 {
        assert(m.rules().contains((24u32, net)) && 24 <= query_len && prefix_matches(x, net, 24));
    }
}

/// After registering `0.0.0.0/0`, every address is covered for every query
/// length in `[0, 32]`.
pub proof fn lemma_matcher_with_wildcard(m: IpAndIpMaskMatcher, a: [u8; 4], query_len: u32)
    requires
        m.rules().contains((0u32, octets_value([0u8, 0u8, 0u8, 0u8]) & mask_of(0))),
        query_len <= 32,
    ensures
        m.covers(octets_value(a), query_len),
{
    let x = octets_value(a);
    let net = octets_value([0u8, 0u8, 0u8, 0u8]) & mask_of(0);
    assert(net == 0u32 & 0u32);
    assert(0u32 & 0u32 == 0 && x & 0u32 == 0) by (bit_vector);
    assert(prefix_matches(x, net, 0));
}

} // verus!
