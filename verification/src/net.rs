//! Network addresses: the address a peer connects from, and the address or
//! block of addresses that a client is allowed to connect from.

use vstd::prelude::*;
use crate::error::Error;
use crate::text::{
    concat, contains_char, find_from, index_of, lemma_split_concat, lemma_split_none, split,
    split_text, to_chars, views,
};

verus! {

/// Whether `iptools::iprange::IpRange::new` accepts the text as a block of
/// addresses: an address, a block in CIDR notation, or an address with a
/// netmask.
pub uninterp spec fn ip_range_valid(text: Seq<char>) -> bool;

/// Whether the block that `iptools` reads from `range` holds the address
/// written as `address`, as `IpRange::contains` says; nothing where one of
/// the two is not read.
pub uninterp spec fn ip_range_contains(range: Seq<char>, address: Seq<char>) -> Option<bool>;

/// The text that `iptools::ipv6::long2ip` writes for an IPv6 address.
pub uninterp spec fn ipv6_text(address: u128) -> Seq<char>;

/// The IPv6 address that `iptools::ipv6::ip2long` reads from a text;
/// nothing where the text is no IPv6 address.
pub uninterp spec fn ipv6_of_text(text: Seq<char>) -> Option<u128>;

/// `iptools::ipv6::ip2long`: the IPv6 address that a text denotes, as a
/// number, the first segment the most significant. The result depends on
/// the text alone.
#[verifier::external_body]
fn read_ipv6(text: &str) -> (r: Option<u128>)
    ensures
        r == ipv6_of_text(text@),
{
    iptools::ipv6::ip2long(text).ok()
}

/// `IpRange::new` with the text as the start and no end: whether the text
/// is read as a block of addresses. The result depends on the text alone.
/// A text that would denote the whole of the IPv6 addresses is left out:
/// counting that block overflows.
#[verifier::external_body]
fn range_is_valid(text: &str) -> (r: bool)
    requires
        !is_whole_v6(text@),
    ensures
        r == ip_range_valid(text@),
{
    iptools::iprange::IpRange::new(text, "").is_ok()
}

/// `IpRange::contains` on the block that `IpRange::new` reads from `range`:
/// whether the block holds `address`; nothing where the block or the
/// address is not read. The result depends on the two texts alone. A block
/// that would be the whole of the IPv6 addresses is left out, as above.
#[verifier::external_body]
fn range_contains(range: &str, address: &str) -> (r: Option<bool>)
    requires
        !is_whole_v6(range@),
    ensures
        r == ip_range_contains(range@, address@),
{
    iptools::iprange::IpRange::new(range, "").ok()?.contains(address).ok()
}

/// `iptools::ipv6::long2ip`: an IPv6 address in its canonical text. The
/// result depends on the address alone.
#[verifier::external_body]
fn write_ipv6(address: u128) -> (r: String)
    ensures
        r@ == ipv6_text(address),
{
    iptools::ipv6::long2ip(address, false)
}

/// A decimal digit.
pub open spec fn is_digit(c: char) -> bool {
    '0' <= c <= '9'
}

/// The value of a decimal digit.
pub open spec fn digit_value(c: char) -> nat {
    (c as u32 - '0' as u32) as nat
}

/// The digit of a value below ten.
pub open spec fn digit_of(n: nat) -> char {
    if n == 0 {
        '0'
    } else if n == 1 {
        '1'
    } else if n == 2 {
        '2'
    } else if n == 3 {
        '3'
    } else if n == 4 {
        '4'
    } else if n == 5 {
        '5'
    } else if n == 6 {
        '6'
    } else if n == 7 {
        '7'
    } else if n == 8 {
        '8'
    } else {
        '9'
    }
}

/// The number that a run of digits denotes in base ten.
pub open spec fn number(s: Seq<char>) -> nat
    decreases s.len(),
{
    if s.len() == 0 {
        0
    } else {
        number(s.drop_last()) * 10 + digit_value(s.last())
    }
}

/// A number in base ten, without leading zeros.
pub open spec fn decimal(n: nat) -> Seq<char>
    decreases n,
{
    if n < 10 {
        seq![digit_of(n)]
    } else {
        decimal(n / 10).push(digit_of(n % 10))
    }
}

/// One of the four numbers of an IPv4 address as it is written: one to
/// three digits, no zero in front of others, at most 255.
pub open spec fn is_octet(s: Seq<char>) -> bool {
    &&& 1 <= s.len() <= 3
    &&& forall|i: int| 0 <= i < s.len() ==> is_digit(#[trigger] s[i])
    &&& s.len() > 1 ==> s[0] != '0'
    &&& number(s) <= 255
}

/// The IPv4 address that `s` denotes: four octets with dots between them,
/// the first the most significant. `None` where `s` has another shape.
pub open spec fn parse_ipv4(s: Seq<char>) -> Option<u32> {
    let p = split(s, '.');
    if p.len() == 4 && is_octet(p[0]) && is_octet(p[1]) && is_octet(p[2]) && is_octet(p[3]) {
        Some((((number(p[0]) * 256 + number(p[1])) * 256 + number(p[2])) * 256 + number(p[3])) as u32)
    } else {
        None
    }
}

/// An IPv4 address as it is written: its four octets, most significant
/// first, with dots between them.
pub open spec fn dotted_quad(a: u32) -> Seq<char> {
    decimal((a / 16777216) as nat) + seq!['.'] + decimal((a / 65536 % 256) as nat) + seq!['.']
        + decimal((a / 256 % 256) as nat) + seq!['.'] + decimal((a % 256) as nat)
}

/// Whether every character of `s` from position `from` on is `c`.
pub open spec fn all_from(s: Seq<char>, from: int, c: char) -> bool {
    forall|i: int| from <= i < s.len() ==> s[i] == c
}

/// The texts that would denote the whole of the IPv6 address space: those
/// with a colon in which a slash is followed by zeros and nothing else.
/// Such a block is not accepted.
pub open spec fn is_whole_v6(s: Seq<char>) -> bool {
    let i = index_of(s, '/');
    s.contains(':') && 0 <= i && i + 1 < s.len() && all_from(s, i + 1, '0')
}

/// A number written in base ten is digits without a zero in front that
/// denote the number; it is short where the number is small.
pub proof fn lemma_decimal(n: nat)
    ensures
        decimal(n).len() >= 1,
        forall|i: int| 0 <= i < decimal(n).len() ==> is_digit(#[trigger] decimal(n)[i]),
        number(decimal(n)) == n,
        decimal(n).len() > 1 ==> decimal(n)[0] != '0',
        n < 10 ==> decimal(n).len() == 1,
        n < 100 ==> decimal(n).len() <= 2,
        n < 1000 ==> decimal(n).len() <= 3,
        !decimal(n).contains('.'),
    decreases n,
{
    let d = decimal(n);
    if n < 10 {
        assert(d.drop_last() =~= Seq::<char>::empty());
        assert(number(d) == number(d.drop_last()) * 10 + digit_value(d.last()));
    } else {
        let head = decimal(n / 10);
        lemma_decimal(n / 10);
        assert(d.drop_last() =~= head);
        assert(d.last() == digit_of(n % 10));
        assert(number(d) == number(head) * 10 + digit_value(digit_of(n % 10)));
        assert forall|i: int| 0 <= i < d.len() implies is_digit(#[trigger] d[i]) by {
            if i < head.len() {
                assert(d[i] == head[i]);
            }
        }
        assert(d[0] == head[0]);
        if head.len() == 1 {
            if n / 10 >= 10 {
                lemma_decimal(n / 100);
            }
            assert(head[0] == digit_of(n / 10));
        }
    }
    if d.contains('.') {
        let i = choose|i: int| 0 <= i < d.len() && d[i] == '.';
        assert(is_digit(d[i]));
    }
}

/// A number up to 255 is written as an octet that denotes it.
pub proof fn lemma_octet(n: nat)
    requires
        n <= 255,
    ensures
        is_octet(decimal(n)),
        number(decimal(n)) == n,
        !decimal(n).contains('.'),
{
    lemma_decimal(n);
}

/// The four octets of an address make up the address.
pub proof fn lemma_octets(a: u32)
    ensures
        a / 16777216 <= 255,
        (((a / 16777216) * 256 + a / 65536 % 256) * 256 + a / 256 % 256) * 256 + a % 256 == a,
{
    let o0 = a as int / 16777216;
    let o1 = a as int / 65536 % 256;
    let o2 = a as int / 256 % 256;
    let o3 = a as int % 256;
    assert(o0 <= 255 && ((o0 * 256 + o1) * 256 + o2) * 256 + o3 == a) by (nonlinear_arith)
        requires
            0 <= a <= 0xffff_ffff,
            o0 == a as int / 16777216,
            o1 == a as int / 65536 % 256,
            o2 == a as int / 256 % 256,
            o3 == a as int % 256,
    ;
}

/// Four pieces without a dot, written with dots between them, split into
/// the four pieces.
pub proof fn lemma_quad_split(d0: Seq<char>, d1: Seq<char>, d2: Seq<char>, d3: Seq<char>)
    requires
        !d0.contains('.'),
        !d1.contains('.'),
        !d2.contains('.'),
        !d3.contains('.'),
    ensures
        split(d0 + seq!['.'] + d1 + seq!['.'] + d2 + seq!['.'] + d3, '.') == seq![d0, d1, d2, d3],
{
    let t2 = d2 + seq!['.'] + d3;
    let t1 = d1 + seq!['.'] + t2;
    assert(d0 + seq!['.'] + d1 + seq!['.'] + d2 + seq!['.'] + d3 =~= d0 + seq!['.'] + t1);
    lemma_split_concat(d0, '.', t1);
    lemma_split_concat(d1, '.', t2);
    lemma_split_concat(d2, '.', d3);
    lemma_split_none(d3, '.');
    assert(seq![d0] + (seq![d1] + (seq![d2] + seq![d3])) =~= seq![d0, d1, d2, d3]);
}

/// An IPv4 address that is written reads back as the address.
pub proof fn law_ipv4_round_trip(a: u32)
    ensures
        parse_ipv4(dotted_quad(a)) == Some(a),
{
    let o0 = (a / 16777216) as nat;
    let o1 = (a / 65536 % 256) as nat;
    let o2 = (a / 256 % 256) as nat;
    let o3 = (a % 256) as nat;
    lemma_octets(a);
    lemma_octet(o0);
    lemma_octet(o1);
    lemma_octet(o2);
    lemma_octet(o3);
    lemma_quad_split(decimal(o0), decimal(o1), decimal(o2), decimal(o3));
    let p = split(dotted_quad(a), '.');
    assert(p[0] == decimal(o0) && p[1] == decimal(o1) && p[2] == decimal(o2) && p[3] == decimal(o3));
}

/// The address of a peer: what `std::net::IpAddr` holds, as a number.
#[derive(Debug, Clone, Copy, PartialEq, Eq, Structural)]
pub enum IpAddress {
    /// An IPv4 address, the first octet the most significant.
    V4(u32),
    /// An IPv6 address, the first segment the most significant.
    V6(u128),
}

impl IpAddress {
    /// The address as it is written.
    pub open spec fn text(self) -> Seq<char> {
        match self {
            IpAddress::V4(a) => dotted_quad(a),
            IpAddress::V6(a) => ipv6_text(a),
        }
    }

    /// The address as it is written: an IPv4 address as a dotted quad, an
    /// IPv6 address in its canonical form.
    pub fn to_string(&self) -> (r: String)
        ensures
            r@ == self.text(),
    {
        match self {
            IpAddress::V4(a) => {
                let mut r = decimal_text((*a / 16777216) as u64);
                r.push('.');
                r.append(decimal_text((*a / 65536 % 256) as u64).as_str());
                r.push('.');
                r.append(decimal_text((*a / 256 % 256) as u64).as_str());
                r.push('.');
                r.append(decimal_text((*a % 256) as u64).as_str());
                r
            },
            IpAddress::V6(a) => write_ipv6(*a),
        }
    }

    /// Reads an address: IPv4 written as a dotted quad, or IPv6.
    pub fn parse(s: &str) -> (r: Option<IpAddress>)
        ensures
            r == parse_address(s@),
    {
        match IpAddress::parse_v4(s) {
            Some(address) => Some(address),
            None => match read_ipv6(s) {
                Some(a) => Some(IpAddress::V6(a)),
                None => None,
            },
        }
    }

    /// Reads an IPv4 address written as a dotted quad.
    pub fn parse_v4(s: &str) -> (r: Option<IpAddress>)
        ensures
            match parse_ipv4(s@) {
                Some(a) => r == Some(IpAddress::V4(a)),
                None => r is None,
            },
    {
        let parts = split_text(s, '.');
        if parts.len() != 4 {
            return None;
        }
        assert(views(parts@)[0] == parts[0]@ && views(parts@)[1] == parts[1]@ && views(parts@)[2]
            == parts[2]@ && views(parts@)[3] == parts[3]@);
        let a = parse_octet(parts[0].as_str());
        let b = parse_octet(parts[1].as_str());
        let c = parse_octet(parts[2].as_str());
        let d = parse_octet(parts[3].as_str());
        match (a, b, c, d) {
            (Some(a), Some(b), Some(c), Some(d)) => {
                let address: u32 = ((a as u32 * 256 + b as u32) * 256 + c as u32) * 256 + d as u32;
                Some(IpAddress::V4(address))
            },
            _ => None,
        }
    }
}

/// The digit of a value below ten.
fn digit_char(n: u64) -> (c: char)
    requires
        n < 10,
    ensures
        c == digit_of(n as nat),
{
    if n == 0 {
        '0'
    } else if n == 1 {
        '1'
    } else if n == 2 {
        '2'
    } else if n == 3 {
        '3'
    } else if n == 4 {
        '4'
    } else if n == 5 {
        '5'
    } else if n == 6 {
        '6'
    } else if n == 7 {
        '7'
    } else if n == 8 {
        '8'
    } else {
        '9'
    }
}

/// A number in base ten, without leading zeros.
pub fn decimal_text(n: u64) -> (r: String)
    ensures
        r@ == decimal(n as nat),
    decreases n,
{
    if n < 10 {
        let mut r = String::new();
        r.push(digit_char(n));
        proof {
            assert(r@ =~= seq![digit_of(n as nat)]);
        }
        r
    } else {
        let mut r = decimal_text(n / 10);
        r.push(digit_char(n % 10));
        r
    }
}

/// Reads one of the four numbers of an IPv4 address.
fn parse_octet(s: &str) -> (r: Option<u8>)
    ensures
        is_octet(s@) ==> (r matches Some(n) && n == number(s@)),
        !is_octet(s@) ==> r is None,
{
    let v = to_chars(s);
    if v.len() < 1 || v.len() > 3 {
        return None;
    }
    if v.len() > 1 && v[0] == '0' {
        return None;
    }
    let mut n: u32 = 0;
    let mut i: usize = 0;
    while i < v.len()
        invariant
            i <= v.len() <= 3,
            v@ == s@,
            forall|k: int| 0 <= k < i ==> is_digit(#[trigger] v@[k]),
            n == number(v@.take(i as int)),
            n < 1000,
            i == 0 ==> n == 0,
            i == 1 ==> n < 10,
            i == 2 ==> n < 100,
        decreases v.len() - i,
    {
        let c = v[i];
        if !('0' <= c && c <= '9') {
            return None;
        }
        proof {
            assert(v@.take(i + 1).drop_last() =~= v@.take(i as int));
            assert(v@.take(i + 1).last() == c);
        }
        n = n * 10 + (c as u32 - '0' as u32);
        i += 1;
    }
    proof {
        assert(v@.take(v.len() as int) =~= v@);
    }
    if n > 255 {
        return None;
    }
    Some(n as u8)
}

/// An address, or a block of addresses by its text.
#[derive(Debug, PartialEq, Eq)]
pub enum IpOrRange {
    /// One address.
    IP(IpAddress),
    /// A block of addresses as it was written: in CIDR notation, say.
    Range(String),
}

/// An address or a block of addresses as a value.
pub enum IpOrRangeView {
    IP(IpAddress),
    Range(Seq<char>),
}

impl View for IpOrRange {
    type V = IpOrRangeView;

    open spec fn view(&self) -> IpOrRangeView {
        match self {
            IpOrRange::IP(a) => IpOrRangeView::IP(*a),
            IpOrRange::Range(text) => IpOrRangeView::Range(text@),
        }
    }
}

impl Clone for IpOrRange {
    fn clone(&self) -> (r: Self)
        ensures
            r@ == self@,
    {
        match self {
            IpOrRange::IP(a) => IpOrRange::IP(*a),
            IpOrRange::Range(text) => IpOrRange::Range(text.clone()),
        }
    }
}

impl IpOrRangeView {
    /// Whether connections from `address` are allowed: the address itself,
    /// or any address within the block.
    pub open spec fn allows(self, address: IpAddress) -> bool {
        match self {
            IpOrRangeView::IP(a) => a == address,
            IpOrRangeView::Range(text) => !is_whole_v6(text) && ip_range_contains(
                text,
                address.text(),
            ) == Some(true),
        }
    }

    /// The address or the block as it is written.
    pub open spec fn text(self) -> Seq<char> {
        match self {
            IpOrRangeView::IP(a) => a.text(),
            IpOrRangeView::Range(text) => text,
        }
    }
}

/// The address that `s` denotes: an IPv4 address where it is written as a
/// dotted quad, else an IPv6 address where it is read as one, else nothing.
pub open spec fn parse_address(s: Seq<char>) -> Option<IpAddress> {
    match parse_ipv4(s) {
        Some(a) => Some(IpAddress::V4(a)),
        None => match ipv6_of_text(s) {
            Some(a) => Some(IpAddress::V6(a)),
            None => None,
        },
    }
}

/// What `s` denotes: an address where it is written as one, else a block
/// of addresses where it is read as one and does not span the whole of the
/// IPv6 addresses, else nothing.
pub open spec fn parse_ip_or_range(s: Seq<char>) -> Option<IpOrRangeView> {
    match parse_address(s) {
        Some(a) => Some(IpOrRangeView::IP(a)),
        None => if !is_whole_v6(s) && ip_range_valid(s) {
            Some(IpOrRangeView::Range(s))
        } else {
            None
        },
    }
}

/// Whether `s` would denote the whole of the IPv6 address space.
pub fn spans_all_v6(s: &str) -> (r: bool)
    ensures
        r == is_whole_v6(s@),
{
    if !contains_char(s, ':') {
        return false;
    }
    let v = to_chars(s);
    let i = find_from(&v, 0, '/');
    proof {
        assert(v@.skip(0) =~= v@);
    }
    if i >= v.len() || i + 1 >= v.len() {
        return false;
    }
    let mut k: usize = i + 1;
    while k < v.len()
        invariant
            i + 1 <= k <= v.len(),
            v@ == s@,
            s@.contains(':'),
            i == index_of(s@, '/'),
            forall|j: int| i + 1 <= j < k ==> v@[j] == '0',
        decreases v.len() - k,
    {
        if v[k] != '0' {
            proof {
                assert(s@[k as int] != '0');
            }
            return false;
        }
        k += 1;
    }
    true
}

impl IpOrRange {
    /// Reads an address or a block of addresses.
    pub fn new(ip: &str) -> (r: Result<Self, Error>)
        ensures
            match parse_ip_or_range(ip@) {
                Some(v) => r matches Ok(x) && x@ == v,
                None => r matches Err(Error::Parse(_)),
            },
    {
        match IpAddress::parse(ip) {
            Some(address) => Ok(IpOrRange::IP(address)),
            None => {
                if !spans_all_v6(ip) && range_is_valid(ip) {
                    Ok(IpOrRange::Range(ip.to_owned()))
                } else {
                    Err(Error::Parse(concat("Could not parse IP address or range: ", ip)))
                }
            },
        }
    }

    /// Whether connections from `addr` are allowed.
    pub fn matches(&self, addr: &IpAddress) -> (r: bool)
        ensures
            r == self@.allows(*addr),
    {
        match self {
            IpOrRange::IP(ip) => *ip == *addr,
            IpOrRange::Range(range) => {
                if spans_all_v6(range.as_str()) {
                    return false;
                }
                match range_contains(range.as_str(), addr.to_string().as_str()) {
                    Some(inside) => inside,
                    None => false,
                }
            },
        }
    }

    /// The address or the block as it is written.
    pub fn to_string(&self) -> (r: String)
        ensures
            r@ == self@.text(),
    {
        match self {
            IpOrRange::IP(ip) => ip.to_string(),
            IpOrRange::Range(range) => range.clone(),
        }
    }
}

} // verus!
