//! Addresses.
use vstd::prelude::*;
use vstd::string::*;
use crate::table::MapKey;
use crate::text::{
    all_digits, decimal, digits_value, fields, is_digit, lemma_decimal_round_trip,
    lemma_fields_split, parse_number, push_decimal, split_on, texts,
};

verus! {

/// An IP address.
#[derive(Debug, Clone, Copy, PartialEq, Eq)]
pub enum IpAddress {
    V4([u8; 4]),
    V6([u8; 16]),
}

/// The address and port of a UDP socket. `scope` is the zone of an IPv6
/// address, zero otherwise.
#[derive(Debug, Clone, Copy, PartialEq, Eq)]
pub struct Endpoint {
    pub ip: IpAddress,
    pub port: u16,
    pub scope: u32,
}

/// The bytes of an address.
pub open spec fn address_bytes(a: IpAddress) -> Seq<u8> {
    match a {
        IpAddress::V4(b) => b@,
        IpAddress::V6(b) => b@,
    }
}

/// Whether two addresses are equal.
pub fn same_ip(a: &IpAddress, b: &IpAddress) -> (r: bool)
    ensures
        r == (*a == *b),
{
    match (a, b) {
        (IpAddress::V4(x), IpAddress::V4(y)) => {
            let r = crate::bytes::same_bytes(x.as_slice(), y.as_slice());
            assert(r ==> *x =~= *y);
            r
        },
        (IpAddress::V6(x), IpAddress::V6(y)) => {
            let r = crate::bytes::same_bytes(x.as_slice(), y.as_slice());
            assert(r ==> *x =~= *y);
            r
        },
        _ => false,
    }
}

/// Whether two endpoints are equal.
pub fn same_endpoint(a: &Endpoint, b: &Endpoint) -> (r: bool)
    ensures
        r == (*a == *b),
{
    a.port == b.port && a.scope == b.scope && same_ip(&a.ip, &b.ip)
}

impl MapKey for Endpoint {
    type Id = Endpoint;

    open spec fn id(&self) -> Endpoint {
        *self
    }

    fn same_key(&self, other: &Self) -> (r: bool) {
        same_endpoint(self, other)
    }
}

impl MapKey for IpAddress {
    type Id = IpAddress;

    open spec fn id(&self) -> IpAddress {
        *self
    }

    fn same_key(&self, other: &Self) -> (r: bool) {
        same_ip(self, other)
    }
}

/// Whether a text is a number up to 255 in decimal, without sign or leading
/// zeros.
pub open spec fn is_octet(s: Seq<char>) -> bool {
    &&& all_digits(s)
    &&& digits_value(s) <= 255
    &&& s.len() > 1 ==> s[0] != '0'
}

/// Whether a text is an IPv4 address: four octets separated by dots.
pub open spec fn is_ipv4(s: Seq<char>) -> bool {
    let f = fields(s, '.');
    f.len() == 4 && forall|i: int| 0 <= i < 4 ==> is_octet(#[trigger] f[i])
}

/// The four octets of an IPv4 address in dotted decimal.
pub open spec fn ipv4_octets(s: Seq<char>) -> Seq<u8> {
    Seq::new(4, |i: int| digits_value(fields(s, '.')[i]) as u8)
}

fn parse_octet(s: &String) -> (r: Option<u8>)
    ensures
        match r {
            Some(v) => is_octet(s@) && v == digits_value(s@),
            None => !is_octet(s@),
        },
{
    let n: usize = s.as_str().unicode_len();
    if n == 0 {
        return None;
    }
    let first = s.as_str().get_char(0);
    if first == '+' || (n > 1 && first == '0') {
        return None;
    }
    match parse_number(s.as_str(), 255) {
        Some(v) => Some(v as u8),
        None => None,
    }
}

/// Reads an IPv4 address in dotted decimal.
pub fn parse_ipv4(s: &str) -> (r: Option<[u8; 4]>)
    ensures
        match r {
            Some(a) => is_ipv4(s@) && a@ == ipv4_octets(s@),
            None => !is_ipv4(s@),
        },
{
    let parts = split_on(s, '.');
    let ghost f = fields(s@, '.');
    assert(f.len() == parts@.len());
    if parts.len() != 4 {
        return None;
    }
    let mut a: [u8; 4] = [0u8; 4];
    let mut i: usize = 0;
    while i < 4
        invariant
            i <= 4,
            parts@.len() == 4,
            f == fields(s@, '.'),
            f == texts(parts@),
            forall|j: int| 0 <= j < i ==> is_octet(#[trigger] f[j]) && a@[j] == digits_value(f[j]),
        decreases 4 - i,
    {
        assert(f[i as int] == parts@[i as int]@);
        match parse_octet(&parts[i]) {
            Some(v) => {
                a[i] = v;
            },
            None => {
                return None;
            },
        }
        i = i + 1;
    }
    assert(a@ =~= ipv4_octets(s@));
    Some(a)
}

/// An IPv4 address in dotted decimal.
pub open spec fn ipv4_chars(a: Seq<u8>) -> Seq<char> {
    decimal(a[0] as nat) + seq!['.'] + decimal(a[1] as nat) + seq!['.'] + decimal(a[2] as nat)
        + seq!['.'] + decimal(a[3] as nat)
}

/// An IPv4 address in dotted decimal.
pub fn ipv4_text(a: &[u8; 4]) -> (r: String)
    ensures
        r@ == ipv4_chars(a@),
{
    let mut r = String::new();
    push_decimal(&mut r, a[0] as u64);
    r.push('.');
    push_decimal(&mut r, a[1] as u64);
    r.push('.');
    push_decimal(&mut r, a[2] as u64);
    r.push('.');
    push_decimal(&mut r, a[3] as u64);
    assert(r@ =~= ipv4_chars(a@));
    r
}

/// A text without dots is one part.
pub proof fn lemma_one_field(s: Seq<char>)
    requires
        forall|i: int| 0 <= i < s.len() ==> (#[trigger] s[i]) != '.',
    ensures
        fields(s, '.') == seq![s],
    decreases s.len(),
{
    if s.len() == 0 {
        assert(s =~= Seq::<char>::empty());
    } else {
        let t = s.drop_last();
        assert forall|i: int| 0 <= i < t.len() implies (#[trigger] t[i]) != '.' by {
            assert(t[i] == s[i]);
        }
        lemma_one_field(t);
        assert(s.last() == s[s.len() - 1]);
        assert(t.push(s.last()) =~= s);
        assert(fields(s, '.') =~= seq![s]);
    }
}

proof fn lemma_octet(n: nat)
    requires
        n <= 255,
    ensures
        is_octet(decimal(n)),
        digits_value(decimal(n)) == n,
        fields(decimal(n), '.') == seq![decimal(n)],
{
    lemma_decimal_round_trip(n);
    lemma_no_leading_zero(n);
    assert forall|i: int| 0 <= i < decimal(n).len() implies (#[trigger] decimal(n)[i]) != '.' by {
        assert(is_digit(decimal(n)[i]));
    }
    lemma_one_field(decimal(n));
}

proof fn lemma_no_leading_zero(n: nat)
    ensures
        decimal(n).len() > 0,
        n > 0 ==> decimal(n)[0] != '0',
        n < 10 ==> decimal(n).len() == 1,
        n == 0 ==> decimal(n).len() == 1,
    decreases n,
{
    if n >= 10 {
        lemma_no_leading_zero(n / 10);
        assert(decimal(n)[0] == decimal(n / 10)[0]);
    }
}

/// An IPv4 address that is written out in dotted decimal is read back byte for byte.
pub proof fn addresses_are_read_back(a: Seq<u8>)
    requires
        a.len() == 4,
    ensures
        is_ipv4(ipv4_chars(a)),
        ipv4_octets(ipv4_chars(a)) == a,
{
    let d0 = decimal(a[0] as nat);
    let d1 = decimal(a[1] as nat);
    let d2 = decimal(a[2] as nat);
    let d3 = decimal(a[3] as nat);
    lemma_octet(a[0] as nat);
    lemma_octet(a[1] as nat);
    lemma_octet(a[2] as nat);
    lemma_octet(a[3] as nat);
    let s3 = d2.push('.') + d3;
    let s2 = d1.push('.') + s3;
    let s1 = d0.push('.') + s2;
    assert(ipv4_chars(a) =~= s1);
    lemma_fields_split(d2, d3, '.');
    lemma_fields_split(d1, s3, '.');
    lemma_fields_split(d0, s2, '.');
    let f = fields(s1, '.');
    assert(f =~= seq![d0, d1, d2, d3]);
    assert forall|i: int| 0 <= i < 4 implies is_octet(#[trigger] f[i]) by {}
    assert(ipv4_octets(s1) =~= a);
}

} // verus!
