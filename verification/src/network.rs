//! The device's static address: reading it from its dotted-quad text,
//! writing it back, and the configuration that the network stack is given.

use crate::text::{index_of, lemma_next_index_of, lemma_next_index_of_is, next_index_of};
use embassy_net::{Config, Ipv4Address, Ipv4Cidr, StaticConfigV4};
use vstd::prelude::*;
use vstd::string::StringSliceAdditionalSpecFns;

verus! {

/// Separates the fields of an address.
pub const DOT: u8 = 0x2e;

/// May stand before the digits of a field.
pub const PLUS: u8 = 0x2b;

/// The digit zero.
pub const ZERO: u8 = 0x30;

/// The digit nine.
pub const NINE: u8 = 0x39;

/// The length of the network prefix of the device's address.
pub const PREFIX_LEN: u8 = 24;

/// The device's IPv4 address.
#[derive(Clone, Copy, Debug, PartialEq, Eq)]
pub struct DeviceAddress {
    pub octets: [u8; 4],
}

impl View for DeviceAddress {
    type V = Seq<u8>;

    open spec fn view(&self) -> Seq<u8> {
        self.octets@
    }
}

/// `b` is a decimal digit.
pub open spec fn is_digit(b: u8) -> bool {
    ZERO <= b <= NINE
}

/// Every byte of `s` is a decimal digit.
pub open spec fn all_digits(s: Seq<u8>) -> bool {
    forall|i: int| 0 <= i < s.len() ==> is_digit(#[trigger] s[i])
}

/// The number that the digits `s` write in base ten.
pub open spec fn digits_value(s: Seq<u8>) -> nat
    decreases s.len(),
{
    if s.len() == 0 {
        0
    } else {
        digits_value(s.drop_last()) * 10 + (s.last() - ZERO) as nat
    }
}

/// The field without the plus sign that may open it.
pub open spec fn unsigned(field: Seq<u8>) -> Seq<u8> {
    if field.len() > 0 && field[0] == PLUS {
        field.drop_first()
    } else {
        field
    }
}

/// The octet that a field writes: an optional plus sign, then one or more
/// digits, leading zeros allowed, whose value is at most 255.
pub open spec fn octet(field: Seq<u8>) -> Option<u8> {
    let digits = unsigned(field);
    if digits.len() > 0 && all_digits(digits) && digits_value(digits) <= 255 {
        Some(digits_value(digits) as u8)
    } else {
        None
    }
}

/// The four fields of a dotted quad: what stands before, between and after
/// its three dots. Text with fewer or more dots has no such fields.
pub open spec fn fields(s: Seq<u8>) -> Option<Seq<Seq<u8>>> {
    let d1 = next_index_of(s, DOT, 0);
    let d2 = next_index_of(s, DOT, d1 + 1);
    let d3 = next_index_of(s, DOT, d2 + 1);
    let d4 = next_index_of(s, DOT, d3 + 1);
    if d1 < s.len() && d2 < s.len() && d3 < s.len() && d4 == s.len() {
        Some(
            seq![
                s.subrange(0, d1),
                s.subrange(d1 + 1, d2),
                s.subrange(d2 + 1, d3),
                s.subrange(d3 + 1, d4),
            ],
        )
    } else {
        None
    }
}

/// The address that a dotted quad writes: four fields, each of which writes
/// an octet. Anything else is malformed.
pub open spec fn parsed(s: Seq<u8>) -> Option<Seq<u8>> {
    match fields(s) {
        Some(f) => if octet(f[0]) is Some && octet(f[1]) is Some && octet(f[2]) is Some && octet(
            f[3],
        ) is Some {
            Some(
                seq![
                    octet(f[0]).unwrap(),
                    octet(f[1]).unwrap(),
                    octet(f[2]).unwrap(),
                    octet(f[3]).unwrap(),
                ],
            )
        } else {
            None
        },
        None => None,
    }
}

/// A field in the one form in which an octet is written back: no sign, and
/// no zero before another digit.
pub open spec fn is_canonical_field(field: Seq<u8>) -> bool {
    field.len() > 0 && field[0] != PLUS && (field.len() == 1 || field[0] != ZERO)
}

/// A dotted quad whose four fields are all in canonical form.
pub open spec fn is_canonical(s: Seq<u8>) -> bool {
    match fields(s) {
        Some(f) => is_canonical_field(f[0]) && is_canonical_field(f[1]) && is_canonical_field(
            f[2],
        ) && is_canonical_field(f[3]),
        None => false,
    }
}

/// An octet in base ten, without leading zeros.
pub open spec fn decimal(v: u8) -> Seq<u8> {
    if v < 10 {
        seq![(ZERO + v) as u8]
    } else if v < 100 {
        seq![(ZERO + v / 10) as u8, (ZERO + v % 10) as u8]
    } else {
        seq![(ZERO + v / 100) as u8, (ZERO + (v / 10) % 10) as u8, (ZERO + v % 10) as u8]
    }
}

/// Four octets as a dotted quad.
pub open spec fn dotted(octets: Seq<u8>) -> Seq<u8> {
    decimal(octets[0]) + seq![DOT] + decimal(octets[1]) + seq![DOT] + decimal(octets[2]) + seq![
        DOT,
    ] + decimal(octets[3])
}

/// The digits read so far never write more than all of them do.
proof fn lemma_digits_value_grows(s: Seq<u8>, k: int)
    requires
        0 <= k <= s.len(),
        all_digits(s),
    ensures
        digits_value(s.take(k)) <= digits_value(s),
    decreases s.len() - k,
{
    if k == s.len() {
        assert(s.take(k) =~= s);
    } else {
        let front = s.drop_last();
        assert(all_digits(front));
        assert(front.take(k) =~= s.take(k));
        lemma_digits_value_grows(front, k);
    }
}

/// The octet that a field writes, if it writes one.
pub fn parse_octet(field: &[u8]) -> (r: Option<u8>)
    ensures
        r == octet(field@),
{
    let start: usize = if field.len() > 0 && field[0] == PLUS {
        1
    } else {
        0
    };
    let digits = &field[start..field.len()];
    if digits.len() == 0 {
        return None;
    }
    let mut value: u32 = 0;
    let mut i: usize = 0;
    while i < digits.len()
        invariant
            i <= digits.len(),
            digits@ == unsigned(field@),
            digits.len() > 0,
            all_digits(digits@.take(i as int)),
            value == digits_value(digits@.take(i as int)),
            value <= 255,
        decreases digits.len() - i,
    {
        let b = digits[i];
        if b < ZERO || b > NINE {
            return None;
        }
        let ghost read = digits@.take(i + 1);
        proof {
            assert(read.drop_last() =~= digits@.take(i as int));
            assert(all_digits(read));
        }
        value = value * 10 + (b - ZERO) as u32;
        if value > 255 {
            proof {
                if all_digits(digits@) {
                    lemma_digits_value_grows(digits@, i + 1);
                }
            }
            return None;
        }
        i += 1;
    }
    assert(digits@.take(i as int) =~= digits@);
    Some(value as u8)
}

/// The address that the dotted quad `s` writes, or `None` where `s` is
/// malformed.
pub fn parse_address(s: &[u8]) -> (r: Option<DeviceAddress>)
    ensures
        match r {
            Some(address) => parsed(s@) == Some(address@),
            None => parsed(s@) is None,
        },
{
    let n = s.len();
    let d1 = index_of(s, DOT, 0);
    if d1 >= n {
        return None;
    }
    let d2 = index_of(s, DOT, d1 + 1);
    if d2 >= n {
        return None;
    }
    let d3 = index_of(s, DOT, d2 + 1);
    if d3 >= n {
        return None;
    }
    let d4 = index_of(s, DOT, d3 + 1);
    proof {
        lemma_next_index_of(s@, DOT, 0);
        lemma_next_index_of(s@, DOT, d1 + 1);
        lemma_next_index_of(s@, DOT, d2 + 1);
        lemma_next_index_of(s@, DOT, d3 + 1);
    }
    if d4 != n {
        return None;
    }
    let o1 = parse_octet(&s[0..d1]);
    let o2 = parse_octet(&s[d1 + 1..d2]);
    let o3 = parse_octet(&s[d2 + 1..d3]);
    let o4 = parse_octet(&s[d3 + 1..d4]);
    match (o1, o2, o3, o4) {
        (Some(a), Some(b), Some(c), Some(d)) => {
            let address = DeviceAddress { octets: [a, b, c, d] };
            Some(address)
        },
        _ => None,
    }
}

/// The address that a dotted quad writes. Malformed text is a fault of the
/// configuration, to be caught before the call: see `parse_address`.
pub fn parse_ip(static_ip_str: &str) -> (address: DeviceAddress)
    requires
        parsed(static_ip_str.spec_bytes()) is Some,
    ensures
        parsed(static_ip_str.spec_bytes()) == Some(address@),
{
    parse_address(static_ip_str.as_bytes()).unwrap()
}

/// What the network stack is to be configured with: a static address, and
/// where there are any, a gateway and name servers.
#[derive(Debug, PartialEq, Eq)]
pub struct StaticConfig {
    pub address: DeviceAddress,
    pub prefix_len: u8,
    pub gateway: Option<DeviceAddress>,
    pub dns_servers: Vec<DeviceAddress>,
}

/// A static configuration as the contracts see it.
pub struct StaticConfigView {
    pub address: Seq<u8>,
    pub prefix_len: u8,
    pub gateway: Option<Seq<u8>>,
    pub dns_servers: Seq<Seq<u8>>,
}

impl View for StaticConfig {
    type V = StaticConfigView;

    open spec fn view(&self) -> StaticConfigView {
        StaticConfigView {
            address: self.address@,
            prefix_len: self.prefix_len,
            gateway: match self.gateway {
                Some(gateway) => Some(gateway@),
                None => None,
            },
            dns_servers: Seq::new(self.dns_servers@.len(), |i: int| self.dns_servers@[i]@),
        }
    }
}

/// The configuration of the device whose address is `address`: a network
/// prefix of `PREFIX_LEN` bits, no gateway and no name servers.
pub open spec fn device_config(address: Seq<u8>) -> StaticConfigView {
    StaticConfigView {
        address,
        prefix_len: PREFIX_LEN,
        gateway: None,
        dns_servers: Seq::empty(),
    }
}

/// The configuration type of the network stack. The contracts see nothing
/// inside a value of it.
#[verifier::external_type_specification]
#[verifier::external_body]
pub struct ExConfig(embassy_net::Config);

/// The stack configuration that `Config::ipv4_static` makes of a static
/// address with its prefix length, a gateway and a list of name servers.
pub uninterp spec fn stack_config(
    address: Seq<u8>,
    prefix_len: u8,
    gateway: Option<Seq<u8>>,
    dns_servers: Seq<Seq<u8>>,
) -> Config;

/// `embassy_net::Config::ipv4_static`, on a static configuration that is put
/// together from `settings` field by field: the address block comes from
/// `Ipv4Cidr::new`, which panics on a prefix longer than 32 bits, and the
/// list of name servers has room for three.
#[verifier::external_body]
fn ipv4_static(settings: &StaticConfig) -> (config: Config)
    requires
        settings.prefix_len <= 32,
        settings.dns_servers@.len() <= 3,
    ensures
        config == stack_config(
            settings@.address,
            settings@.prefix_len,
            settings@.gateway,
            settings@.dns_servers,
        ),
{
    let ip = |a: &DeviceAddress| {
        Ipv4Address::new(a.octets[0], a.octets[1], a.octets[2], a.octets[3])
    };
    Config::ipv4_static(StaticConfigV4 {
        address: Ipv4Cidr::new(ip(&settings.address), settings.prefix_len),
        gateway: settings.gateway.as_ref().map(ip),
        dns_servers: settings.dns_servers.iter().map(ip).collect(),
    })
}

impl StaticConfig {
    /// The configuration of the device whose address is `address`.
    pub fn for_device(address: DeviceAddress) -> (settings: StaticConfig)
        ensures
            settings@ == device_config(address@),
    {
        let settings = StaticConfig {
            address,
            prefix_len: PREFIX_LEN,
            gateway: None,
            dns_servers: Vec::new(),
        };
        assert(settings@.dns_servers =~= Seq::<Seq<u8>>::empty());
        settings
    }
}

/// The stack configuration for the device whose address `static_ip_str`
/// writes. Malformed text is a fault of the configuration, to be caught
/// before the call: see `parse_address`.
pub fn init(static_ip_str: &str) -> (config: Config)
    requires
        parsed(static_ip_str.spec_bytes()) is Some,
    ensures
        config == stack_config(
            parsed(static_ip_str.spec_bytes()).unwrap(),
            PREFIX_LEN,
            None,
            Seq::empty(),
        ),
{
    let settings = StaticConfig::for_device(parse_ip(static_ip_str));
    assert(settings.dns_servers@.len() == settings@.dns_servers.len());
    ipv4_static(&settings)
}

/// The seed of the network stack, put together from two words of the
/// randomness source: `high` fills the upper half, `low` the lower.
pub fn seed_from_words(high: u32, low: u32) -> (seed: u64)
    ensures
        seed == high * 0x1_0000_0000 + low,
{
    let upper: u64 = high as u64;
    let lower: u64 = low as u64;
    assert((upper << 32) | lower == upper * 0x1_0000_0000 + lower) by (bit_vector)
        requires
            upper <= 0xffff_ffff,
            lower <= 0xffff_ffff,
    ;
    (upper << 32) | lower
}

fn push_decimal(out: &mut Vec<u8>, v: u8)
    ensures
        final(out)@ == old(out)@ + decimal(v),
{
    if v >= 100 {
        out.push(ZERO + v / 100);
    }
    if v >= 10 {
        out.push(ZERO + (v / 10) % 10);
    }
    out.push(ZERO + v % 10);
}

impl DeviceAddress {
    /// The address as a dotted quad: each octet in base ten, without sign
    /// or leading zeros.
    pub fn to_text(&self) -> (text: Vec<u8>)
        ensures
            text@ == dotted(self@),
    {
        let mut out: Vec<u8> = Vec::new();
        push_decimal(&mut out, self.octets[0]);
        out.push(DOT);
        push_decimal(&mut out, self.octets[1]);
        out.push(DOT);
        push_decimal(&mut out, self.octets[2]);
        out.push(DOT);
        push_decimal(&mut out, self.octets[3]);
        out
    }
}

proof fn lemma_value_1(a: u8)
    requires
        is_digit(a),
    ensures
        digits_value(seq![a]) == a - ZERO,
{
    let s = seq![a];
    assert(digits_value(s.drop_last()) == 0);
}

proof fn lemma_value_2(a: u8, b: u8)
    requires
        is_digit(a),
        is_digit(b),
    ensures
        digits_value(seq![a, b]) == (a - ZERO) * 10 + (b - ZERO),
{
    let s = seq![a, b];
    assert(s.drop_last() =~= seq![a]);
    lemma_value_1(a);
}

proof fn lemma_value_3(a: u8, b: u8, c: u8)
    requires
        is_digit(a),
        is_digit(b),
        is_digit(c),
    ensures
        digits_value(seq![a, b, c]) == (a - ZERO) * 100 + (b - ZERO) * 10 + (c - ZERO),
{
    let s = seq![a, b, c];
    assert(s.drop_last() =~= seq![a, b]);
    lemma_value_2(a, b);
}

proof fn lemma_value_4(a: u8, b: u8, c: u8, d: u8)
    requires
        is_digit(a),
        is_digit(b),
        is_digit(c),
        is_digit(d),
    ensures
        digits_value(seq![a, b, c, d]) == (a - ZERO) * 1000 + (b - ZERO) * 100 + (c - ZERO) * 10
            + (d - ZERO),
{
    let s = seq![a, b, c, d];
    assert(s.drop_last() =~= seq![a, b, c]);
    lemma_value_3(a, b, c);
}

/// An octet written in base ten is a canonical field of one to three
/// digits that writes the octet.
pub proof fn lemma_decimal_octet(v: u8)
    ensures
        octet(decimal(v)) == Some(v),
        is_canonical_field(decimal(v)),
        all_digits(decimal(v)),
        1 <= decimal(v).len() <= 3,
{
    let s = decimal(v);
    if v < 10 {
        lemma_value_1(s[0]);
    } else if v < 100 {
        lemma_value_2(s[0], s[1]);
    } else {
        lemma_value_3(s[0], s[1], s[2]);
    }
}

/// A canonical field is the base-ten form of the octet that it writes.
pub proof fn lemma_canonical_field(field: Seq<u8>)
    requires
        octet(field) is Some,
        is_canonical_field(field),
    ensures
        decimal(octet(field).unwrap()) == field,
{
    if field.len() >= 4 {
        let head = field.take(4);
        assert(head =~= seq![field[0], field[1], field[2], field[3]]);
        lemma_value_4(field[0], field[1], field[2], field[3]);
        lemma_digits_value_grows(field, 4);
    } else if field.len() == 3 {
        assert(field =~= seq![field[0], field[1], field[2]]);
        lemma_value_3(field[0], field[1], field[2]);
    } else if field.len() == 2 {
        assert(field =~= seq![field[0], field[1]]);
        lemma_value_2(field[0], field[1]);
    } else {
        assert(field =~= seq![field[0]]);
        lemma_value_1(field[0]);
    }
}

/// Reading back what was written gives the address that was written.
pub proof fn lemma_text_parses(octets: Seq<u8>)
    requires
        octets.len() == 4,
    ensures
        parsed(dotted(octets)) == Some(octets),
        is_canonical(dotted(octets)),
{
    let c0 = decimal(octets[0]);
    let c1 = decimal(octets[1]);
    let c2 = decimal(octets[2]);
    let c3 = decimal(octets[3]);
    lemma_decimal_octet(octets[0]);
    lemma_decimal_octet(octets[1]);
    lemma_decimal_octet(octets[2]);
    lemma_decimal_octet(octets[3]);
    let s = dotted(octets);
    let d1 = c0.len() as int;
    let d2 = d1 + 1 + c1.len();
    let d3 = d2 + 1 + c2.len();
    let d4 = d3 + 1 + c3.len();
    // Between the dots stand digits only.
    assert(forall|j: int| 0 <= j < d1 ==> s[j] != DOT);
    assert(forall|j: int| d1 + 1 <= j < d2 ==> s[j] != DOT);
    assert(forall|j: int| d2 + 1 <= j < d3 ==> s[j] != DOT);
    assert(forall|j: int| d3 + 1 <= j < d4 ==> s[j] != DOT);
    lemma_next_index_of_is(s, DOT, 0, d1);
    lemma_next_index_of_is(s, DOT, d1 + 1, d2);
    lemma_next_index_of_is(s, DOT, d2 + 1, d3);
    lemma_next_index_of_is(s, DOT, d3 + 1, d4);
    assert(s.subrange(0, d1) =~= c0);
    assert(s.subrange(d1 + 1, d2) =~= c1);
    assert(s.subrange(d2 + 1, d3) =~= c2);
    assert(s.subrange(d3 + 1, d4) =~= c3);
}

/// Writing back what was read from a canonical dotted quad gives the text
/// that was read. Text with a sign or with a zero before another digit is
/// read as well, but is not what is written back.
pub proof fn lemma_canonical_text_round_trips(s: Seq<u8>)
    requires
        parsed(s) is Some,
        is_canonical(s),
    ensures
        dotted(parsed(s).unwrap()) == s,
{
    let d1 = next_index_of(s, DOT, 0);
    let d2 = next_index_of(s, DOT, d1 + 1);
    let d3 = next_index_of(s, DOT, d2 + 1);
    let d4 = next_index_of(s, DOT, d3 + 1);
    lemma_next_index_of(s, DOT, 0);
    lemma_next_index_of(s, DOT, d1 + 1);
    lemma_next_index_of(s, DOT, d2 + 1);
    lemma_next_index_of(s, DOT, d3 + 1);
    let f = fields(s).unwrap();
    lemma_canonical_field(f[0]);
    lemma_canonical_field(f[1]);
    lemma_canonical_field(f[2]);
    lemma_canonical_field(f[3]);
    let octets = parsed(s).unwrap();
}

} // verus!
