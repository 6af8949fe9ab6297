//! SD options: endpoints, multicast groups, configuration strings and load
//! balancing, each framed as [length u16 | type u8 | payload[length]].

use vstd::prelude::*;
use vstd::utf8::{decode_utf8, encode_utf8, valid_utf8};
use crate::codec::header::ReturnCode;
use crate::codec::traits::WireReader;
use crate::codec::wire::{be16, get_u16, read16, put_u16, put_bytes, lemma_be16_round_trip};
use vstd::utf8::{encode_utf8_valid_utf8, encode_utf8_decode_utf8};

verus! {

pub const CONFIGURATION: u8 = 0x01;
pub const LOAD_BALANCING: u8 = 0x02;
pub const IPV4_ENDPOINT: u8 = 0x04;
pub const IPV6_ENDPOINT: u8 = 0x06;
pub const IPV4_MULTICAST: u8 = 0x14;
pub const IPV6_MULTICAST: u8 = 0x16;

/// Transport protocol codes carried by endpoint options.
pub const PROTO_TCP: u8 = 0x06;
pub const PROTO_UDP: u8 = 0x11;

/// An SD option. Addresses are held as their network-order octets.
#[derive(Debug, Clone, PartialEq)]
pub enum SdOption {
    Ipv4Endpoint { address: [u8; 4], transport_proto: u8, port: u16 },
    Ipv6Endpoint { address: [u8; 16], transport_proto: u8, port: u16 },
    Ipv4Multicast { address: [u8; 4], transport_proto: u8, port: u16 },
    Ipv6Multicast { address: [u8; 16], transport_proto: u8, port: u16 },
    Configuration { config_string: String },
    LoadBalancing { priority: u16, weight: u16 },
    /// An option of another type, or one too short for its type.
    Unknown { length: u16, type_id: u8, data: Vec<u8> },
}

/// The characters `String::from_utf8_lossy` makes of `b`.
pub uninterp spec fn utf8_lossy(b: Seq<u8>) -> Seq<char>;

/// Relies on `String::from_utf8_lossy`: the result depends on the bytes
/// alone, and valid UTF-8 is decoded unchanged.
#[verifier::external_body]
fn string_from_utf8_lossy(b: &[u8]) -> (r: String)
    ensures
        r@ == utf8_lossy(b@),
        valid_utf8(b@) ==> r@ == decode_utf8(b@),
{
    String::from_utf8_lossy(b).into_owned()
}

/// The payload shared by the four address options: reserved byte, address,
/// reserved byte, protocol, port.
pub open spec fn address_body(address: Seq<u8>, proto: u8, port: u16) -> Seq<u8> {
    seq![0u8] + address + seq![0u8, proto] + be16(port)
}

/// The wire bytes of an option (for a configuration string, when its
/// length fits the 16-bit length field).
pub open spec fn option_wire(o: SdOption) -> Seq<u8> {
    match o {
        SdOption::Ipv4Endpoint { address, transport_proto, port } => be16(9) + seq![IPV4_ENDPOINT]
            + address_body(address@, transport_proto, port),
        SdOption::Ipv6Endpoint { address, transport_proto, port } => be16(21) + seq![IPV6_ENDPOINT]
            + address_body(address@, transport_proto, port),
        SdOption::Ipv4Multicast { address, transport_proto, port } => be16(9) + seq![
            IPV4_MULTICAST,
        ] + address_body(address@, transport_proto, port),
        SdOption::Ipv6Multicast { address, transport_proto, port } => be16(21) + seq![
            IPV6_MULTICAST,
        ] + address_body(address@, transport_proto, port),
        SdOption::Configuration { config_string } => be16(
            (1 + encode_utf8(config_string@).len()) as u16,
        ) + seq![CONFIGURATION, 0u8] + encode_utf8(config_string@),
        SdOption::LoadBalancing { priority, weight } => be16(5) + seq![LOAD_BALANCING, 0u8] + be16(
            priority,
        ) + be16(weight),
        SdOption::Unknown { length, type_id, data } => be16(length) + seq![type_id] + data@,
    }
}

/// Whether an option can be written: a configuration string must leave
/// room for the reserved byte in the 16-bit length.
pub open spec fn option_encodable(o: SdOption) -> bool {
    match o {
        SdOption::Configuration { config_string } => 1 + encode_utf8(config_string@).len() <= 0xFFFF,
        _ => true,
    }
}

/// The option-type code of an option.
pub open spec fn option_type_code(o: SdOption) -> u8 {
    match o {
        SdOption::Ipv4Endpoint { .. } => IPV4_ENDPOINT,
        SdOption::Ipv6Endpoint { .. } => IPV6_ENDPOINT,
        SdOption::Ipv4Multicast { .. } => IPV4_MULTICAST,
        SdOption::Ipv6Multicast { .. } => IPV6_MULTICAST,
        SdOption::Configuration { .. } => CONFIGURATION,
        SdOption::LoadBalancing { .. } => LOAD_BALANCING,
        SdOption::Unknown { type_id, .. } => type_id,
    }
}

/// `o` keeps an option's raw length, type and payload.
pub open spec fn is_raw_option(o: SdOption, len: u16, t: u8, d: Seq<u8>) -> bool {
    o matches SdOption::Unknown { length, type_id, data } && length == len && type_id == t && data@ == d
}

/// `o` is what reading an option from `s` yields, where `s` starts with a
/// whole option: `len = s[0..2]`, `t = s[2]`, payload `d = s[3..3+len]`.
/// Address options need 9 (v4) or 21 (v6) payload bytes and load
/// balancing 5, else they stay raw; a configuration string skips the
/// reserved byte and is decoded leniently; other types stay raw.
pub open spec fn option_decoded(o: SdOption, s: Seq<u8>) -> bool {
    let len = read16(s, 0);
    let t = s[2];
    let d = s.subrange(3, 3 + len);
    if t == IPV4_ENDPOINT && len >= 9 {
        o matches SdOption::Ipv4Endpoint { address, transport_proto, port } && address@
            == d.subrange(1, 5) && transport_proto == d[6] && port == read16(d, 7)
    } else if t == IPV4_MULTICAST && len >= 9 {
        o matches SdOption::Ipv4Multicast { address, transport_proto, port } && address@
            == d.subrange(1, 5) && transport_proto == d[6] && port == read16(d, 7)
    } else if t == IPV6_ENDPOINT && len >= 21 {
        o matches SdOption::Ipv6Endpoint { address, transport_proto, port } && address@
            == d.subrange(1, 17) && transport_proto == d[18] && port == read16(d, 19)
    } else if t == IPV6_MULTICAST && len >= 21 {
        o matches SdOption::Ipv6Multicast { address, transport_proto, port } && address@
            == d.subrange(1, 17) && transport_proto == d[18] && port == read16(d, 19)
    } else if t == CONFIGURATION {
        o matches SdOption::Configuration { config_string } && (if len == 0 {
            config_string@ == Seq::<char>::empty()
        } else {
            config_string@ == utf8_lossy(d.subrange(1, len as int)) && (valid_utf8(
                d.subrange(1, len as int),
            ) ==> config_string@ == decode_utf8(d.subrange(1, len as int)))
        })
    } else if t == LOAD_BALANCING && len >= 5 {
        o matches SdOption::LoadBalancing { priority, weight } && priority == read16(d, 1) && weight
            == read16(d, 3)
    } else {
        is_raw_option(o, len, t, d)
    }
}

/// Two options are the same option (strings and byte payloads compared by
/// content).
pub open spec fn option_same(a: SdOption, b: SdOption) -> bool {
    match a {
        SdOption::Ipv4Endpoint { address: x, transport_proto: p, port: q } => b matches SdOption::Ipv4Endpoint { address: y, transport_proto: r, port: t } && x@ == y@ && p == r && q == t,
        SdOption::Ipv6Endpoint { address: x, transport_proto: p, port: q } => b matches SdOption::Ipv6Endpoint { address: y, transport_proto: r, port: t } && x@ == y@ && p == r && q == t,
        SdOption::Ipv4Multicast { address: x, transport_proto: p, port: q } => b matches SdOption::Ipv4Multicast { address: y, transport_proto: r, port: t } && x@ == y@ && p == r && q == t,
        SdOption::Ipv6Multicast { address: x, transport_proto: p, port: q } => b matches SdOption::Ipv6Multicast { address: y, transport_proto: r, port: t } && x@ == y@ && p == r && q == t,
        SdOption::Configuration { config_string: x } => b matches SdOption::Configuration { config_string: y } && x@ == y@,
        SdOption::LoadBalancing { priority: p, weight: w } => b matches SdOption::LoadBalancing { priority: q, weight: v } && p == q && w == v,
        SdOption::Unknown { length: l, type_id: t, data: d } => b matches SdOption::Unknown { length: m, type_id: u, data: e } && l == m && t == u && d@ == e@,
    }
}

/// Whether an option reads back as itself: it can be written, and a raw
/// option's length matches its payload and its type is none of the known
/// ones.
pub open spec fn option_round_trips(o: SdOption) -> bool {
    &&& option_encodable(o)
    &&& match o {
        SdOption::Unknown { length, type_id, data } => data@.len() == length && type_id != CONFIGURATION
            && type_id != LOAD_BALANCING && type_id != IPV4_ENDPOINT && type_id != IPV6_ENDPOINT
            && type_id != IPV4_MULTICAST && type_id != IPV6_MULTICAST,
        _ => true,
    }
}

/// Writing an option and reading the bytes back yields the same option,
/// consuming exactly what was written, whatever follows it.
pub proof fn lemma_option_round_trip(o: SdOption, tail: Seq<u8>, o2: SdOption)
    requires
        option_round_trips(o),
        option_decoded(o2, option_wire(o) + tail),
    ensures
        3 + read16(option_wire(o) + tail, 0) == option_wire(o).len(),
        option_same(o2, o),
{
    let w = option_wire(o);
    let s = w + tail;
    let len = read16(s, 0);
    assert(s.subrange(0, 2) == w.subrange(0, 2));
    match o {
        SdOption::Ipv4Endpoint { address, transport_proto, port } => {
            lemma_be16_round_trip(9);
            lemma_be16_round_trip(port);
            assert(read16(s, 0) == read16(be16(9), 0));
            let d = s.subrange(3, 3 + len);
            assert(d =~= address_body(address@, transport_proto, port));
            assert(d.subrange(1, 5) =~= address@);
            assert(read16(d, 7) == read16(be16(port), 0));
        },
        SdOption::Ipv4Multicast { address, transport_proto, port } => {
            lemma_be16_round_trip(9);
            lemma_be16_round_trip(port);
            assert(read16(s, 0) == read16(be16(9), 0));
            let d = s.subrange(3, 3 + len);
            assert(d =~= address_body(address@, transport_proto, port));
            assert(d.subrange(1, 5) =~= address@);
            assert(read16(d, 7) == read16(be16(port), 0));
        },
        SdOption::Ipv6Endpoint { address, transport_proto, port } => {
            lemma_be16_round_trip(21);
            lemma_be16_round_trip(port);
            assert(read16(s, 0) == read16(be16(21), 0));
            let d = s.subrange(3, 3 + len);
            assert(d =~= address_body(address@, transport_proto, port));
            assert(d.subrange(1, 17) =~= address@);
            assert(read16(d, 19) == read16(be16(port), 0));
        },
        SdOption::Ipv6Multicast { address, transport_proto, port } => {
            lemma_be16_round_trip(21);
            lemma_be16_round_trip(port);
            assert(read16(s, 0) == read16(be16(21), 0));
            let d = s.subrange(3, 3 + len);
            assert(d =~= address_body(address@, transport_proto, port));
            assert(d.subrange(1, 17) =~= address@);
            assert(read16(d, 19) == read16(be16(port), 0));
        },
        SdOption::Configuration { config_string } => {
            let enc = encode_utf8(config_string@);
            let l = (1 + enc.len()) as u16;
            lemma_be16_round_trip(l);
            assert(read16(s, 0) == read16(be16(l), 0));
            let d = s.subrange(3, 3 + len);
            assert(d.subrange(1, len as int) =~= enc);
            encode_utf8_valid_utf8(config_string@);
            encode_utf8_decode_utf8(config_string@);
        },
        SdOption::LoadBalancing { priority, weight } => {
            lemma_be16_round_trip(5);
            lemma_be16_round_trip(priority);
            lemma_be16_round_trip(weight);
            assert(read16(s, 0) == read16(be16(5), 0));
            let d = s.subrange(3, 3 + len);
            assert(read16(d, 1) == read16(be16(priority), 0));
            assert(read16(d, 3) == read16(be16(weight), 0));
        },
        SdOption::Unknown { length, type_id, data } => {
            lemma_be16_round_trip(length);
            assert(read16(s, 0) == read16(be16(length), 0));
            assert(s.subrange(3, 3 + len) =~= data@);
        },
    }
}

impl SdOption {
    /// The option-type code of this option.
    pub fn type_id(&self) -> (r: u8)
        ensures
            r == option_type_code(*self),
    {
        match self {
            SdOption::Ipv4Endpoint { .. } => IPV4_ENDPOINT,
            SdOption::Ipv6Endpoint { .. } => IPV6_ENDPOINT,
            SdOption::Ipv4Multicast { .. } => IPV4_MULTICAST,
            SdOption::Ipv6Multicast { .. } => IPV6_MULTICAST,
            SdOption::Configuration { .. } => CONFIGURATION,
            SdOption::LoadBalancing { .. } => LOAD_BALANCING,
            SdOption::Unknown { type_id, .. } => *type_id,
        }
    }

    /// Appends the option's wire bytes; fails with `MalformedMessage`,
    /// writing nothing, when a configuration string is too long for the
    /// 16-bit length field.
    pub fn serialize(&self, out: &mut Vec<u8>) -> (r: Result<(), ReturnCode>)
        ensures
            r is Ok <==> option_encodable(*self),
            r is Ok ==> final(out)@ == old(out)@ + option_wire(*self),
            r is Err ==> final(out)@ == old(out)@,
    {
        match self {
            SdOption::Ipv4Endpoint { address, transport_proto, port } => {
                put_u16(out, 9);
                out.push(IPV4_ENDPOINT);
                put_address_body(out, address, *transport_proto, *port);
            },
            SdOption::Ipv6Endpoint { address, transport_proto, port } => {
                put_u16(out, 21);
                out.push(IPV6_ENDPOINT);
                put_address_body(out, address, *transport_proto, *port);
            },
            SdOption::Ipv4Multicast { address, transport_proto, port } => {
                put_u16(out, 9);
                out.push(IPV4_MULTICAST);
                put_address_body(out, address, *transport_proto, *port);
            },
            SdOption::Ipv6Multicast { address, transport_proto, port } => {
                put_u16(out, 21);
                out.push(IPV6_MULTICAST);
                put_address_body(out, address, *transport_proto, *port);
            },
            SdOption::Configuration { config_string } => {
                let bytes = config_string.as_str().as_bytes();
                if bytes.len() >= 0xFFFF {
                    return Err(ReturnCode::MalformedMessage);
                }
                put_u16(out, (1 + bytes.len()) as u16);
                out.push(CONFIGURATION);
                out.push(0);
                put_bytes(out, bytes);
            },
            SdOption::LoadBalancing { priority, weight } => {
                put_u16(out, 5);
                out.push(LOAD_BALANCING);
                out.push(0);
                put_u16(out, *priority);
                put_u16(out, *weight);
            },
            SdOption::Unknown { length, type_id, data } => {
                put_u16(out, *length);
                out.push(*type_id);
                put_bytes(out, data.as_slice());
            },
        }
        assert(final(out)@ =~= old(out)@ + option_wire(*self));
        Ok(())
    }

    /// Reads one option; fails with `MalformedMessage` when the bytes left
    /// do not hold the 3-byte option header plus the payload it announces.
    pub fn deserialize(reader: &mut WireReader) -> (r: Result<SdOption, ReturnCode>)
        ensures
            final(reader).bytes@ == old(reader).bytes@,
            ({
                let s = old(reader).rest();
                if s.len() >= 3 && s.len() >= 3 + read16(s, 0) {
                    &&& r matches Ok(o) && option_decoded(o, s)
                    &&& final(reader).pos == old(reader).pos + 3 + read16(s, 0)
                } else {
                    r == Err::<SdOption, ReturnCode>(ReturnCode::MalformedMessage)
                }
            }),
    {
        let ghost s = reader.rest();
        let head = match reader.read_bytes(3) {
            Some(h) => h,
            None => return Err(ReturnCode::MalformedMessage),
        };
        let length = get_u16(head.as_slice(), 0);
        let type_id = head[2];
        assert(reader.rest() =~= s.subrange(3, s.len() as int));
        let data = match reader.read_bytes(length as usize) {
            Some(d) => d,
            None => return Err(ReturnCode::MalformedMessage),
        };
        let ghost d = s.subrange(3, 3 + length);
        assert(data@ =~= d);
        let n = data.len();
        if type_id == IPV4_ENDPOINT && n >= 9 {
            let address = [data[1], data[2], data[3], data[4]];
            assert(address@ =~= d.subrange(1, 5));
            Ok(SdOption::Ipv4Endpoint {
                address,
                transport_proto: data[6],
                port: get_u16(data.as_slice(), 7),
            })
        } else if type_id == IPV4_MULTICAST && n >= 9 {
            let address = [data[1], data[2], data[3], data[4]];
            assert(address@ =~= d.subrange(1, 5));
            Ok(SdOption::Ipv4Multicast {
                address,
                transport_proto: data[6],
                port: get_u16(data.as_slice(), 7),
            })
        } else if type_id == IPV6_ENDPOINT && n >= 21 {
            let address = ipv6_octets(&data);
            Ok(SdOption::Ipv6Endpoint {
                address,
                transport_proto: data[18],
                port: get_u16(data.as_slice(), 19),
            })
        } else if type_id == IPV6_MULTICAST && n >= 21 {
            let address = ipv6_octets(&data);
            Ok(SdOption::Ipv6Multicast {
                address,
                transport_proto: data[18],
                port: get_u16(data.as_slice(), 19),
            })
        } else if type_id == CONFIGURATION {
            if n == 0 {
                let empty = String::new();
                Ok(SdOption::Configuration { config_string: empty })
            } else {
                let text = string_from_utf8_lossy(&data.as_slice()[1..n]);
                assert(data@.subrange(1, n as int) =~= d.subrange(1, length as int));
                Ok(SdOption::Configuration { config_string: text })
            }
        } else if type_id == LOAD_BALANCING && n >= 5 {
            Ok(SdOption::LoadBalancing {
                priority: get_u16(data.as_slice(), 1),
                weight: get_u16(data.as_slice(), 3),
            })
        } else {
            Ok(SdOption::Unknown { length, type_id, data })
        }
    }
}

/// Octets 1..17 of an IPv6 option payload.
fn ipv6_octets(data: &Vec<u8>) -> (r: [u8; 16])
    requires
        data@.len() >= 21,
    ensures
        r@ == data@.subrange(1, 17),
{
    let r = [
        data[1],
        data[2],
        data[3],
        data[4],
        data[5],
        data[6],
        data[7],
        data[8],
        data[9],
        data[10],
        data[11],
        data[12],
        data[13],
        data[14],
        data[15],
        data[16],
    ];
    assert(r@ =~= data@.subrange(1, 17));
    r
}

/// Appends reserved byte, address, reserved byte, protocol and port.
fn put_address_body(out: &mut Vec<u8>, address: &[u8], proto: u8, port: u16)
    ensures
        final(out)@ == old(out)@ + address_body(address@, proto, port),
{
    out.push(0);
    put_bytes(out, address);
    out.push(0);
    out.push(proto);
    put_u16(out, port);
    assert(final(out)@ =~= old(out)@ + address_body(address@, proto, port));
}

} // verus!
