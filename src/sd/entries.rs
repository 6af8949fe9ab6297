//! SD entries: 16-byte records that offer, find or subscribe.

use vstd::prelude::*;
use crate::codec::header::ReturnCode;
use crate::codec::traits::WireReader;
use crate::codec::wire::{be16, be32, get_u16, get_u32, read16, read32, put_u16, put_u32, lemma_be16_round_trip, lemma_be32_round_trip};

verus! {

/// SD entry types. Codes other than the six listed read as `Unknown`.
#[derive(Debug, Clone, Copy, PartialEq, Eq, Structural)]
pub enum EntryType {
    /// 0x00
    FindService,
    /// 0x01
    OfferService,
    /// 0x02
    RequestService,
    /// 0x06
    SubscribeEventgroup,
    /// 0x07
    SubscribeEventgroupAck,
    /// 0x86
    StopSubscribeEventgroup,
    /// Any other code; written back as 0xFF.
    Unknown,
}

/// The wire code of an entry type.
pub open spec fn entry_type_code(t: EntryType) -> u8 {
    match t {
        EntryType::FindService => 0x00,
        EntryType::OfferService => 0x01,
        EntryType::RequestService => 0x02,
        EntryType::SubscribeEventgroup => 0x06,
        EntryType::SubscribeEventgroupAck => 0x07,
        EntryType::StopSubscribeEventgroup => 0x86,
        EntryType::Unknown => 0xFF,
    }
}

/// The entry type a wire code reads as.
pub open spec fn entry_type_of(v: u8) -> EntryType {
    if v == 0x00 {
        EntryType::FindService
    } else if v == 0x01 {
        EntryType::OfferService
    } else if v == 0x02 {
        EntryType::RequestService
    } else if v == 0x06 {
        EntryType::SubscribeEventgroup
    } else if v == 0x07 {
        EntryType::SubscribeEventgroupAck
    } else if v == 0x86 {
        EntryType::StopSubscribeEventgroup
    } else {
        EntryType::Unknown
    }
}

impl EntryType {
    /// Find, Offer and Request are service entries.
    pub fn is_service_entry(&self) -> (r: bool)
        ensures
            r == (*self == EntryType::FindService || *self == EntryType::OfferService || *self
                == EntryType::RequestService),
    {
        matches!(self, EntryType::FindService | EntryType::OfferService | EntryType::RequestService)
    }

    /// Subscribe, its acknowledgement and its stop are eventgroup entries.
    pub fn is_eventgroup_entry(&self) -> (r: bool)
        ensures
            r == (*self == EntryType::SubscribeEventgroup || *self
                == EntryType::SubscribeEventgroupAck || *self
                == EntryType::StopSubscribeEventgroup),
    {
        matches!(
            self,
            EntryType::SubscribeEventgroup | EntryType::SubscribeEventgroupAck
                | EntryType::StopSubscribeEventgroup
        )
    }

    pub fn from_u8(v: u8) -> (r: EntryType)
        ensures
            r == entry_type_of(v),
    {
        match v {
            0x00 => EntryType::FindService,
            0x01 => EntryType::OfferService,
            0x02 => EntryType::RequestService,
            0x06 => EntryType::SubscribeEventgroup,
            0x07 => EntryType::SubscribeEventgroupAck,
            0x86 => EntryType::StopSubscribeEventgroup,
            _ => EntryType::Unknown,
        }
    }

    pub fn to_u8(&self) -> (r: u8)
        ensures
            r == entry_type_code(*self),
    {
        match self {
            EntryType::FindService => 0x00,
            EntryType::OfferService => 0x01,
            EntryType::RequestService => 0x02,
            EntryType::SubscribeEventgroup => 0x06,
            EntryType::SubscribeEventgroupAck => 0x07,
            EntryType::StopSubscribeEventgroup => 0x86,
            EntryType::Unknown => 0xFF,
        }
    }
}

impl From<u8> for EntryType {
    fn from(v: u8) -> (r: EntryType) {
        EntryType::from_u8(v)
    }
}

impl vstd::std_specs::convert::FromSpecImpl<u8> for EntryType {
    open spec fn obeys_from_spec() -> bool {
        true
    }

    open spec fn from_spec(v: u8) -> EntryType {
        entry_type_of(v)
    }
}

/// An SD entry. `ttl` is carried in 24 bits; `minor_version` is the minor
/// version of a service entry, or `eventgroup_id << 16 | counter` of an
/// eventgroup entry.
#[derive(Debug, Clone, Copy, PartialEq, Eq, Structural)]
pub struct SdEntry {
    pub entry_type: EntryType,
    pub index_1: u8,
    pub index_2: u8,
    pub number_of_opts_1: u8,
    pub number_of_opts_2: u8,
    pub service_id: u16,
    pub instance_id: u16,
    pub major_version: u8,
    pub ttl: u32,
    pub minor_version: u32,
}

/// The byte that packs both option counts: the first in the high nibble,
/// the second in the low nibble.
pub open spec fn opts_byte(n1: u8, n2: u8) -> u8 {
    ((n1 as int % 16) * 16 + n2 as int % 16) as u8
}

/// The 16 wire bytes of an entry.
pub open spec fn entry_bytes(e: SdEntry) -> Seq<u8> {
    seq![entry_type_code(e.entry_type), e.index_1, e.index_2, opts_byte(e.number_of_opts_1, e.number_of_opts_2)]
        + be16(e.service_id) + be16(e.instance_id) + seq![e.major_version] + be32(e.ttl).subrange(1, 4)
        + be32(e.minor_version)
}

/// The entry that 16 wire bytes hold.
pub open spec fn entry_from_bytes(s: Seq<u8>) -> SdEntry {
    SdEntry {
        entry_type: entry_type_of(s[0]),
        index_1: s[1],
        index_2: s[2],
        number_of_opts_1: (s[3] / 16) as u8,
        number_of_opts_2: (s[3] % 16) as u8,
        service_id: read16(s, 4),
        instance_id: read16(s, 6),
        major_version: s[8],
        ttl: read32(seq![0u8] + s.subrange(9, 12), 0),
        minor_version: read32(s, 12),
    }
}

/// Whether an entry survives the wire unchanged: its type is one of the
/// six known ones, both option counts fit 4 bits and the TTL fits 24 bits.
pub open spec fn entry_encodable(e: SdEntry) -> bool {
    &&& e.entry_type != EntryType::Unknown
    &&& e.number_of_opts_1 < 16
    &&& e.number_of_opts_2 < 16
    &&& e.ttl < 0x0100_0000
}

/// An entry that fits the wire format decodes back to itself.
pub proof fn lemma_entry_round_trip(e: SdEntry)
    requires
        entry_encodable(e),
    ensures
        entry_bytes(e).len() == 16,
        entry_from_bytes(entry_bytes(e)) == e,
{
    let s = entry_bytes(e);
    lemma_be16_round_trip(e.service_id);
    lemma_be16_round_trip(e.instance_id);
    lemma_be32_round_trip(e.ttl);
    lemma_be32_round_trip(e.minor_version);
    assert(s.subrange(4, 6) =~= be16(e.service_id));
    assert(s.subrange(6, 8) =~= be16(e.instance_id));
    assert(s.subrange(12, 16) =~= be32(e.minor_version));
    assert(read16(s, 4) == read16(be16(e.service_id), 0));
    assert(read16(s, 6) == read16(be16(e.instance_id), 0));
    assert(read32(s, 12) == read32(be32(e.minor_version), 0));
    let t = e.ttl;
    assert((t >> 24u32) as u8 == 0u8) by (bit_vector)
        requires
            t < 0x0100_0000u32,
    ;
    assert(seq![0u8] + s.subrange(9, 12) =~= be32(t));
}

impl SdEntry {
    /// Appends the 16 wire bytes of this entry.
    pub fn serialize(&self, out: &mut Vec<u8>) -> (r: Result<(), ReturnCode>)
        ensures
            r is Ok,
            final(out)@ == old(out)@ + entry_bytes(*self),
    {
        out.push(self.entry_type.to_u8());
        out.push(self.index_1);
        out.push(self.index_2);
        out.push((self.number_of_opts_1 % 16) * 16 + self.number_of_opts_2 % 16);
        put_u16(out, self.service_id);
        put_u16(out, self.instance_id);
        out.push(self.major_version);
        out.push(((self.ttl >> 16u32) & 0xffu32) as u8);
        out.push(((self.ttl >> 8u32) & 0xffu32) as u8);
        out.push((self.ttl & 0xffu32) as u8);
        put_u32(out, self.minor_version);
        assert(final(out)@ =~= old(out)@ + entry_bytes(*self));
        Ok(())
    }

    /// Reads one entry; fails with `MalformedMessage` when fewer than 16
    /// bytes are left.
    pub fn deserialize(reader: &mut WireReader) -> (r: Result<SdEntry, ReturnCode>)
        ensures
            final(reader).bytes@ == old(reader).bytes@,
            old(reader).rest().len() < 16 ==> r == Err::<SdEntry, ReturnCode>(
                ReturnCode::MalformedMessage,
            ),
            old(reader).rest().len() >= 16 ==> r == Ok::<SdEntry, ReturnCode>(
                entry_from_bytes(old(reader).rest()),
            ) && final(reader).pos == old(reader).pos + 16,
    {
        let b = match reader.read_bytes(16) {
            Some(b) => b,
            None => return Err(ReturnCode::MalformedMessage),
        };
        let ttl_bytes = [0u8, b[9], b[10], b[11]];
        let e = SdEntry {
            entry_type: EntryType::from_u8(b[0]),
            index_1: b[1],
            index_2: b[2],
            number_of_opts_1: b[3] / 16,
            number_of_opts_2: b[3] % 16,
            service_id: get_u16(b.as_slice(), 4),
            instance_id: get_u16(b.as_slice(), 6),
            major_version: b[8],
            ttl: get_u32(&ttl_bytes, 0),
            minor_version: get_u32(b.as_slice(), 12),
        };
        assert(ttl_bytes@ =~= seq![0u8] + old(reader).rest().subrange(9, 12));
        Ok(e)
    }
}

} // verus!
