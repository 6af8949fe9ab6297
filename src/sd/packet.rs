//! The SD packet: [flags u8 | reserved 3 bytes | entries-length u32 |
//! entries | options-length u32 | options].

use vstd::prelude::*;
use crate::codec::header::ReturnCode;
use crate::codec::traits::WireReader;
use crate::codec::wire::{be32, get_u32, read16, read32, put_u32, put_bytes, copy_range};
use crate::codec::header::{SomeIpHeader, header_bytes, header_spec};
use crate::sd::entries::{SdEntry, entry_bytes, entry_from_bytes};
use crate::sd::options::{SdOption, option_decoded, option_encodable, option_wire};

verus! {

/// An SD packet. Flag bit 7 is Reboot, bit 6 Unicast-supported.
#[derive(Debug, Clone)]
pub struct SdPacket {
    pub flags: u8,
    pub entries: Vec<SdEntry>,
    pub options: Vec<SdOption>,
}

/// The concatenated wire bytes of a run of entries.
pub open spec fn entries_wire(es: Seq<SdEntry>) -> Seq<u8>
    decreases es.len(),
{
    if es.len() == 0 {
        Seq::empty()
    } else {
        entries_wire(es.drop_last()) + entry_bytes(es.last())
    }
}

/// The concatenated wire bytes of a run of options.
pub open spec fn options_wire(os: Seq<SdOption>) -> Seq<u8>
    decreases os.len(),
{
    if os.len() == 0 {
        Seq::empty()
    } else {
        options_wire(os.drop_last()) + option_wire(os.last())
    }
}

/// The wire bytes of a packet.
pub open spec fn packet_wire(flags: u8, es: Seq<SdEntry>, os: Seq<SdOption>) -> Seq<u8> {
    seq![flags, 0u8, 0u8, 0u8] + be32(entries_wire(es).len() as u32) + entries_wire(es) + be32(
        options_wire(os).len() as u32,
    ) + options_wire(os)
}

/// Whether a packet can be written: every option is writable and both runs
/// fit their 32-bit length fields.
pub open spec fn packet_encodable(es: Seq<SdEntry>, os: Seq<SdOption>) -> bool {
    &&& forall|i: int| 0 <= i < os.len() ==> option_encodable(#[trigger] os[i])
    &&& entries_wire(es).len() <= u32::MAX
    &&& options_wire(os).len() <= u32::MAX
}

/// Reading options from `r` starting at `pos` yields exactly `os` and ends
/// at `end`.
pub open spec fn options_between(os: Seq<SdOption>, r: Seq<u8>, pos: int, end: int) -> bool
    decreases os.len(),
{
    if os.len() == 0 {
        pos == end
    } else {
        let next = pos + 3 + read16(r, pos);
        &&& 0 <= pos
        &&& pos + 3 <= r.len()
        &&& next <= r.len()
        &&& option_decoded(os[0], r.subrange(pos, r.len() as int))
        &&& options_between(os.drop_first(), r, next, end)
    }
}

/// From `pos` on, `r` is a run of whole options.
pub open spec fn options_region_ok(r: Seq<u8>, pos: int) -> bool
    decreases r.len() - pos,
{
    if pos < 0 || pos > r.len() {
        false
    } else if pos == r.len() {
        true
    } else {
        pos + 3 <= r.len() && pos + 3 + read16(r, pos) <= r.len() && options_region_ok(
            r,
            pos + 3 + read16(r, pos),
        )
    }
}

/// How many entries a reader takes for an entries-length of `len`: it reads
/// 16 bytes at a time while fewer than `len` have been read.
pub open spec fn entry_count(len: u32) -> nat {
    ((len as int + 15) / 16) as nat
}

/// Where the options-length field sits, for an entries-length of `len`.
pub open spec fn options_len_at(len: u32) -> int {
    8 + 16 * entry_count(len) as int
}

/// `s` holds a whole packet: header, the entries its length announces, the
/// options length, and an options run of whole options.
pub open spec fn packet_well_formed(s: Seq<u8>) -> bool {
    let at = options_len_at(read32(s, 4));
    &&& s.len() >= 8
    &&& at + 4 <= s.len()
    &&& at + 4 + read32(s, at) <= s.len()
    &&& options_region_ok(s.subrange(at + 4, at + 4 + read32(s, at)), 0)
}

/// `p` is the packet read from the well-formed bytes `s`.
pub open spec fn packet_decoded(p: SdPacket, s: Seq<u8>) -> bool {
    let n = entry_count(read32(s, 4));
    let at = options_len_at(read32(s, 4));
    let region = s.subrange(at + 4, at + 4 + read32(s, at));
    &&& p.flags == s[0]
    &&& p.entries@.len() == n
    &&& forall|i: int|
        0 <= i < n ==> #[trigger] p.entries@[i] == entry_from_bytes(
            s.subrange(8 + 16 * i, s.len() as int),
        )
    &&& options_between(p.options@, region, 0, region.len() as int)
}

proof fn lemma_options_between_push(
    os: Seq<SdOption>,
    o: SdOption,
    r: Seq<u8>,
    a: int,
    b: int,
)
    requires
        options_between(os, r, a, b),
        0 <= b,
        b + 3 <= r.len(),
        b + 3 + read16(r, b) <= r.len(),
        option_decoded(o, r.subrange(b, r.len() as int)),
    ensures
        options_between(os.push(o), r, a, b + 3 + read16(r, b)),
    decreases os.len(),
{
    let ps = os.push(o);
    assert(ps[ps.len() - 1] == o);
    if os.len() == 0 {
        assert(ps.drop_first() =~= Seq::<SdOption>::empty());
        assert(ps[0] == o);
        assert(options_between(ps.drop_first(), r, b + 3 + read16(r, b), b + 3 + read16(r, b)));
    } else {
        let next = a + 3 + read16(r, a);
        lemma_options_between_push(os.drop_first(), o, r, next, b);
        assert(ps.drop_first() =~= os.drop_first().push(o));
        assert(ps[0] == os[0]);
    }
}

impl SdPacket {
    /// Appends the packet's wire bytes; fails with `MalformedMessage`,
    /// writing nothing, when it cannot be written.
    pub fn serialize(&self, out: &mut Vec<u8>) -> (r: Result<(), ReturnCode>)
        ensures
            r is Ok <==> packet_encodable(self.entries@, self.options@),
            r is Ok ==> final(out)@ == old(out)@ + packet_wire(
                self.flags,
                self.entries@,
                self.options@,
            ),
            r is Err ==> final(out)@ == old(out)@,
    {
        let mut enc_entries: Vec<u8> = Vec::new();
        let mut i: usize = 0;
        while i < self.entries.len()
            invariant
                0 <= i <= self.entries@.len(),
                enc_entries@ == entries_wire(self.entries@.subrange(0, i as int)),
            decreases self.entries@.len() - i,
        {
            let _ = self.entries[i].serialize(&mut enc_entries);
            proof {
                let sub = self.entries@.subrange(0, i as int + 1);
                assert(sub.drop_last() =~= self.entries@.subrange(0, i as int));
            }
            i = i + 1;
        }
        assert(self.entries@.subrange(0, i as int) =~= self.entries@);
        let mut enc_opts: Vec<u8> = Vec::new();
        let mut j: usize = 0;
        while j < self.options.len()
            invariant
                0 <= j <= self.options@.len(),
                enc_opts@ == options_wire(self.options@.subrange(0, j as int)),
                forall|k: int| 0 <= k < j ==> option_encodable(#[trigger] self.options@[k]),
            decreases self.options@.len() - j,
        {
            match self.options[j].serialize(&mut enc_opts) {
                Ok(()) => {},
                Err(e) => {
                    return Err(e);
                },
            }
            proof {
                let sub = self.options@.subrange(0, j as int + 1);
                assert(sub.drop_last() =~= self.options@.subrange(0, j as int));
            }
            j = j + 1;
        }
        assert(self.options@.subrange(0, j as int) =~= self.options@);
        if enc_entries.len() > 0xffff_ffffusize || enc_opts.len() > 0xffff_ffffusize {
            return Err(ReturnCode::MalformedMessage);
        }
        out.push(self.flags);
        out.push(0);
        out.push(0);
        out.push(0);
        put_u32(out, enc_entries.len() as u32);
        put_bytes(out, enc_entries.as_slice());
        put_u32(out, enc_opts.len() as u32);
        put_bytes(out, enc_opts.as_slice());
        assert(final(out)@ =~= old(out)@ + packet_wire(self.flags, self.entries@, self.options@));
        Ok(())
    }

    /// Reads a packet; fails with `MalformedMessage` exactly when the bytes
    /// left do not start with a well-formed packet.
    pub fn deserialize(reader: &mut WireReader) -> (r: Result<SdPacket, ReturnCode>)
        ensures
            final(reader).bytes@ == old(reader).bytes@,
            packet_well_formed(old(reader).rest()) ==> (r matches Ok(p) && packet_decoded(
                p,
                old(reader).rest(),
            )),
            !packet_well_formed(old(reader).rest()) ==> r == Err::<SdPacket, ReturnCode>(
                ReturnCode::MalformedMessage,
            ),
    {
        let ghost s = reader.rest();
        let head = match reader.read_bytes(8) {
            Some(h) => h,
            None => return Err(ReturnCode::MalformedMessage),
        };
        let flags = head[0];
        let entries_len = get_u32(head.as_slice(), 4);
        assert(read32(s, 4) == entries_len);
        let ghost n = entry_count(entries_len);
        let mut entries: Vec<SdEntry> = Vec::new();
        let mut current: u64 = 0;
        while current < entries_len as u64
            invariant
                reader.bytes@ == old(reader).bytes@,
                reader.pos <= reader.bytes@.len(),
                reader.pos == old(reader).pos + 8 + current,
                old(reader).pos <= old(reader).bytes@.len(),
                s == old(reader).rest(),
                s.len() >= 8,
                current % 16 == 0,
                current == 16 * entries@.len(),
                current <= entries_len as u64 + 15,
                entries@.len() <= n,
                entries_len == read32(s, 4),
                n == entry_count(entries_len),
                (current < entries_len as u64) ==> entries@.len() < n,
                (current >= entries_len as u64) ==> entries@.len() == n,
                reader.rest() == s.subrange(8 + current, s.len() as int),
                forall|i: int|
                    0 <= i < entries@.len() ==> #[trigger] entries@[i] == entry_from_bytes(
                        s.subrange(8 + 16 * i, s.len() as int),
                    ),
            decreases entries_len as u64 + 16 - current,
        {
            let e = match SdEntry::deserialize(reader) {
                Ok(e) => e,
                Err(err) => {
                    assert(s.len() < options_len_at(entries_len) + 4);
                    return Err(err);
                },
            };
            assert(reader.rest() =~= s.subrange(8 + current + 16, s.len() as int));
            entries.push(e);
            current = current + 16;
        }
        assert(8 + current == options_len_at(entries_len));
        let ghost at = options_len_at(entries_len);
        let olen_bytes = match reader.read_bytes(4) {
            Some(b) => b,
            None => return Err(ReturnCode::MalformedMessage),
        };
        let options_len = get_u32(olen_bytes.as_slice(), 0);
        assert(options_len == read32(s, at));
        assert(reader.rest() =~= s.subrange(at + 4, s.len() as int));
        let region_bytes = match reader.read_bytes(options_len as usize) {
            Some(b) => b,
            None => return Err(ReturnCode::MalformedMessage),
        };
        let ghost region = s.subrange(at + 4, at + 4 + options_len);
        assert(region_bytes@ =~= region);
        let mut sub = WireReader::new(region_bytes);
        let mut options: Vec<SdOption> = Vec::new();
        while sub.remaining() > 0
            invariant
                reader.bytes@ == old(reader).bytes@,
                s == old(reader).rest(),
                at == options_len_at(read32(s, 4)),
                options_len == read32(s, at),
                at + 4 + options_len <= s.len(),
                region == s.subrange(at + 4, at + 4 + read32(s, at)),
                sub.bytes@ == region,
                sub.pos <= region.len(),
                sub.rest() == region.subrange(sub.pos as int, region.len() as int),
                options_between(options@, region, 0, sub.pos as int),
                options_region_ok(region, 0) == options_region_ok(region, sub.pos as int),
            decreases region.len() - sub.pos,
        {
            let ghost pos = sub.pos as int;
            let ghost rest = sub.rest();
            let o = match SdOption::deserialize(&mut sub) {
                Ok(o) => o,
                Err(e) => {
                    assert(!options_region_ok(region, pos));
                    return Err(e);
                },
            };
            proof {
                assert(read16(rest, 0) == read16(region, pos));
                assert(rest =~= region.subrange(pos, region.len() as int));
                lemma_options_between_push(options@, o, region, 0, pos);
                assert(sub.rest() =~= region.subrange(sub.pos as int, region.len() as int));
            }
            options.push(o);
        }
        Ok(SdPacket { flags, entries, options })
    }
}

/// The SOME/IP header that carries SD packets: service 0xFFFF, method
/// 0x8100, client 0, session 1, Notification.
pub open spec fn sd_header(payload_len: u32) -> SomeIpHeader {
    header_spec(0xFFFF, 0x8100, 0x0000, 0x0001, 0x02, payload_len, 0x01, 0x00)
}

/// Frames one entry and its options as an SD message: the SOME/IP header,
/// then a packet with the Reboot flag set. Fails with `MalformedMessage`
/// when the packet cannot be written or is too long for the header's
/// length field.
pub fn build_sd_message(entry: SdEntry, options: Vec<SdOption>) -> (r: Result<Vec<u8>, ReturnCode>)
    ensures
        ({
            let wire = packet_wire(0x80, seq![entry], options@);
            &&& r is Ok <==> packet_encodable(seq![entry], options@) && wire.len() <= u32::MAX - 8
            &&& r matches Ok(v) ==> v@ == header_bytes(sd_header(wire.len() as u32)) + wire
        }),
{
    let mut entries: Vec<SdEntry> = Vec::new();
    entries.push(entry);
    let packet = SdPacket { flags: 0x80, entries, options };
    assert(packet.entries@ =~= seq![entry]);
    let mut payload: Vec<u8> = Vec::new();
    match packet.serialize(&mut payload) {
        Ok(()) => {},
        Err(e) => {
            return Err(e);
        },
    }
    assert(payload@ =~= packet_wire(0x80, seq![entry], packet.options@));
    if payload.len() > 0xffff_fff7usize {
        return Err(ReturnCode::MalformedMessage);
    }
    let header = SomeIpHeader::new(0xFFFF, 0x8100, 0x0000, 0x0001, 0x02, payload.len() as u32);
    let head = header.serialize();
    let mut message: Vec<u8> = Vec::new();
    put_bytes(&mut message, &head);
    put_bytes(&mut message, payload.as_slice());
    assert(message@ =~= header_bytes(sd_header(payload@.len() as u32)) + payload@);
    Ok(message)
}

/// Reads the SD packet that follows the 16-byte header of a received SD
/// message; nothing when the message is no longer than the header or the
/// packet is malformed.
pub fn parse_sd_message(bytes: &[u8]) -> (r: Option<SdPacket>)
    ensures
        r is Some <==> bytes@.len() > 16 && packet_well_formed(bytes@.subrange(16, bytes@.len() as int)),
        r matches Some(p) ==> packet_decoded(p, bytes@.subrange(16, bytes@.len() as int)),
{
    if bytes.len() <= 16 {
        return None;
    }
    let body = copy_range(bytes, 16, bytes.len());
    let mut reader = WireReader::new(body);
    match SdPacket::deserialize(&mut reader) {
        Ok(p) => Some(p),
        Err(_) => None,
    }
}

} // verus!
