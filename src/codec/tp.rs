//! SOME/IP Transport Protocol: the 4-byte TP sub-header, segmentation of a
//! payload into 16-byte-aligned chunks, and reassembly keyed by
//! (message-id, request-id).

use vstd::prelude::*;
use std::collections::HashMap;
use crate::codec::header::ReturnCode;
use crate::codec::wire::{be32, get_u32, read32, lemma_be32_round_trip, copy_range};

verus! {

/// The TP sub-header: an absolute byte offset (carried on the wire in units
/// of 16 bytes) and the More-Segments flag.
#[derive(Debug, Clone, Copy, PartialEq, Eq, Structural)]
pub struct TpHeader {
    pub offset: u32,
    pub more_segments: bool,
}

/// The 32-bit word of a TP sub-header: offset units in the top 28 bits,
/// three reserved zero bits, More-Segments in bit 0.
pub open spec fn tp_word(h: TpHeader) -> u32 {
    ((h.offset / 16) * 16 + if h.more_segments { 1int } else { 0int }) as u32
}

/// The TP sub-header a 32-bit word holds; reserved bits are ignored.
pub open spec fn tp_from_word(w: u32) -> TpHeader {
    TpHeader { offset: ((w / 16) * 16) as u32, more_segments: w % 2 == 1 }
}

/// A sub-header whose offset is 16-byte aligned survives encoding and
/// decoding unchanged.
pub proof fn lemma_tp_header_round_trip(h: TpHeader)
    requires
        h.offset % 16 == 0,
    ensures
        tp_from_word(read32(be32(tp_word(h)), 0)) == h,
{
    lemma_be32_round_trip(tp_word(h));
}

impl TpHeader {
    pub const HEADER_LENGTH: usize = 4;

    pub fn new(offset: u32, more_segments: bool) -> (r: TpHeader)
        ensures
            r == (TpHeader { offset, more_segments }),
    {
        TpHeader { offset, more_segments }
    }

    /// The four network-order bytes of the sub-header.
    pub fn serialize(&self) -> (r: [u8; 4])
        ensures
            r@ == be32(tp_word(*self)),
    {
        let m: u32 = if self.more_segments {
            1
        } else {
            0
        };
        let val: u32 = (self.offset / 16) * 16 + m;
        let r = [
            (val >> 24u32) as u8,
            ((val >> 16u32) & 0xffu32) as u8,
            ((val >> 8u32) & 0xffu32) as u8,
            (val & 0xffu32) as u8,
        ];
        assert(r@ =~= be32(tp_word(*self)));
        r
    }

    /// Decodes the first four bytes; fails with `MalformedMessage` exactly
    /// when fewer are given.
    pub fn deserialize(buffer: &[u8]) -> (r: Result<TpHeader, ReturnCode>)
        ensures
            buffer@.len() < 4 ==> r == Err::<TpHeader, ReturnCode>(ReturnCode::MalformedMessage),
            buffer@.len() >= 4 ==> r == Ok::<TpHeader, ReturnCode>(tp_from_word(read32(buffer@, 0))),
    {
        if buffer.len() < 4 {
            return Err(ReturnCode::MalformedMessage);
        }
        let val = get_u32(buffer, 0);
        Ok(TpHeader { offset: (val / 16) * 16, more_segments: val % 2 == 1 })
    }
}

/// `max` rounded down to a multiple of 16.
pub open spec fn aligned_max(max: nat) -> nat {
    (max / 16) * 16
}

/// `segs` is the segmentation of `p` at `max` (with `a` the largest multiple
/// of 16 not above `max`): the segments tile `p` in order from offset 0;
/// every segment but the last holds exactly `a` bytes with More set; the
/// last holds the remaining `1..=a` bytes (none for an empty payload) with
/// More cleared.
pub open spec fn is_segmentation(segs: Seq<(TpHeader, Vec<u8>)>, p: Seq<u8>, max: nat) -> bool {
    let a = aligned_max(max);
    let n = segs.len() as int;
    &&& n >= 1
    &&& segs[0].0.offset == 0
    &&& forall|i: int|
        0 <= i < n ==> {
            &&& (#[trigger] segs[i]).0.offset + segs[i].1@.len() <= p.len()
            &&& segs[i].1@ == p.subrange(
                segs[i].0.offset as int,
                segs[i].0.offset + segs[i].1@.len(),
            )
        }
    &&& forall|i: int|
        0 <= i < n - 1 ==> {
            &&& (#[trigger] segs[i]).1@.len() == a
            &&& segs[i].0.more_segments
            &&& segs[i + 1].0.offset == segs[i].0.offset + a
        }
    &&& !segs[n - 1].0.more_segments
    &&& segs[n - 1].0.offset + segs[n - 1].1@.len() == p.len()
    &&& segs[n - 1].1@.len() <= a
    &&& p.len() > 0 ==> segs[n - 1].1@.len() > 0
}

/// Splits `payload` into TP segments of `max` bytes aligned down to 16; the
/// last carries the remainder with More cleared.
pub fn segment_payload(payload: &[u8], max_payload_per_segment: usize) -> (r: Vec<(TpHeader, Vec<u8>)>)
    requires
        payload@.len() == 0 || max_payload_per_segment >= 16,
        payload@.len() <= u32::MAX,
    ensures
        is_segmentation(r@, payload@, max_payload_per_segment as nat),
        payload@.len() == 0 ==> r@.len() == 1,
{
    let a: usize = (max_payload_per_segment / 16) * 16;
    let total = payload.len();
    let mut segments: Vec<(TpHeader, Vec<u8>)> = Vec::new();
    if total == 0 {
        segments.push((TpHeader::new(0, false), Vec::new()));
        assert(segments@[0].1@ =~= payload@.subrange(0, 0));
        return segments;
    }
    let mut cursor: usize = 0;
    while cursor < total
        invariant
            a == aligned_max(max_payload_per_segment as nat),
            a >= 16,
            total == payload@.len(),
            total <= u32::MAX,
            total > 0,
            cursor <= total,
            segments@.len() == 0 ==> cursor == 0,
            segments@.len() > 0 ==> {
                let last = segments@[segments@.len() - 1];
                &&& last.0.offset + last.1@.len() == cursor
                &&& last.0.more_segments == (cursor < total)
                &&& last.1@.len() <= a
                &&& last.1@.len() > 0
                &&& last.0.more_segments ==> last.1@.len() == a
            },
            segments@.len() > 0 ==> segments@[0].0.offset == 0,
            forall|i: int|
                0 <= i < segments@.len() ==> {
                    &&& (#[trigger] segments@[i]).0.offset + segments@[i].1@.len() <= total
                    &&& segments@[i].1@ == payload@.subrange(
                        segments@[i].0.offset as int,
                        segments@[i].0.offset + segments@[i].1@.len(),
                    )
                },
            forall|i: int|
                0 <= i < segments@.len() - 1 ==> {
                    &&& (#[trigger] segments@[i]).1@.len() == a
                    &&& segments@[i].0.more_segments
                    &&& segments@[i + 1].0.offset == segments@[i].0.offset + a
                },
        decreases total - cursor,
    {
        let remaining = total - cursor;
        let chunk_len = if remaining > a {
            a
        } else {
            remaining
        };
        let more = cursor + chunk_len < total;
        let chunk = copy_range(payload, cursor, cursor + chunk_len);
        segments.push((TpHeader::new(cursor as u32, more), chunk));
        cursor = cursor + chunk_len;
    }
    segments
}

/// The bytes of the first `n` segments, in order.
pub open spec fn pieces_concat(segs: Seq<(u32, Vec<u8>)>, n: int) -> Seq<u8>
    decreases n,
{
    if n <= 0 {
        Seq::empty()
    } else {
        pieces_concat(segs, n - 1) + segs[n - 1].1@
    }
}

/// Every piece starts where the ones before it end, and the whole fits the
/// 32-bit offset space.
pub open spec fn pieces_chained(segs: Seq<(u32, Vec<u8>)>) -> bool {
    &&& forall|i: int| 0 <= i < segs.len() ==> (#[trigger] segs[i]).0 == pieces_concat(segs, i).len()
    &&& pieces_concat(segs, segs.len() as int).len() <= u32::MAX
}

/// Concatenates (offset, bytes) pieces given in offset order; fails with
/// `MalformedMessage` exactly when a piece does not start where the previous
/// ones end, or the whole would not fit the 32-bit offset space.
pub fn reassemble_payload(segments: &Vec<(u32, Vec<u8>)>) -> (r: Result<Vec<u8>, ReturnCode>)
    ensures
        r is Ok <==> pieces_chained(segments@),
        r matches Ok(v) ==> v@ == pieces_concat(segments@, segments@.len() as int),
        r is Err ==> r == Err::<Vec<u8>, ReturnCode>(ReturnCode::MalformedMessage),
{
    let mut buffer: Vec<u8> = Vec::new();
    let mut i: usize = 0;
    while i < segments.len()
        invariant
            0 <= i <= segments@.len(),
            buffer@ == pieces_concat(segments@, i as int),
            buffer@.len() <= u32::MAX,
            forall|j: int|
                0 <= j < i ==> (#[trigger] segments@[j]).0 == pieces_concat(segments@, j).len(),
        decreases segments@.len() - i,
    {
        let offset = segments[i].0;
        if offset as usize != buffer.len() {
            return Err(ReturnCode::MalformedMessage);
        }
        let data = &segments[i].1;
        if data.len() > 0xffff_ffffusize - buffer.len() {
            proof {
                assert(pieces_concat(segments@, i as int + 1).len() > u32::MAX);
                lemma_pieces_concat_grows(segments@, i as int + 1, segments@.len() as int);
            }
            return Err(ReturnCode::MalformedMessage);
        }
        let mut k: usize = 0;
        let ghost before = buffer@;
        while k < data.len()
            invariant
                0 <= k <= data@.len(),
                buffer@ == before + data@.subrange(0, k as int),
            decreases data@.len() - k,
        {
            buffer.push(data[k]);
            k = k + 1;
            assert(buffer@ =~= before + data@.subrange(0, k as int));
        }
        assert(data@.subrange(0, k as int) =~= data@);
        i = i + 1;
    }
    Ok(buffer)
}

/// Concatenations only grow.
pub proof fn lemma_pieces_concat_grows(segs: Seq<(u32, Vec<u8>)>, m: int, n: int)
    requires
        0 <= m <= n,
    ensures
        pieces_concat(segs, m).len() <= pieces_concat(segs, n).len(),
    decreases n - m,
{
    if m < n {
        lemma_pieces_concat_grows(segs, m, n - 1);
    }
}

/// The (offset, bytes) pieces of a list of segments.
pub open spec fn pieces_of(segs: Seq<(TpHeader, Vec<u8>)>) -> Seq<(u32, Vec<u8>)> {
    segs.map_values(|s: (TpHeader, Vec<u8>)| (s.0.offset, s.1))
}

/// Segmenting a payload and reassembling the segments gives the payload
/// back; every segment but the last holds a positive multiple of 16 bytes
/// with More set, and the last has More cleared.
pub proof fn lemma_segment_reassemble(segs: Seq<(TpHeader, Vec<u8>)>, p: Seq<u8>, max: nat)
    requires
        max >= 16,
        p.len() <= u32::MAX,
        is_segmentation(segs, p, max),
    ensures
        pieces_chained(pieces_of(segs)),
        pieces_concat(pieces_of(segs), segs.len() as int) == p,
        forall|i: int|
            0 <= i < segs.len() - 1 ==> (#[trigger] segs[i]).1@.len() > 0 && segs[i].1@.len() % 16
                == 0 && segs[i].0.more_segments,
        !segs[segs.len() - 1].0.more_segments,
{
    let n = segs.len() as int;
    let ps = pieces_of(segs);
    assert forall|i: int| 0 <= i < n implies (#[trigger] ps[i]).0 == pieces_concat(ps, i).len() by {
        lemma_prefix_concat(segs, p, max, i);
    }
    lemma_prefix_concat(segs, p, max, n);
    assert forall|i: int| 0 <= i < n - 1 implies (#[trigger] segs[i]).1@.len() > 0 && segs[i].1@.len()
        % 16 == 0 && segs[i].0.more_segments by {
        assert(segs[i].1@.len() == aligned_max(max));
    }
}

/// The first `i` segments concatenate to the payload up to where segment
/// `i` starts (up to its end for all of them).
proof fn lemma_prefix_concat(segs: Seq<(TpHeader, Vec<u8>)>, p: Seq<u8>, max: nat, i: int)
    requires
        max >= 16,
        is_segmentation(segs, p, max),
        0 <= i <= segs.len(),
    ensures
        i < segs.len() ==> pieces_concat(pieces_of(segs), i) == p.subrange(0, segs[i].0.offset as int),
        i == segs.len() ==> pieces_concat(pieces_of(segs), i) == p,
    decreases i,
{
    let ps = pieces_of(segs);
    let n = segs.len() as int;
    if i > 0 {
        lemma_prefix_concat(segs, p, max, i - 1);
        let prev = segs[i - 1];
        assert(ps[i - 1].1@ == prev.1@);
        if i < n {
            assert(segs[i].0.offset == prev.0.offset + prev.1@.len());
            assert(pieces_concat(ps, i) =~= p.subrange(0, segs[i].0.offset as int));
        } else {
            assert(pieces_concat(ps, i) =~= p);
        }
    } else {
        assert(pieces_concat(ps, 0) =~= p.subrange(0, 0));
    }
}

broadcast use vstd::std_specs::hash::group_hash_axioms;

/// Most bytes buffered for one (message-id, request-id) key; a key that
/// would hold more is dropped.
pub const MAX_REASSEMBLY_BYTES: usize = 1048576;

/// One received segment: its absolute offset, its bytes, its More flag.
pub struct TpSegment {
    pub offset: u32,
    pub data: Vec<u8>,
    pub more: bool,
}

impl View for TpSegment {
    type V = (u32, Seq<u8>, bool);

    open spec fn view(&self) -> (u32, Seq<u8>, bool) {
        (self.offset, self.data@, self.more)
    }
}

/// The (offset, bytes, more) models of stored segments.
pub open spec fn seg_models(v: Seq<TpSegment>) -> Seq<(u32, Seq<u8>, bool)> {
    v.map_values(|s: TpSegment| s@)
}

/// Offsets strictly increase along the sequence.
pub open spec fn offsets_sorted(s: Seq<(u32, Seq<u8>, bool)>) -> bool {
    forall|i: int, j: int| 0 <= i < j < s.len() ==> s[i].0 < s[j].0
}

/// `k` is where a segment at offset `off` belongs in `s`.
pub open spec fn is_slot(s: Seq<(u32, Seq<u8>, bool)>, off: u32, k: int) -> bool {
    &&& 0 <= k <= s.len()
    &&& forall|j: int| 0 <= j < k ==> (#[trigger] s[j]).0 < off
    &&& k < s.len() ==> s[k].0 >= off
}

/// `s` with `seg` put in offset order; a stored segment at the same offset is
/// replaced (the later arrival wins).
pub open spec fn tp_insert(s: Seq<(u32, Seq<u8>, bool)>, seg: (u32, Seq<u8>, bool)) -> Seq<
    (u32, Seq<u8>, bool),
> {
    let k = choose|k: int| is_slot(s, seg.0, k);
    if k < s.len() && s[k].0 == seg.0 {
        s.update(k, seg)
    } else {
        s.insert(k, seg)
    }
}

/// The bytes of the first `n` stored segments, in order.
pub open spec fn stored_concat(s: Seq<(u32, Seq<u8>, bool)>, n: int) -> Seq<u8>
    decreases n,
{
    if n <= 0 {
        Seq::empty()
    } else {
        stored_concat(s, n - 1) + s[n - 1].1
    }
}

/// The stored segments complete a message: scanning in offset order from
/// offset 0, each segment starts where the previous ones end, up to the
/// first one with More cleared.
pub open spec fn tp_ready(s: Seq<(u32, Seq<u8>, bool)>) -> bool {
    exists|j: int| ready_at(s, j)
}

/// Segment `j` is the first with More cleared and the scan up to it finds
/// no gap.
pub open spec fn ready_at(s: Seq<(u32, Seq<u8>, bool)>, j: int) -> bool {
    &&& 0 <= j < s.len()
    &&& !s[j].2
    &&& forall|i: int| 0 <= i < j ==> (#[trigger] s[i]).2
    &&& forall|i: int| 0 <= i <= j ==> (#[trigger] s[i]).0 == stored_concat(s, i).len()
}

/// The key of a (message-id, request-id) pair.
pub open spec fn tp_key(message_id: u32, request_id: u32) -> u64 {
    (message_id as int * 4294967296 + request_id as int) as u64
}

/// The segments stored under `key` (none if the key is not pending).
pub open spec fn stored(m: Map<u64, Seq<(u32, Seq<u8>, bool)>>, key: u64) -> Seq<
    (u32, Seq<u8>, bool),
> {
    if m.contains_key(key) {
        m[key]
    } else {
        Seq::empty()
    }
}

/// What storing `seg` does to one key's segments: the result reported and
/// the segments left under the key (none when the key is dropped).
pub open spec fn tp_step(s: Seq<(u32, Seq<u8>, bool)>, seg: (u32, Seq<u8>, bool)) -> (
    Result<Option<Seq<u8>>, ReturnCode>,
    Seq<(u32, Seq<u8>, bool)>,
) {
    let t = tp_insert(s, seg);
    if stored_concat(t, t.len() as int).len() > MAX_REASSEMBLY_BYTES {
        (Err(ReturnCode::MalformedMessage), Seq::empty())
    } else if tp_ready(t) {
        (Ok(Some(stored_concat(t, t.len() as int))), Seq::empty())
    } else {
        (Ok(None), t)
    }
}

/// Reassembles TP messages, keyed by (message-id, request-id).
pub struct TpReassembler {
    buffers: HashMap<u64, Vec<TpSegment>>,
}

impl View for TpReassembler {
    type V = Map<u64, Seq<(u32, Seq<u8>, bool)>>;

    closed spec fn view(&self) -> Map<u64, Seq<(u32, Seq<u8>, bool)>> {
        self.buffers@.map_values(|v: Vec<TpSegment>| seg_models(v@))
    }
}

/// In a sorted run there is one place for a given offset.
pub proof fn lemma_slot_unique(s: Seq<(u32, Seq<u8>, bool)>, off: u32, k1: int, k2: int)
    requires
        offsets_sorted(s),
        is_slot(s, off, k1),
        is_slot(s, off, k2),
    ensures
        k1 == k2,
{
    if k1 < k2 {
        assert(s[k1].0 < off);
    } else if k2 < k1 {
        assert(s[k2].0 < off);
    }
}

/// Puts `seg` in offset order, replacing a segment at the same offset.
fn insert_segment(segs: &mut Vec<TpSegment>, seg: TpSegment)
    requires
        offsets_sorted(seg_models(old(segs)@)),
    ensures
        seg_models(final(segs)@) == tp_insert(seg_models(old(segs)@), seg@),
        offsets_sorted(seg_models(final(segs)@)),
        final(segs)@.len() > 0,
{
    let ghost m0 = seg_models(segs@);
    let ghost sm = seg@;
    let mut k: usize = 0;
    while k < segs.len() && segs[k].offset < seg.offset
        invariant
            0 <= k <= segs@.len(),
            m0 == seg_models(segs@),
            forall|j: int| 0 <= j < k ==> (#[trigger] m0[j]).0 < seg.offset,
        decreases segs@.len() - k,
    {
        k = k + 1;
    }
    proof {
        assert(is_slot(m0, seg.offset, k as int));
        let c = choose|c: int| is_slot(m0, seg.offset, c);
        lemma_slot_unique(m0, seg.offset, k as int, c);
    }
    if k < segs.len() && segs[k].offset == seg.offset {
        segs.set(k, seg);
        assert(seg_models(segs@) =~= m0.update(k as int, sm));
    } else {
        segs.insert(k, seg);
        let ghost m1 = seg_models(segs@);
        assert(m1 =~= m0.insert(k as int, sm));
        assert forall|i: int, j: int| 0 <= i < j < m1.len() implies m1[i].0 < m1[j].0 by {
            if j < k {
            } else if j == k {
            } else if i < k {
                assert(m1[j] == m0[j - 1]);
            } else if i == k {
                assert(m1[j] == m0[j - 1]);
            } else {
                assert(m1[j] == m0[j - 1] && m1[i] == m0[i - 1]);
            }
        }
    }
}

proof fn lemma_stored_concat_grows(s: Seq<(u32, Seq<u8>, bool)>, m: int, n: int)
    requires
        0 <= m <= n,
    ensures
        stored_concat(s, m).len() <= stored_concat(s, n).len(),
    decreases n - m,
{
    if m < n {
        lemma_stored_concat_grows(s, m, n - 1);
    }
}

/// The total number of bytes stored, if it is at most `MAX_REASSEMBLY_BYTES`.
fn stored_total(segs: &Vec<TpSegment>) -> (r: Option<usize>)
    ensures
        r is Some <==> stored_concat(seg_models(segs@), segs@.len() as int).len()
            <= MAX_REASSEMBLY_BYTES,
        r matches Some(n) ==> n == stored_concat(seg_models(segs@), segs@.len() as int).len(),
{
    let ghost m = seg_models(segs@);
    let mut total: usize = 0;
    let mut i: usize = 0;
    while i < segs.len()
        invariant
            0 <= i <= segs@.len(),
            m == seg_models(segs@),
            total == stored_concat(m, i as int).len(),
            total <= MAX_REASSEMBLY_BYTES,
        decreases segs@.len() - i,
    {
        let n = segs[i].data.len();
        if n > MAX_REASSEMBLY_BYTES - total {
            proof {
                lemma_stored_concat_grows(m, i as int + 1, segs@.len() as int);
            }
            return None;
        }
        total = total + n;
        i = i + 1;
    }
    Some(total)
}

/// Whether the stored segments complete a message.
#[verifier::rlimit(40)]
fn segments_ready(segs: &Vec<TpSegment>) -> (r: bool)
    requires
        stored_concat(seg_models(segs@), segs@.len() as int).len() <= MAX_REASSEMBLY_BYTES,
    ensures
        r == tp_ready(seg_models(segs@)),
{
    let ghost m = seg_models(segs@);
    let mut expected: usize = 0;
    let mut i: usize = 0;
    while i < segs.len()
        invariant
            0 <= i <= segs@.len(),
            m == seg_models(segs@),
            stored_concat(m, segs@.len() as int).len() <= MAX_REASSEMBLY_BYTES,
            expected == stored_concat(m, i as int).len(),
            forall|x: int| 0 <= x < i ==> (#[trigger] m[x]).2,
            forall|x: int| 0 <= x < i ==> (#[trigger] m[x]).0 == stored_concat(m, x).len(),
        decreases segs@.len() - i,
    {
        proof {
            lemma_stored_concat_grows(m, i as int + 1, segs@.len() as int);
        }
        if segs[i].offset as usize != expected {
            proof {
                if tp_ready(m) {
                    let j = choose|j: int| ready_at(m, j);
                    if j < i {
                        assert(m[j].2);
                    } else {
                        assert(m[i as int].0 == stored_concat(m, i as int).len());
                    }
                }
            }
            return false;
        }
        expected = expected + segs[i].data.len();
        if !segs[i].more {
            assert(ready_at(m, i as int));
            return true;
        }
        i = i + 1;
    }
    proof {
        if tp_ready(m) {
            let j = choose|j: int| ready_at(m, j);
            assert(m[j].2);
        }
    }
    false
}

/// The stored bytes, concatenated in offset order.
fn concat_segments(segs: &Vec<TpSegment>) -> (r: Vec<u8>)
    ensures
        r@ == stored_concat(seg_models(segs@), segs@.len() as int),
{
    let ghost m = seg_models(segs@);
    let mut out: Vec<u8> = Vec::new();
    let mut i: usize = 0;
    while i < segs.len()
        invariant
            0 <= i <= segs@.len(),
            m == seg_models(segs@),
            out@ == stored_concat(m, i as int),
        decreases segs@.len() - i,
    {
        let data = &segs[i].data;
        let ghost before = out@;
        let mut k: usize = 0;
        while k < data.len()
            invariant
                0 <= k <= data@.len(),
                out@ == before + data@.subrange(0, k as int),
            decreases data@.len() - k,
        {
            out.push(data[k]);
            k = k + 1;
            assert(out@ =~= before + data@.subrange(0, k as int));
        }
        assert(data@.subrange(0, k as int) =~= data@);
        i = i + 1;
    }
    out
}

impl TpReassembler {
    /// Every key's segments are kept in strictly increasing offset order.
    pub open spec fn wf(&self) -> bool {
        forall|k: u64| #[trigger] self@.contains_key(k) ==> offsets_sorted(self@[k])
    }

    pub fn new() -> (r: TpReassembler)
        ensures
            r@ == Map::<u64, Seq<(u32, Seq<u8>, bool)>>::empty(),
            r.wf(),
    {
        let r = TpReassembler { buffers: HashMap::new() };
        assert(r@ =~= Map::<u64, Seq<(u32, Seq<u8>, bool)>>::empty());
        r
    }

    /// Whether segments of the key are buffered, waiting for more.
    pub fn is_pending(&self, message_id: u32, request_id: u32) -> (r: bool)
        ensures
            r == self@.contains_key(tp_key(message_id, request_id)),
    {
        let key: u64 = (message_id as u64) * 4294967296 + (request_id as u64);
        self.buffers.contains_key(&key)
    }

    /// Stores one segment and reports: `Ok(Some(payload))` when the key's
    /// segments now complete a message (the key is then dropped),
    /// `Ok(None)` while incomplete, and `Err(MalformedMessage)` when the key
    /// would buffer more than `MAX_REASSEMBLY_BYTES` (the key is dropped).
    /// Other keys are untouched.
    pub fn process_segment(
        &mut self,
        message_id: u32,
        request_id: u32,
        tp_header: &TpHeader,
        payload: &[u8],
    ) -> (r: Result<Option<Vec<u8>>, ReturnCode>)
        requires
            old(self).wf(),
        ensures
            final(self).wf(),
            ({
                let key = tp_key(message_id, request_id);
                let step = tp_step(
                    stored(old(self)@, key),
                    (tp_header.offset, payload@, tp_header.more_segments),
                );
                &&& match (r, step.0) {
                    (Ok(Some(v)), Ok(Some(w))) => v@ == w,
                    (Ok(None), Ok(None)) => true,
                    (Err(e), Err(f)) => e == f,
                    _ => false,
                }
                &&& stored(final(self)@, key) == step.1
                &&& final(self)@.contains_key(key) <==> step.1.len() > 0
                &&& forall|k: u64| k != key ==> #[trigger] stored(final(self)@, k) == stored(old(self)@, k)
                &&& forall|k: u64| k != key ==> (#[trigger] final(self)@.contains_key(k) <==> old(self)@.contains_key(k))
            }),
    {
        let key: u64 = (message_id as u64) * 4294967296 + (request_id as u64);
        let ghost old_view = self@;
        let mut segs: Vec<TpSegment> = match self.buffers.remove(&key) {
            Some(s) => s,
            None => Vec::new(),
        };
        proof {
            assert(seg_models(segs@) =~= stored(old_view, key));
            assert(self@ =~= old_view.remove(key));
        }
        let seg = TpSegment { offset: tp_header.offset, data: copy_range(payload, 0, payload.len()), more: tp_header.more_segments };
        assert(payload@.subrange(0, payload@.len() as int) =~= payload@);
        insert_segment(&mut segs, seg);
        match stored_total(&segs) {
            None => {
                assert(stored(self@, key) =~= Seq::<(u32, Seq<u8>, bool)>::empty());
                return Err(ReturnCode::MalformedMessage);
            },
            Some(_) => {},
        }
        if segments_ready(&segs) {
            let whole = concat_segments(&segs);
            assert(stored(self@, key) =~= Seq::<(u32, Seq<u8>, bool)>::empty());
            Ok(Some(whole))
        } else {
            let ghost t = seg_models(segs@);
            self.buffers.insert(key, segs);
            proof {
                assert(self@ =~= old_view.insert(key, t));
            }
            Ok(None)
        }
    }
}

} // verus!
