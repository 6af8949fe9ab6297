//! Dispatch decisions of the event loop and the framing of outgoing
//! requests and responses.

use vstd::prelude::*;
use crate::codec::header::{SomeIpHeader, header_bytes, header_from_bytes, header_spec};
use crate::codec::tp::{TpHeader, TpReassembler, aligned_max, is_segmentation, segment_payload, stored, tp_from_word, tp_key, tp_step, tp_word};
use crate::codec::wire::{be32, copy_range, put_bytes, read32};
use crate::sd::machine::Endpoint;
use crate::sd::options::PROTO_TCP;

verus! {

/// The conservative datagram MTU.
pub const MTU: usize = 1400;

/// Header bytes of a TP frame: the SOME/IP header plus the TP sub-header.
pub const TP_FRAME_OVERHEAD: usize = 20;

/// Payloads longer than this (`MTU − 20`) are segmented.
pub const SEGMENTATION_THRESHOLD: usize = 1380;

/// The payload bytes one segment carries: `(MTU − 20)` aligned down to 16.
pub const MAX_SEGMENT_PAYLOAD: usize = 1376;

/// Where a received message goes, by its message-type code.
#[derive(Debug, Clone, Copy, PartialEq, Eq, Structural)]
pub enum Route {
    /// 0x80 / 0xA0: completes a pending request.
    Response,
    /// 0x02 / 0x22: delivered to the service's handler, result discarded.
    Notification,
    /// 0x00 / 0x20 (reply) and 0x01 / 0x21 (no reply): handled by the
    /// service's handler.
    Request { reply: bool },
    /// Anything else is not dispatched.
    Other,
}

pub open spec fn route_spec(message_type: u8) -> Route {
    if message_type == 0x80 || message_type == 0xA0 {
        Route::Response
    } else if message_type == 0x02 || message_type == 0x22 {
        Route::Notification
    } else if message_type == 0x00 || message_type == 0x20 {
        Route::Request { reply: true }
    } else if message_type == 0x01 || message_type == 0x21 {
        Route::Request { reply: false }
    } else {
        Route::Other
    }
}

/// Where a message of this type is routed.
pub fn route_of(message_type: u8) -> (r: Route)
    ensures
        r == route_spec(message_type),
{
    if message_type == 0x80 || message_type == 0xA0 {
        Route::Response
    } else if message_type == 0x02 || message_type == 0x22 {
        Route::Notification
    } else if message_type == 0x00 || message_type == 0x20 {
        Route::Request { reply: true }
    } else if message_type == 0x01 || message_type == 0x21 {
        Route::Request { reply: false }
    } else {
        Route::Other
    }
}

/// A message type that carries a TP sub-header: one of the five segmented
/// types.
pub open spec fn is_tp_type(t: u8) -> bool {
    t == 0x20 || t == 0x21 || t == 0x22 || t == 0xA0 || t == 0xA1
}

/// What a received frame amounts to.
pub enum Inbound {
    /// Shorter than its headers; dropped.
    Malformed,
    /// A TP segment was stored; the message is not complete yet.
    Pending,
    /// TP reassembly failed and the key was dropped.
    ReassemblyFailed,
    /// A complete message (reassembled if it was segmented).
    Message { header: SomeIpHeader, payload: Vec<u8> },
}

/// The TP message id of a header: service << 16 | method.
pub open spec fn message_id_of(h: SomeIpHeader) -> u32 {
    (h.service_id as int * 65536 + h.method_id as int) as u32
}

/// The TP request id of a header: client << 16 | session.
pub open spec fn request_id_of(h: SomeIpHeader) -> u32 {
    (h.client_id as int * 65536 + h.session_id as int) as u32
}

/// Turns a received frame into a message: frames shorter than 16 bytes
/// (20 for segmented types) are malformed; segments go through the
/// reassembler; the payload of an unsegmented frame is everything after the
/// header.
pub fn receive_frame(bytes: &[u8], reassembler: &mut TpReassembler) -> (r: Inbound)
    requires
        old(reassembler).wf(),
    ensures
        final(reassembler).wf(),
        bytes@.len() < 16 ==> r is Malformed && final(reassembler)@ == old(reassembler)@,
        bytes@.len() >= 16 && !is_tp_type(bytes@[14]) ==> (r matches Inbound::Message { header, payload }
            && header == header_from_bytes(bytes@) && payload@ == bytes@.subrange(16, bytes@.len() as int))
            && final(reassembler)@ == old(reassembler)@,
        bytes@.len() >= 16 && is_tp_type(bytes@[14]) && bytes@.len() < 20 ==> r is Malformed
            && final(reassembler)@ == old(reassembler)@,
        bytes@.len() >= 20 && is_tp_type(bytes@[14]) ==> ({
            let h = header_from_bytes(bytes@);
            let key = tp_key(message_id_of(h), request_id_of(h));
            let tp = tp_from_word(read32(bytes@, 16));
            let step = tp_step(
                stored(old(reassembler)@, key),
                (tp.offset, bytes@.subrange(20, bytes@.len() as int), tp.more_segments),
            );
            &&& match (r, step.0) {
                (Inbound::Message { header, payload }, Ok(Some(w))) => header == h && payload@ == w,
                (Inbound::Pending, Ok(None)) => true,
                (Inbound::ReassemblyFailed, Err(_)) => true,
                _ => false,
            }
            &&& stored(final(reassembler)@, key) == step.1
        }),
{
    let header = match SomeIpHeader::deserialize(bytes) {
        Ok(h) => h,
        Err(_) => return Inbound::Malformed,
    };
    let t = header.message_type;
    if t == 0x20 || t == 0x21 || t == 0x22 || t == 0xA0 || t == 0xA1 {
        if bytes.len() < 20 {
            return Inbound::Malformed;
        }
        let tail = copy_range(bytes, 16, bytes.len());
        let tp = match TpHeader::deserialize(tail.as_slice()) {
            Ok(tp) => tp,
            Err(_) => return Inbound::Malformed,
        };
        assert(read32(tail@, 0) == read32(bytes@, 16));
        let segment = copy_range(bytes, 20, bytes.len());
        let message_id: u32 = (header.service_id as u32) * 65536 + header.method_id as u32;
        let request_id: u32 = (header.client_id as u32) * 65536 + header.session_id as u32;
        match reassembler.process_segment(message_id, request_id, &tp, segment.as_slice()) {
            Ok(Some(full)) => Inbound::Message { header, payload: full },
            Ok(None) => Inbound::Pending,
            Err(_) => Inbound::ReassemblyFailed,
        }
    } else {
        let payload = copy_range(bytes, 16, bytes.len());
        Inbound::Message { header, payload }
    }
}

/// One unsegmented frame: header then payload.
pub open spec fn plain_frame(h: SomeIpHeader, payload: Seq<u8>) -> Seq<u8> {
    header_bytes(h) + payload
}

/// The frames of a message of `payload` bytes: one plain frame with type
/// `plain_type` when the payload fits `SEGMENTATION_THRESHOLD`, else one TP
/// frame (type `tp_type`, length covering TP sub-header and chunk) per
/// segment of the segmentation at `MAX_SEGMENT_PAYLOAD`.
pub open spec fn frames_of(
    frames: Seq<Vec<u8>>,
    service_id: u16,
    method_id: u16,
    client_id: u16,
    session_id: u16,
    plain_type: u8,
    tp_type: u8,
    payload: Seq<u8>,
) -> bool {
    if payload.len() <= SEGMENTATION_THRESHOLD {
        frames.len() == 1 && frames[0]@ == plain_frame(
            header_spec(service_id, method_id, client_id, session_id, plain_type, payload.len() as u32, 0x01, 0x00),
            payload,
        )
    } else {
        exists|segs: Seq<(TpHeader, Vec<u8>)>|
            #![trigger is_segmentation(segs, payload, MAX_SEGMENT_PAYLOAD as nat)]
            is_segmentation(segs, payload, MAX_SEGMENT_PAYLOAD as nat) && frames.len() == segs.len()
                && forall|i: int|
                0 <= i < segs.len() ==> (#[trigger] frames[i])@ == header_bytes(
                    header_spec(service_id, method_id, client_id, session_id, tp_type, (4 + segs[i].1@.len()) as u32, 0x01, 0x00),
                ) + be32(tp_word(segs[i].0)) + segs[i].1@
    }
}

/// Frames a message; see `frames_of`.
fn build_frames(
    service_id: u16,
    method_id: u16,
    client_id: u16,
    session_id: u16,
    plain_type: u8,
    tp_type: u8,
    payload: &[u8],
) -> (r: Vec<Vec<u8>>)
    requires
        payload@.len() <= u32::MAX - 8,
    ensures
        frames_of(r@, service_id, method_id, client_id, session_id, plain_type, tp_type, payload@),
{
    let mut frames: Vec<Vec<u8>> = Vec::new();
    if payload.len() <= SEGMENTATION_THRESHOLD {
        let header = SomeIpHeader::new(service_id, method_id, client_id, session_id, plain_type, payload.len() as u32);
        let mut msg: Vec<u8> = Vec::new();
        put_bytes(&mut msg, &header.serialize());
        put_bytes(&mut msg, payload);
        frames.push(msg);
        return frames;
    }
    let segments = segment_payload(payload, MAX_SEGMENT_PAYLOAD);
    let mut i: usize = 0;
    while i < segments.len()
        invariant
            0 <= i <= segments@.len(),
            is_segmentation(segments@, payload@, MAX_SEGMENT_PAYLOAD as nat),
            frames@.len() == i,
            forall|j: int|
                0 <= j < i ==> (#[trigger] frames@[j])@ == header_bytes(
                    header_spec(service_id, method_id, client_id, session_id, tp_type, (4 + segments@[j].1@.len()) as u32, 0x01, 0x00),
                ) + be32(tp_word(segments@[j].0)) + segments@[j].1@,
        decreases segments@.len() - i,
    {
        let chunk = &segments[i].1;
        assert(chunk@.len() <= 1376);
        let header = SomeIpHeader::new(service_id, method_id, client_id, session_id, tp_type, (4 + chunk.len()) as u32);
        let mut msg: Vec<u8> = Vec::new();
        put_bytes(&mut msg, &header.serialize());
        put_bytes(&mut msg, &segments[i].0.serialize());
        put_bytes(&mut msg, chunk.as_slice());
        frames.push(msg);
        i = i + 1;
    }
    frames
}

/// The frames of a request (types 0x00, or 0x20 when segmented).
pub fn request_frames(service_id: u16, method_id: u16, client_id: u16, session_id: u16, payload: &[u8]) -> (r: Vec<Vec<u8>>)
    requires
        payload@.len() <= u32::MAX - 8,
    ensures
        frames_of(r@, service_id, method_id, client_id, session_id, 0x00, 0x20, payload@),
{
    build_frames(service_id, method_id, client_id, session_id, 0x00, 0x20, payload)
}

/// The frames of the response to `request` (types 0x80, or 0xA0 when
/// segmented), with the request's service, method, client and session ids.
pub fn response_frames(request: &SomeIpHeader, payload: &[u8]) -> (r: Vec<Vec<u8>>)
    requires
        payload@.len() <= u32::MAX - 8,
    ensures
        frames_of(r@, request.service_id, request.method_id, request.client_id, request.session_id, 0x80, 0xA0, payload@),
{
    build_frames(request.service_id, request.method_id, request.client_id, request.session_id, 0x80, 0xA0, payload)
}

/// The frames of a notification (types 0x02, or 0x22 when segmented).
pub fn notification_frames(service_id: u16, event_id: u16, session_id: u16, payload: &[u8]) -> (r: Vec<Vec<u8>>)
    requires
        payload@.len() <= u32::MAX - 8,
    ensures
        frames_of(r@, service_id, event_id, 0, session_id, 0x02, 0x22, payload@),
{
    build_frames(service_id, event_id, 0, session_id, 0x02, 0x22, payload)
}

/// What a client lookup does next after one discovery poll.
#[derive(Debug, Clone, Copy, PartialEq, Eq)]
pub enum ClientStep {
    /// Found over TCP: open a stream to the endpoint.
    Connect(Endpoint),
    /// Found over UDP: use the local UDP transport of the endpoint's family.
    UseUdp(Endpoint),
    /// Not found yet: poll again later.
    Wait,
    /// Not found within the request timeout.
    GiveUp,
}

/// The (service-id, instance-id) a client looks up: the configured required
/// entry, else the client's own service id with any instance (0xFFFF).
pub fn client_key(required: Option<(u16, u16)>, default_service: u16) -> (r: (u16, u16))
    ensures
        r == match required {
            Some(k) => k,
            None => (default_service, 0xFFFFu16),
        },
{
    match required {
        Some(k) => k,
        None => (default_service, 0xFFFF),
    }
}

/// The next step of a client lookup, given what discovery answered and the
/// time spent so far.
pub fn client_step(found: Option<(Endpoint, u8)>, elapsed_ms: u64, timeout_ms: u64) -> (r: ClientStep)
    ensures
        found matches Some((e, p)) ==> r == (if p == PROTO_TCP {
            ClientStep::Connect(e)
        } else {
            ClientStep::UseUdp(e)
        }),
        found is None ==> r == (if elapsed_ms >= timeout_ms {
            ClientStep::GiveUp
        } else {
            ClientStep::Wait
        }),
{
    match found {
        Some((e, p)) => if p == PROTO_TCP {
            ClientStep::Connect(e)
        } else {
            ClientStep::UseUdp(e)
        },
        None => if elapsed_ms >= timeout_ms {
            ClientStep::GiveUp
        } else {
            ClientStep::Wait
        },
    }
}

/// The (port, protocol) a service is bound at: its configured port, or 0
/// for one the system picks.
pub open spec fn planned_binding(s: (Option<u16>, u8)) -> (u16, u8) {
    (
        match s.0 {
            Some(p) => p,
            None => 0,
        },
        s.1,
    )
}

/// Which transports to bind for the provided services, given each one's
/// (configured port, protocol code): one transport per distinct fixed
/// (port, protocol), and one of its own for each service without a fixed
/// port. The second result gives, per service, the index of its binding.
pub fn bind_plan(services: &Vec<(Option<u16>, u8)>) -> (r: (Vec<(u16, u8)>, Vec<usize>))
    ensures
        r.1@.len() == services@.len(),
        forall|i: int|
            0 <= i < services@.len() ==> (#[trigger] r.1@[i]) < r.0@.len() && r.0@[r.1@[i] as int]
                == planned_binding(services@[i]),
        forall|j: int, k: int|
            0 <= j < k < r.0@.len() && (#[trigger] r.0@[j]).0 != 0 ==> r.0@[j] != #[trigger] r.0@[k],
{
    let mut bindings: Vec<(u16, u8)> = Vec::new();
    let mut assignment: Vec<usize> = Vec::new();
    let mut i: usize = 0;
    while i < services.len()
        invariant
            0 <= i <= services@.len(),
            assignment@.len() == i,
            forall|m: int|
                0 <= m < i ==> (#[trigger] assignment@[m]) < bindings@.len() && bindings@[assignment@[m] as int]
                    == planned_binding(services@[m]),
            forall|j: int, k: int|
                0 <= j < k < bindings@.len() && (#[trigger] bindings@[j]).0 != 0 ==> bindings@[j] != #[trigger] bindings@[k],
        decreases services@.len() - i,
    {
        let port: u16 = match services[i].0 {
            Some(p) => p,
            None => 0,
        };
        let b: (u16, u8) = (port, services[i].1);
        assert(b == planned_binding(services@[i as int]));
        let mut found: Option<usize> = None;
        if port != 0 {
            let mut k: usize = 0;
            while k < bindings.len()
                invariant
                    0 <= k <= bindings@.len(),
                    found matches Some(f) ==> f < bindings@.len() && bindings@[f as int] == b,
                    found is None ==> forall|x: int| 0 <= x < k ==> bindings@[x] != b,
                decreases bindings@.len() - k,
            {
                if found.is_none() && bindings[k].0 == b.0 && bindings[k].1 == b.1 {
                    found = Some(k);
                }
                k = k + 1;
            }
        }
        let ghost before = bindings@;
        let ghost abefore = assignment@;
        match found {
            Some(k) => {
                assert(bindings@[k as int] == b);
                assignment.push(k);
            },
            None => {
                let n = bindings.len();
                bindings.push(b);
                assignment.push(n);
                assert forall|j: int, k: int|
                    0 <= j < k < bindings@.len() && (#[trigger] bindings@[j]).0 != 0 implies bindings@[j] != #[trigger] bindings@[k] by {
                    if k == n {
                        assert(bindings@[j] == before[j]);
                    } else {
                        assert(bindings@[j] == before[j] && bindings@[k] == before[k]);
                    }
                }
            },
        }
        assert forall|m: int|
            0 <= m < i + 1 implies (#[trigger] assignment@[m]) < bindings@.len() && bindings@[assignment@[m] as int]
                == planned_binding(services@[m]) by {
            if m < i {
                assert(assignment@[m] == abefore[m]);
                assert(bindings@[abefore[m] as int] == before[abefore[m] as int]);
            }
        }
        i = i + 1;
    }
    (bindings, assignment)
}

} // verus!
