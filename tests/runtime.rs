use fusion_hawking::codec::tp::TpReassembler;
use fusion_hawking::codec::{SessionIdManager, SomeIpHeader};
use fusion_hawking::generated::{MathServiceProvider, MathServiceServer};
use fusion_hawking::runtime::config::{
    default_cyclic_delay, default_initial_delay_max, default_initial_delay_min, default_ip_version,
    default_repetition_base_delay, default_repetition_max, default_request_response_delay_max,
    default_request_response_delay_min, default_request_timeout, default_sd_multicast_ip,
    default_sd_multicast_port, default_ttl, l4_protocol_code,
};
use fusion_hawking::runtime::dispatch::{
    bind_plan, client_key, client_step, ClientStep, receive_frame, request_frames, response_frames, route_of, Inbound, Route, MAX_SEGMENT_PAYLOAD,
};
use fusion_hawking::runtime::SdConfig;
use fusion_hawking::sd::machine::{Endpoint, IpAddress};
use fusion_hawking::RequestHandler;
use std::sync::Arc;

struct Adder;

impl MathServiceProvider for Adder {
    fn add(&self, a: i32, b: i32) -> i32 {
        a + b
    }

    fn sub(&self, a: i32, b: i32) -> i32 {
        a - b
    }
}

fn message(inbound: Inbound) -> (SomeIpHeader, Vec<u8>) {
    match inbound {
        Inbound::Message { header, payload } => (header, payload),
        _ => panic!("expected a complete message"),
    }
}

#[test]
fn request_response_round_trip() {
    let mut sessions = SessionIdManager::new();
    let session = sessions.next_session_id(0x1001, 0x0001);
    let mut payload = Vec::new();
    payload.extend_from_slice(&10i32.to_be_bytes());
    payload.extend_from_slice(&20i32.to_be_bytes());
    let frames = request_frames(0x1001, 0x0001, 0, session, &payload);
    assert_eq!(frames.len(), 1);

    let mut server_tp = TpReassembler::new();
    let (req, body) = message(receive_frame(&frames[0], &mut server_tp));
    assert_eq!(route_of(req.message_type), Route::Request { reply: true });
    let server = MathServiceServer::new(Arc::new(Adder));
    let answer = server.handle(&req, &body).unwrap();
    assert_eq!(answer, 30i32.to_be_bytes().to_vec());

    let replies = response_frames(&req, &answer);
    let mut client_tp = TpReassembler::new();
    let (resp, bytes) = message(receive_frame(&replies[0], &mut client_tp));
    assert_eq!(route_of(resp.message_type), Route::Response);
    assert_eq!(bytes, vec![0, 0, 0, 0x1E]);
    assert_eq!(resp.message_type, 0x80);
    assert_eq!(resp.return_code, 0x00);
    assert_eq!((resp.service_id, resp.method_id, resp.session_id), (0x1001, 0x0001, session));
}

#[test]
fn large_payload_is_segmented_and_reassembled() {
    let payload: Vec<u8> = (0..5000u32).map(|i| (i % 253) as u8).collect();
    let frames = request_frames(0x1001, 0x0002, 0, 7, &payload);
    assert_eq!(MAX_SEGMENT_PAYLOAD, 1376);
    assert_eq!(frames.len(), 4);
    for f in &frames[..3] {
        assert_eq!(f.len(), 20 + 1376);
        assert_eq!(f[14], 0x20);
    }
    assert_eq!(frames[3].len(), 20 + 5000 - 3 * 1376);

    let mut server_tp = TpReassembler::new();
    let mut got = None;
    for (i, f) in frames.iter().enumerate() {
        match receive_frame(f, &mut server_tp) {
            Inbound::Pending => assert!(i + 1 < frames.len()),
            Inbound::Message { header, payload } => got = Some((header, payload)),
            _ => panic!("unexpected frame outcome"),
        }
    }
    let (req, body) = got.unwrap();
    assert_eq!(body, payload);

    let echo = response_frames(&req, &body);
    assert_eq!(echo.len(), 4);
    assert_eq!(echo[0][14], 0xA0);
    let mut client_tp = TpReassembler::new();
    let mut result = None;
    for f in echo.iter().rev() {
        if let Inbound::Message { header, payload } = receive_frame(f, &mut client_tp) {
            assert_eq!(route_of(header.message_type), Route::Response);
            result = Some(payload);
        }
    }
    assert_eq!(result.unwrap(), payload);
}

#[test]
fn short_frames_are_malformed() {
    let mut tp = TpReassembler::new();
    assert!(matches!(receive_frame(&[0u8; 15], &mut tp), Inbound::Malformed));
    let mut tp_frame = SomeIpHeader::new(1, 2, 3, 4, 0x20, 2).serialize().to_vec();
    tp_frame.extend_from_slice(&[0, 0]);
    assert!(matches!(receive_frame(&tp_frame, &mut tp), Inbound::Malformed));
}

#[test]
fn routes_by_message_type() {
    assert_eq!(route_of(0x80), Route::Response);
    assert_eq!(route_of(0xA0), Route::Response);
    assert_eq!(route_of(0x02), Route::Notification);
    assert_eq!(route_of(0x22), Route::Notification);
    assert_eq!(route_of(0x00), Route::Request { reply: true });
    assert_eq!(route_of(0x21), Route::Request { reply: false });
    assert_eq!(route_of(0x81), Route::Other);
}

#[test]
fn sd_config_defaults() {
    let c = SdConfig::default();
    assert_eq!(c.multicast_ip, "224.0.0.1");
    assert_eq!(c.multicast_port, 30490);
    assert_eq!((c.initial_delay_min_ms, c.initial_delay_max_ms), (10, 100));
    assert_eq!(c.repetition_base_delay_ms, 100);
    assert_eq!(c.repetition_max, 3);
    assert_eq!(c.cyclic_delay_ms, 1000);
    assert_eq!(c.ttl, 0x00FF_FFFF);
    assert_eq!((c.request_response_delay_min_ms, c.request_response_delay_max_ms), (10, 100));
    assert_eq!(c.request_timeout_ms, 2000);
    assert_eq!(default_sd_multicast_ip(), "224.0.0.1");
    assert_eq!(default_sd_multicast_port(), 30490);
    assert_eq!(default_initial_delay_min(), 10);
    assert_eq!(default_initial_delay_max(), 100);
    assert_eq!(default_repetition_base_delay(), 100);
    assert_eq!(default_repetition_max(), 3);
    assert_eq!(default_cyclic_delay(), 1000);
    assert_eq!(default_ttl(), 0x00FF_FFFF);
    assert_eq!(default_request_response_delay_min(), 10);
    assert_eq!(default_request_response_delay_max(), 100);
    assert_eq!(default_request_timeout(), 2000);
    assert_eq!(default_ip_version(), 4);
    assert_eq!(c.sd_timing().repetition_max, 3);
}

#[test]
fn protocol_names_map_to_codes() {
    assert_eq!(l4_protocol_code("tcp"), 0x06);
    assert_eq!(l4_protocol_code("TCP"), 0x06);
    assert_eq!(l4_protocol_code("udp"), 0x11);
    assert_eq!(l4_protocol_code("anything"), 0x11);
}

#[test]
fn payloads_up_to_mtu_minus_tp_overhead_are_not_segmented() {
    let payload = vec![7u8; 1380];
    let frames = request_frames(1, 1, 0, 1, &payload);
    assert_eq!(frames.len(), 1);
    assert_eq!(frames[0].len(), 16 + 1380);
    let frames = request_frames(1, 1, 0, 1, &vec![7u8; 1381]);
    assert_eq!(frames.len(), 2);
    assert_eq!(frames[0].len(), 20 + 1376);
}

#[test]
fn client_lookup_steps() {
    let e = Endpoint { ip: IpAddress::V4([127, 0, 0, 1]), port: 30501 };
    assert_eq!(client_key(Some((0x1234, 1)), 0x1001), (0x1234, 1));
    assert_eq!(client_key(None, 0x1001), (0x1001, 0xFFFF));
    assert_eq!(client_step(Some((e, 0x06)), 0, 2000), ClientStep::Connect(e));
    assert_eq!(client_step(Some((e, 0x11)), 5000, 2000), ClientStep::UseUdp(e));
    assert_eq!(client_step(None, 1999, 2000), ClientStep::Wait);
    assert_eq!(client_step(None, 2000, 2000), ClientStep::GiveUp);
}

#[test]
fn bind_plan_binds_each_fixed_port_once() {
    let services = vec![(Some(30501), 0x11), (None, 0x11), (Some(30501), 0x11), (Some(30501), 0x06), (None, 0x11)];
    let (bindings, assignment) = bind_plan(&services);
    assert_eq!(bindings, vec![(30501, 0x11), (0, 0x11), (30501, 0x06), (0, 0x11)]);
    assert_eq!(assignment, vec![0, 1, 0, 2, 3]);
}
