use fusion_hawking::codec::tp::{reassemble_payload, segment_payload, TpHeader, TpReassembler};
use fusion_hawking::codec::ReturnCode;

#[test]
fn test_tp_header_serialization() {
    let tp = TpHeader::new(16, true);
    let bytes = tp.serialize();
    assert_eq!(bytes, [0x00, 0x00, 0x00, 0x11]);

    let tp2 = TpHeader::deserialize(&bytes).unwrap();
    assert_eq!(tp2.offset, 16);
    assert_eq!(tp2.more_segments, true);
}

#[test]
fn test_segmentation() {
    let payload = vec![0u8; 40];
    let segments = segment_payload(&payload, 16);

    assert_eq!(segments.len(), 3);
    assert_eq!(segments[0].0.offset, 0);
    assert_eq!(segments[0].0.more_segments, true);
    assert_eq!(segments[0].1.len(), 16);

    assert_eq!(segments[1].0.offset, 16);
    assert_eq!(segments[1].0.more_segments, true);
    assert_eq!(segments[1].1.len(), 16);

    assert_eq!(segments[2].0.offset, 32);
    assert_eq!(segments[2].0.more_segments, false);
    assert_eq!(segments[2].1.len(), 8);
}

fn as_pieces(segments: Vec<(TpHeader, Vec<u8>)>) -> Vec<(u32, Vec<u8>)> {
    let mut pieces: Vec<(u32, Vec<u8>)> = segments.into_iter().map(|(h, d)| (h.offset, d)).collect();
    pieces.sort_by_key(|p| p.0);
    pieces
}

#[test]
fn test_reassembly() {
    let payload: Vec<u8> = (0..100).collect();
    let segments = segment_payload(&payload, 30);

    let map = as_pieces(segments);

    let reassembled = reassemble_payload(&map).expect("Reassembly failed");
    assert_eq!(reassembled, payload);
}

#[test]
fn test_reassembly_missing_segment() {
    let payload: Vec<u8> = (0..50).collect();
    let segments = segment_payload(&payload, 32);

    let mut map = as_pieces(segments);
    map.retain(|p| p.0 != 0);
    assert!(reassemble_payload(&map).is_err());

    let segments = segment_payload(&payload, 32);
    let mut map = as_pieces(segments);
    map.retain(|p| p.0 != 32);
    let res = reassemble_payload(&map);
    assert!(res.is_ok());
    assert_eq!(res.unwrap().len(), 32);
}

#[test]
fn test_tp_reassembler_flow() {
    let mut reassembler = TpReassembler::new();
    let msg_id = 0x1234;
    let req_id = 0x5678;

    let s1 = (TpHeader::new(0, true), vec![0u8; 16]);
    let s2 = (TpHeader::new(16, true), vec![1u8; 16]);
    let s3 = (TpHeader::new(32, false), vec![2u8; 8]);

    let res = reassembler.process_segment(msg_id, req_id, &s1.0, &s1.1).unwrap();
    assert!(res.is_none());

    let res = reassembler.process_segment(msg_id, req_id, &s3.0, &s3.1).unwrap();
    assert!(res.is_none());

    let res = reassembler.process_segment(msg_id, req_id, &s2.0, &s2.1).unwrap();
    assert!(res.is_some());

    let full_payload = res.unwrap();
    assert_eq!(full_payload.len(), 40);
    assert_eq!(full_payload[0..16], vec![0u8; 16]);
    assert_eq!(full_payload[16..32], vec![1u8; 16]);
    assert_eq!(full_payload[32..40], vec![2u8; 8]);

    assert!(!reassembler.is_pending(msg_id, req_id));
}

#[test]
fn segment_then_reassemble_gives_payload_back() {
    let payload: Vec<u8> = (0..1000u32).map(|i| (i % 251) as u8).collect();
    for max in [16usize, 17, 31, 32, 100, 999, 1000, 5000] {
        let segments = segment_payload(&payload, max);
        let aligned = max / 16 * 16;
        for (i, (h, d)) in segments.iter().enumerate() {
            if i + 1 < segments.len() {
                assert_eq!(d.len(), aligned);
                assert!(h.more_segments);
            } else {
                assert!(!h.more_segments);
                assert!(d.len() > 0 && d.len() <= aligned);
            }
        }
        let pieces = as_pieces(segments);
        assert_eq!(reassemble_payload(&pieces).unwrap(), payload);
    }
}

#[test]
fn empty_payload_is_one_empty_segment() {
    let segments = segment_payload(&[], 64);
    assert_eq!(segments.len(), 1);
    assert_eq!(segments[0].0, TpHeader::new(0, false));
    assert!(segments[0].1.is_empty());
}

#[test]
fn reassembly_is_independent_of_delivery_order() {
    let payload: Vec<u8> = (0..200u32).map(|i| (i * 7 % 256) as u8).collect();
    let segments = segment_payload(&payload, 48);
    assert_eq!(segments.len(), 5);
    let orders: [[usize; 5]; 4] = [[0, 1, 2, 3, 4], [4, 3, 2, 1, 0], [2, 0, 4, 1, 3], [1, 4, 0, 3, 2]];
    for order in orders.iter() {
        let mut r = TpReassembler::new();
        let mut result = None;
        for (k, &i) in order.iter().enumerate() {
            let out = r.process_segment(7, 9, &segments[i].0, &segments[i].1).unwrap();
            if k + 1 < order.len() {
                assert!(out.is_none());
            } else {
                result = out;
            }
        }
        assert_eq!(result.unwrap(), payload);
    }
}

#[test]
fn duplicate_offset_later_arrival_wins() {
    let mut r = TpReassembler::new();
    assert!(r.process_segment(1, 1, &TpHeader::new(0, true), &[9u8; 16]).unwrap().is_none());
    assert!(r.process_segment(1, 1, &TpHeader::new(0, true), &[5u8; 16]).unwrap().is_none());
    let out = r.process_segment(1, 1, &TpHeader::new(16, false), &[6u8; 4]).unwrap().unwrap();
    assert_eq!(out[0..16], [5u8; 16]);
    assert_eq!(out.len(), 20);
}

#[test]
fn oversized_key_is_dropped_with_malformed_message() {
    let mut r = TpReassembler::new();
    let big = vec![0u8; 600_000];
    assert!(r.process_segment(3, 4, &TpHeader::new(0, true), &big).unwrap().is_none());
    let res = r.process_segment(3, 4, &TpHeader::new(600_000, true), &big);
    assert_eq!(res, Err(ReturnCode::MalformedMessage));
    assert!(!r.is_pending(3, 4));
}

#[test]
fn tp_header_ignores_reserved_bits_and_truncates_offset() {
    let h = TpHeader::deserialize(&[0x00, 0x00, 0x01, 0x0F]).unwrap();
    assert_eq!(h, TpHeader::new(0x100, true));
    assert_eq!(TpHeader::new(17, false).serialize(), [0, 0, 0, 0x10]);
    assert!(TpHeader::deserialize(&[0, 0, 1]).is_err());
}

#[test]
fn empty_payload_with_small_max_is_one_empty_segment() {
    let segments = segment_payload(&[], 3);
    assert_eq!(segments.len(), 1);
    assert_eq!(segments[0].0, TpHeader::new(0, false));
    assert!(segments[0].1.is_empty());
}
