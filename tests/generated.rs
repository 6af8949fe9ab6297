use fusion_hawking::codec::{SomeIpDeserialize, SomeIpHeader, SomeIpSerialize, WireReader};
use fusion_hawking::generated::{
    MathServiceAddRequest, MathServiceProvider, MathServiceServer, SortData, SortServiceProvider,
    SortServiceServer, SortServiceSortAscRequest, StringServiceProvider,
    StringServiceReverseRequest, StringServiceServer,
};
use fusion_hawking::RequestHandler;
use std::sync::Arc;

#[test]
fn test_math_request_serialization() {
    let req = MathServiceAddRequest { a: 10, b: -20 };
    let mut buf = Vec::new();
    req.serialize(&mut buf).unwrap();

    assert_eq!(buf, vec![0, 0, 0, 10, 255, 255, 255, 236]);

    let mut r = WireReader::new(buf);
    let req2 = MathServiceAddRequest::deserialize(&mut r).unwrap();
    assert_eq!(req2.a, 10);
    assert_eq!(req2.b, -20);
}

#[test]
fn test_string_request_serialization() {
    let req = StringServiceReverseRequest { text: "ABC".to_string() };
    let mut buf = Vec::new();
    req.serialize(&mut buf).unwrap();
    assert_eq!(buf.len(), 7);
    assert_eq!(buf[3], 3);
    assert_eq!(&buf[4..], b"ABC");

    let mut r = WireReader::new(buf);
    let req2 = StringServiceReverseRequest::deserialize(&mut r).unwrap();
    assert_eq!(req2.text, "ABC");
}

#[test]
fn test_sort_request_serialization() {
    let req = SortServiceSortAscRequest { data: vec![1, -1] };
    let mut buf = Vec::new();
    req.serialize(&mut buf).unwrap();
    let len = u32::from_be_bytes([buf[0], buf[1], buf[2], buf[3]]);
    assert_eq!(len, 8);

    assert_eq!(buf[4..8], [0, 0, 0, 1]);
    assert_eq!(buf[8..12], [255, 255, 255, 255]);

    let mut r = WireReader::new(buf);
    let req2 = SortServiceSortAscRequest::deserialize(&mut r).unwrap();
    assert_eq!(req2.data, vec![1, -1]);
}

#[test]
fn test_empty_list_serialization() {
    let req = SortServiceSortAscRequest { data: vec![] };
    let mut buf = Vec::new();
    req.serialize(&mut buf).unwrap();
    assert_eq!(buf.len(), 4);
    assert_eq!(buf, vec![0, 0, 0, 0]);

    let mut r = WireReader::new(buf);
    let req2 = SortServiceSortAscRequest::deserialize(&mut r).unwrap();
    assert!(req2.data.is_empty());
}

struct Calculator;

impl MathServiceProvider for Calculator {
    fn add(&self, a: i32, b: i32) -> i32 {
        a.wrapping_add(b)
    }

    fn sub(&self, a: i32, b: i32) -> i32 {
        a.wrapping_sub(b)
    }
}

struct Texts;

impl StringServiceProvider for Texts {
    fn reverse(&self, text: String) -> String {
        text.chars().rev().collect()
    }

    fn uppercase(&self, text: String) -> String {
        text.to_uppercase()
    }
}

struct Sorter;

impl SortServiceProvider for Sorter {
    fn sort_asc(&self, mut data: Vec<i32>) -> Vec<i32> {
        data.sort();
        data
    }

    fn sort_desc(&self, mut data: Vec<i32>) -> Vec<i32> {
        data.sort();
        data.reverse();
        data
    }
}

#[test]
fn math_server_adds_and_subtracts() {
    let server = MathServiceServer::new(Arc::new(Calculator));
    let add = SomeIpHeader::new(0x1001, 1, 0, 1, 0x00, 8);
    let sub = SomeIpHeader::new(0x1001, 2, 0, 1, 0x00, 8);
    let payload = [0, 0, 0, 10, 0, 0, 0, 20];
    assert_eq!(server.handle(&add, &payload), Some(vec![0, 0, 0, 30]));
    assert_eq!(server.handle(&sub, &payload), Some(vec![0xFF, 0xFF, 0xFF, 0xF6]));
    assert_eq!(server.handle(&SomeIpHeader::new(0x1001, 3, 0, 1, 0, 8), &payload), None);
    assert_eq!(server.handle(&SomeIpHeader::new(0x2001, 1, 0, 1, 0, 8), &payload), None);
    assert_eq!(server.handle(&add, &payload[..7]), None);
    assert_eq!(server.service_id(), 0x1001);
}

#[test]
fn string_and_sort_servers_answer() {
    let strings = StringServiceServer::new(Arc::new(Texts));
    let h = SomeIpHeader::new(0x2001, 2, 0, 1, 0x00, 7);
    assert_eq!(strings.handle(&h, &[0, 0, 0, 3, b'a', b'b', b'c']), Some(vec![0, 0, 0, 3, b'A', b'B', b'C']));
    let h = SomeIpHeader::new(0x2001, 1, 0, 1, 0x00, 7);
    assert_eq!(strings.handle(&h, &[0, 0, 0, 3, b'a', b'b', b'c']), Some(vec![0, 0, 0, 3, b'c', b'b', b'a']));

    let sorter = SortServiceServer::new(Arc::new(Sorter));
    let h = SomeIpHeader::new(0x3001, 2, 0, 1, 0x00, 12);
    assert_eq!(
        sorter.handle(&h, &[0, 0, 0, 8, 0, 0, 0, 1, 0, 0, 0, 5]),
        Some(vec![0, 0, 0, 8, 0, 0, 0, 5, 0, 0, 0, 1])
    );
}

#[test]
fn sort_data_round_trip() {
    let data = SortData { values: vec![3, -7, 0] };
    let mut buf = Vec::new();
    data.serialize(&mut buf).unwrap();
    assert_eq!(buf.len(), 16);
    let back = SortData::deserialize(&mut WireReader::new(buf)).unwrap();
    assert_eq!(back, data);
}
