use fusion_hawking::codec::header::{MessageType, ReturnCode};
use fusion_hawking::codec::{SomeIpDeserialize, SomeIpHeader, SomeIpSerialize, WireReader};

#[test]
fn tests_test_header_serialization() {
    let header = SomeIpHeader::new(0x1234, 0x5678, 0x0001, 0x0002, 0x00, 100);
    let bytes = header.serialize();

    assert_eq!(bytes.len(), 16);
    assert_eq!(bytes[0], 0x12);
    assert_eq!(bytes[1], 0x34);
    assert_eq!(bytes[4], 0x00);
    assert_eq!(bytes[7], 108);
}

#[test]
fn test_primitive_serialization() {
    let val: u32 = 0xDEADBEEF;
    let mut buf = Vec::new();
    val.serialize(&mut buf).unwrap();
    assert_eq!(buf, vec![0xDE, 0xAD, 0xBE, 0xEF]);

    let mut reader = WireReader::new(buf);
    let decoded = u32::deserialize(&mut reader).unwrap();
    assert_eq!(decoded, 0xDEADBEEF);
}

#[test]
fn test_bool_serialization() {
    let val = true;
    let mut buf = Vec::new();
    val.serialize(&mut buf).unwrap();
    assert_eq!(buf, vec![0x01]);

    let mut reader = WireReader::new(buf.clone());
    let decoded = bool::deserialize(&mut reader).unwrap();
    assert_eq!(decoded, true);

    let mut buf2 = Vec::new();
    false.serialize(&mut buf2).unwrap();
    assert_eq!(buf2, vec![0x00]);

    let mut reader2 = WireReader::new(buf2.clone());
    let decoded2 = bool::deserialize(&mut reader2).unwrap();
    assert_eq!(decoded2, false);
}

#[test]
fn test_u8_serialization() {
    let val: u8 = 0xFF;
    let mut buf = Vec::new();
    val.serialize(&mut buf).unwrap();
    assert_eq!(buf, vec![0xFF]);

    let mut reader = WireReader::new(buf.clone());
    let decoded = u8::deserialize(&mut reader).unwrap();
    assert_eq!(decoded, 0xFF);
}

#[test]
fn test_u16_serialization() {
    let val: u16 = 0xABCD;
    let mut buf = Vec::new();
    val.serialize(&mut buf).unwrap();
    assert_eq!(buf, vec![0xAB, 0xCD]);

    let mut reader = WireReader::new(buf.clone());
    let decoded = u16::deserialize(&mut reader).unwrap();
    assert_eq!(decoded, 0xABCD);
}

#[test]
fn test_i8_serialization() {
    let val: i8 = -50;
    let mut buf = Vec::new();
    val.serialize(&mut buf).unwrap();
    assert_eq!(buf, vec![0xCE]);

    let mut reader = WireReader::new(buf.clone());
    let decoded = i8::deserialize(&mut reader).unwrap();
    assert_eq!(decoded, -50);
}

#[test]
fn test_i16_serialization() {
    let val: i16 = -1000;
    let mut buf = Vec::new();
    val.serialize(&mut buf).unwrap();
    assert_eq!(buf, vec![0xFC, 0x18]);

    let mut reader = WireReader::new(buf.clone());
    let decoded = i16::deserialize(&mut reader).unwrap();
    assert_eq!(decoded, -1000);
}

#[test]
fn test_i32_serialization() {
    let val: i32 = -100000;
    let mut buf = Vec::new();
    val.serialize(&mut buf).unwrap();
    assert_eq!(buf, vec![0xFF, 0xFE, 0x79, 0x60]);

    let mut reader = WireReader::new(buf.clone());
    let decoded = i32::deserialize(&mut reader).unwrap();
    assert_eq!(decoded, -100000);
}

#[test]
fn test_string_serialization() {
    let val = String::from("Hello SOME/IP!");
    let mut buf = Vec::new();
    val.serialize(&mut buf).unwrap();

    assert_eq!(buf.len(), 4 + 14);
    assert_eq!(buf[3], 14);

    let mut reader = WireReader::new(buf.clone());
    let decoded = String::deserialize(&mut reader).unwrap();
    assert_eq!(decoded, "Hello SOME/IP!");
}

#[test]
fn test_vec_i32_serialization() {
    let val: Vec<i32> = vec![1, 2, 3, -100, 1000];
    let mut buf = Vec::new();
    val.serialize(&mut buf).unwrap();

    assert_eq!(buf.len(), 4 + 20);
    assert_eq!(buf[3], 20);

    let mut reader = WireReader::new(buf.clone());
    let decoded = Vec::<i32>::deserialize(&mut reader).unwrap();
    assert_eq!(decoded, vec![1, 2, 3, -100, 1000]);
}

#[test]
fn test_empty_vec_serialization() {
    let val: Vec<i32> = vec![];
    let mut buf = Vec::new();
    val.serialize(&mut buf).unwrap();

    assert_eq!(buf.len(), 4);
    assert_eq!(buf, vec![0, 0, 0, 0]);

    let mut reader = WireReader::new(buf.clone());
    let decoded = Vec::<i32>::deserialize(&mut reader).unwrap();
    assert_eq!(decoded, Vec::<i32>::new());
}

#[test]
fn test_empty_string_serialization() {
    let val = String::new();
    let mut buf = Vec::new();
    val.serialize(&mut buf).unwrap();

    assert_eq!(buf.len(), 4);
    assert_eq!(buf, vec![0, 0, 0, 0]);

    let mut reader = WireReader::new(buf.clone());
    let decoded = String::deserialize(&mut reader).unwrap();
    assert_eq!(decoded, "");
}

#[test]
fn test_boundary_values() {
    let min: i32 = i32::MIN;
    let max: i32 = i32::MAX;

    let mut buf_min = Vec::new();
    min.serialize(&mut buf_min).unwrap();
    let mut reader = WireReader::new(buf_min.clone());
    assert_eq!(i32::deserialize(&mut reader).unwrap(), i32::MIN);

    let mut buf_max = Vec::new();
    max.serialize(&mut buf_max).unwrap();
    let mut reader = WireReader::new(buf_max.clone());
    assert_eq!(i32::deserialize(&mut reader).unwrap(), i32::MAX);
}

#[test]
fn test_message_type_values() {
    assert_eq!(u8::from(MessageType::Request), 0x00);
    assert_eq!(u8::from(MessageType::RequestNoReturn), 0x01);
    assert_eq!(u8::from(MessageType::Notification), 0x02);
    assert_eq!(u8::from(MessageType::RequestWithTp), 0x20);
    assert_eq!(u8::from(MessageType::RequestNoReturnWithTp), 0x21);
    assert_eq!(u8::from(MessageType::NotificationWithTp), 0x22);
    assert_eq!(u8::from(MessageType::Response), 0x80);
    assert_eq!(u8::from(MessageType::Error), 0x81);
    assert_eq!(u8::from(MessageType::ResponseWithTp), 0xA0);
    assert_eq!(u8::from(MessageType::ErrorWithTp), 0xA1);
}

#[test]
fn test_message_type_from_u8() {
    assert_eq!(MessageType::from_u8(0x00), Some(MessageType::Request));
    assert_eq!(MessageType::from_u8(0x80), Some(MessageType::Response));
    assert_eq!(MessageType::from_u8(0x81), Some(MessageType::Error));
    assert_eq!(MessageType::from_u8(0xFF), None);
    assert_eq!(MessageType::from_u8(0x03), None);
}

#[test]
fn test_message_type_classification() {
    assert!(MessageType::Request.is_request());
    assert!(MessageType::RequestNoReturn.is_request());
    assert!(MessageType::RequestWithTp.is_request());

    assert!(MessageType::Response.is_response());
    assert!(MessageType::ResponseWithTp.is_response());

    assert!(MessageType::Error.is_error());
    assert!(MessageType::ErrorWithTp.is_error());

    assert!(MessageType::Notification.is_notification());
    assert!(MessageType::NotificationWithTp.is_notification());

    assert!(MessageType::RequestWithTp.uses_tp());
    assert!(!MessageType::Request.uses_tp());
}

#[test]
fn test_return_code_values() {
    assert_eq!(u8::from(ReturnCode::NoError), 0x00);
    assert_eq!(u8::from(ReturnCode::NotOk), 0x01);
    assert_eq!(u8::from(ReturnCode::UnknownService), 0x02);
    assert_eq!(u8::from(ReturnCode::UnknownMethod), 0x03);
    assert_eq!(u8::from(ReturnCode::NotReady), 0x04);
    assert_eq!(u8::from(ReturnCode::NotReachable), 0x05);
    assert_eq!(u8::from(ReturnCode::Timeout), 0x06);
    assert_eq!(u8::from(ReturnCode::WrongProtocolVersion), 0x07);
    assert_eq!(u8::from(ReturnCode::WrongInterfaceVersion), 0x08);
    assert_eq!(u8::from(ReturnCode::MalformedMessage), 0x09);
    assert_eq!(u8::from(ReturnCode::WrongMessageType), 0x0A);
    assert_eq!(u8::from(ReturnCode::E2eRepeated), 0x0B);
    assert_eq!(u8::from(ReturnCode::E2eWrongSequence), 0x0C);
    assert_eq!(u8::from(ReturnCode::E2eNotAvailable), 0x0D);
    assert_eq!(u8::from(ReturnCode::E2eNoNewData), 0x0E);
}

#[test]
fn test_return_code_from_u8() {
    assert_eq!(ReturnCode::from_u8(0x00), Some(ReturnCode::NoError));
    assert_eq!(ReturnCode::from_u8(0x01), Some(ReturnCode::NotOk));
    assert_eq!(ReturnCode::from_u8(0x0E), Some(ReturnCode::E2eNoNewData));
    assert_eq!(ReturnCode::from_u8(0x0F), None);
    assert_eq!(ReturnCode::from_u8(0xFF), None);
}

#[test]
fn test_return_code_is_error() {
    assert!(!ReturnCode::NoError.is_error());
    assert!(ReturnCode::NotOk.is_error());
    assert!(ReturnCode::UnknownService.is_error());
    assert!(ReturnCode::Timeout.is_error());
}

#[test]
fn test_header_protocol_version() {
    assert_eq!(SomeIpHeader::SOMEIP_PROTOCOL_VERSION, 0x01);

    let header = SomeIpHeader::new(0x1234, 0x5678, 0x0001, 0x0001, 0x00, 0);
    assert_eq!(header.protocol_version, 0x01);
}

#[test]
fn test_header_interface_version() {
    let header = SomeIpHeader::new(0x1234, 0x5678, 0x0001, 0x0001, 0x00, 0);
    assert_eq!(header.interface_version, 0x01);

    let header2 = SomeIpHeader::with_interface_version(0x1234, 0x5678, 0x0001, 0x0001, 0x00, 0, 0x05);
    assert_eq!(header2.interface_version, 0x05);
}

#[test]
fn test_header_length_field() {
    let header = SomeIpHeader::new(0x1234, 0x5678, 0x0001, 0x0001, 0x00, 100);
    assert_eq!(header.length, 108);

    let header2 = SomeIpHeader::new(0x1234, 0x5678, 0x0001, 0x0001, 0x00, 0);
    assert_eq!(header2.length, 8);
}

#[test]
fn test_header_with_return_code() {
    let header = SomeIpHeader::with_return_code(
        0x1234,
        0x5678,
        0x0001,
        0x0001,
        0x80,
        0,
        u8::from(ReturnCode::UnknownMethod),
    );
    assert_eq!(header.return_code, 0x03);
    assert_eq!(header.return_code_enum(), Some(ReturnCode::UnknownMethod));
}

#[test]
fn test_header_message_type_enum() {
    let header = SomeIpHeader::new(0x1234, 0x5678, 0x0001, 0x0001, 0x80, 0);
    assert_eq!(header.message_type_enum(), Some(MessageType::Response));
}

#[test]
fn test_header_deserialize_error() {
    let small_buffer = [0u8; 10];
    assert!(SomeIpHeader::deserialize(&small_buffer).is_err());
}

#[test]
fn test_header_roundtrip() {
    let original = SomeIpHeader::with_return_code(
        0xABCD,
        0x1234,
        0x5678,
        0x9ABC,
        u8::from(MessageType::Response),
        256,
        0x00,
    );

    let bytes = original.serialize();
    let deserialized = SomeIpHeader::deserialize(&bytes).unwrap();

    assert_eq!(deserialized.service_id, 0xABCD);
    assert_eq!(deserialized.method_id, 0x1234);
    assert_eq!(deserialized.client_id, 0x5678);
    assert_eq!(deserialized.session_id, 0x9ABC);
    assert_eq!(deserialized.length, 256 + 8);
    assert_eq!(deserialized.message_type, 0x80);
    assert_eq!(deserialized.return_code, 0x00);
}

#[test]
fn rust_serialization_test_test_header_serialization() {
    let header = SomeIpHeader::new(0x1234, 0x5678, 0xDEAD, 0xBEEF, 0x00, 10);

    let serialized = header.serialize();

    assert_eq!(serialized[0..2], [0x12, 0x34]);
    assert_eq!(serialized[2..4], [0x56, 0x78]);
    assert_eq!(serialized[4..8], [0x00, 0x00, 0x00, 0x12]);
    assert_eq!(serialized[8..10], [0xDE, 0xAD]);
    assert_eq!(serialized[10..12], [0xBE, 0xEF]);
    assert_eq!(serialized[12], 0x01);
    assert_eq!(serialized[13], 0x01);
    assert_eq!(serialized[14], 0x00);
    assert_eq!(serialized[15], 0x00);
}

#[test]
fn codec_roundtrip_scenario() {
    let header = SomeIpHeader::new(0x1234, 0x5678, 0x0001, 0x0002, u8::from(MessageType::Request), 100);
    let bytes = header.serialize();
    assert_eq!(bytes.len(), 16);
    assert_eq!(u32::from_be_bytes([bytes[4], bytes[5], bytes[6], bytes[7]]), 108);
    assert_eq!(bytes[7], 0x6C);
    assert_eq!(SomeIpHeader::deserialize(&bytes).unwrap(), header);
}

#[test]
fn header_deserialize_error_is_malformed_message() {
    assert_eq!(SomeIpHeader::deserialize(&[0u8; 15]), Err(ReturnCode::MalformedMessage));
    assert!(SomeIpHeader::deserialize(&[0u8; 16]).is_ok());
}

#[test]
fn u64_and_i64_round_trip() {
    let mut buf = Vec::new();
    0x0102_0304_0506_0708u64.serialize(&mut buf).unwrap();
    assert_eq!(buf, vec![1, 2, 3, 4, 5, 6, 7, 8]);
    assert_eq!(u64::deserialize(&mut WireReader::new(buf)).unwrap(), 0x0102_0304_0506_0708);

    let mut buf = Vec::new();
    (-2i64).serialize(&mut buf).unwrap();
    assert_eq!(buf, vec![0xFF, 0xFF, 0xFF, 0xFF, 0xFF, 0xFF, 0xFF, 0xFE]);
    assert_eq!(i64::deserialize(&mut WireReader::new(buf)).unwrap(), -2);
}

#[test]
fn truncated_inputs_are_malformed() {
    assert_eq!(u32::deserialize(&mut WireReader::new(vec![1, 2, 3])), Err(ReturnCode::MalformedMessage));
    assert_eq!(String::deserialize(&mut WireReader::new(vec![0, 0, 0, 5, b'a'])), Err(ReturnCode::MalformedMessage));
    assert_eq!(String::deserialize(&mut WireReader::new(vec![0, 0, 0, 1, 0xFF])), Err(ReturnCode::MalformedMessage));
    assert_eq!(Vec::<i32>::deserialize(&mut WireReader::new(vec![0, 0, 0, 3, 1, 2, 3])), Err(ReturnCode::MalformedMessage));
}

#[test]
fn multibyte_string_round_trip() {
    let val = String::from("h\u{e9}llo");
    let mut buf = Vec::new();
    val.serialize(&mut buf).unwrap();
    assert_eq!(buf[3], 6);
    let mut reader = WireReader::new(buf);
    assert_eq!(String::deserialize(&mut reader).unwrap(), val);
    assert_eq!(reader.pos, 10);
}

#[test]
fn sequences_of_any_codec_type_round_trip() {
    let strings = vec![String::from("ab"), String::new(), String::from("\u{e9}")];
    let mut buf = Vec::new();
    strings.serialize(&mut buf).unwrap();
    assert_eq!(buf[0..4], [0, 0, 0, 4 + 2 + 4 + 4 + 2]);
    let mut reader = WireReader::new(buf.clone());
    assert_eq!(Vec::<String>::deserialize(&mut reader).unwrap(), strings);
    assert_eq!(reader.pos, buf.len());

    let shorts: Vec<u16> = vec![1, 0xABCD];
    let mut buf = Vec::new();
    shorts.serialize(&mut buf).unwrap();
    assert_eq!(buf, vec![0, 0, 0, 4, 0, 1, 0xAB, 0xCD]);
    assert_eq!(Vec::<u16>::deserialize(&mut WireReader::new(buf)).unwrap(), shorts);

    let nested: Vec<Vec<i32>> = vec![vec![1, -1], vec![], vec![7]];
    let mut buf = Vec::new();
    nested.serialize(&mut buf).unwrap();
    assert_eq!(buf[0..4], [0, 0, 0, 12 + 4 + 8]);
    assert_eq!(Vec::<Vec<i32>>::deserialize(&mut WireReader::new(buf)).unwrap(), nested);
}

#[test]
fn sequence_with_partial_element_is_malformed() {
    assert_eq!(
        Vec::<u16>::deserialize(&mut WireReader::new(vec![0, 0, 0, 3, 1, 2, 3])),
        Err(ReturnCode::MalformedMessage)
    );
}
