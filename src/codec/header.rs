//! The 16-byte SOME/IP message header and the message-type and return-code
//! enumerations it carries.

use vstd::prelude::*;
use crate::codec::wire::{be16, be32, get_u16, get_u32, read16, read32, lemma_be16_round_trip, lemma_be32_round_trip};

verus! {

/// SOME/IP message types. The high bit (0x80) marks replies and bit 0x20
/// marks segmented (TP) carriers.
#[derive(Debug, Clone, Copy, PartialEq, Eq, Structural)]
pub enum MessageType {
    /// Request expecting a response (0x00).
    Request,
    /// Fire-and-forget request (0x01).
    RequestNoReturn,
    /// Notification / event (0x02).
    Notification,
    /// Segmented request (0x20).
    RequestWithTp,
    /// Segmented fire-and-forget request (0x21).
    RequestNoReturnWithTp,
    /// Segmented notification (0x22).
    NotificationWithTp,
    /// Response to a request (0x80).
    Response,
    /// Error response (0x81).
    Error,
    /// Segmented response (0xA0).
    ResponseWithTp,
    /// Segmented error (0xA1).
    ErrorWithTp,
}

/// The wire code of a message type.
pub open spec fn message_type_code(m: MessageType) -> u8 {
    match m {
        MessageType::Request => 0x00,
        MessageType::RequestNoReturn => 0x01,
        MessageType::Notification => 0x02,
        MessageType::RequestWithTp => 0x20,
        MessageType::RequestNoReturnWithTp => 0x21,
        MessageType::NotificationWithTp => 0x22,
        MessageType::Response => 0x80,
        MessageType::Error => 0x81,
        MessageType::ResponseWithTp => 0xA0,
        MessageType::ErrorWithTp => 0xA1,
    }
}

/// The message type whose wire code is `v`, if any.
pub open spec fn message_type_of(v: u8) -> Option<MessageType> {
    if v == 0x00 {
        Some(MessageType::Request)
    } else if v == 0x01 {
        Some(MessageType::RequestNoReturn)
    } else if v == 0x02 {
        Some(MessageType::Notification)
    } else if v == 0x20 {
        Some(MessageType::RequestWithTp)
    } else if v == 0x21 {
        Some(MessageType::RequestNoReturnWithTp)
    } else if v == 0x22 {
        Some(MessageType::NotificationWithTp)
    } else if v == 0x80 {
        Some(MessageType::Response)
    } else if v == 0x81 {
        Some(MessageType::Error)
    } else if v == 0xA0 {
        Some(MessageType::ResponseWithTp)
    } else if v == 0xA1 {
        Some(MessageType::ErrorWithTp)
    } else {
        None
    }
}

/// Distinct message types have distinct codes, so decoding a code gives back
/// the type it came from, and only the ten listed codes decode.
pub proof fn lemma_message_type_code_round_trip(m: MessageType)
    ensures
        message_type_of(message_type_code(m)) == Some(m),
{
}

impl MessageType {
    pub fn from_u8(value: u8) -> (r: Option<MessageType>)
        ensures
            r == message_type_of(value),
            r matches Some(m) ==> message_type_code(m) == value,
    {
        let r = match value {
            0x00 => Some(MessageType::Request),
            0x01 => Some(MessageType::RequestNoReturn),
            0x02 => Some(MessageType::Notification),
            0x20 => Some(MessageType::RequestWithTp),
            0x21 => Some(MessageType::RequestNoReturnWithTp),
            0x22 => Some(MessageType::NotificationWithTp),
            0x80 => Some(MessageType::Response),
            0x81 => Some(MessageType::Error),
            0xA0 => Some(MessageType::ResponseWithTp),
            0xA1 => Some(MessageType::ErrorWithTp),
            _ => None,
        };
        r
    }

    /// The wire code of this message type.
    pub fn to_u8(&self) -> (r: u8)
        ensures
            r == message_type_code(*self),
    {
        match self {
            MessageType::Request => 0x00,
            MessageType::RequestNoReturn => 0x01,
            MessageType::Notification => 0x02,
            MessageType::RequestWithTp => 0x20,
            MessageType::RequestNoReturnWithTp => 0x21,
            MessageType::NotificationWithTp => 0x22,
            MessageType::Response => 0x80,
            MessageType::Error => 0x81,
            MessageType::ResponseWithTp => 0xA0,
            MessageType::ErrorWithTp => 0xA1,
        }
    }

    pub fn is_request(&self) -> (r: bool)
        ensures
            r == (message_type_code(*self) & 0x80u8 == 0 && message_type_code(*self) & 0x0Fu8 <= 1),
    {
        proof {
            let c = message_type_code(*self);
            assert(0x00u8 & 0x80u8 == 0 && 0x00u8 & 0x0Fu8 == 0) by (bit_vector);
            assert(0x01u8 & 0x80u8 == 0 && 0x01u8 & 0x0Fu8 == 1) by (bit_vector);
            assert(0x02u8 & 0x0Fu8 == 2) by (bit_vector);
            assert(0x20u8 & 0x80u8 == 0 && 0x20u8 & 0x0Fu8 == 0) by (bit_vector);
            assert(0x21u8 & 0x80u8 == 0 && 0x21u8 & 0x0Fu8 == 1) by (bit_vector);
            assert(0x22u8 & 0x0Fu8 == 2) by (bit_vector);
            assert(0x80u8 & 0x80u8 != 0 && 0x81u8 & 0x80u8 != 0) by (bit_vector);
            assert(0xA0u8 & 0x80u8 != 0 && 0xA1u8 & 0x80u8 != 0) by (bit_vector);
        }
        matches!(
            self,
            MessageType::Request | MessageType::RequestNoReturn | MessageType::RequestWithTp
                | MessageType::RequestNoReturnWithTp
        )
    }

    pub fn is_response(&self) -> (r: bool)
        ensures
            r == (message_type_code(*self) == 0x80 || message_type_code(*self) == 0xA0),
    {
        matches!(self, MessageType::Response | MessageType::ResponseWithTp)
    }

    pub fn is_error(&self) -> (r: bool)
        ensures
            r == (message_type_code(*self) == 0x81 || message_type_code(*self) == 0xA1),
    {
        matches!(self, MessageType::Error | MessageType::ErrorWithTp)
    }

    pub fn is_notification(&self) -> (r: bool)
        ensures
            r == (message_type_code(*self) == 0x02 || message_type_code(*self) == 0x22),
    {
        matches!(self, MessageType::Notification | MessageType::NotificationWithTp)
    }

    /// Whether the message carries a TP sub-header: bit 0x20 of its code.
    pub fn uses_tp(&self) -> (r: bool)
        ensures
            r == (message_type_code(*self) & 0x20u8 != 0),
    {
        proof {
            assert(0x00u8 & 0x20u8 == 0 && 0x01u8 & 0x20u8 == 0 && 0x02u8 & 0x20u8 == 0)
                by (bit_vector);
            assert(0x80u8 & 0x20u8 == 0 && 0x81u8 & 0x20u8 == 0) by (bit_vector);
            assert(0x20u8 & 0x20u8 != 0 && 0x21u8 & 0x20u8 != 0 && 0x22u8 & 0x20u8 != 0)
                by (bit_vector);
            assert(0xA0u8 & 0x20u8 != 0 && 0xA1u8 & 0x20u8 != 0) by (bit_vector);
        }
        matches!(
            self,
            MessageType::RequestWithTp | MessageType::RequestNoReturnWithTp
                | MessageType::NotificationWithTp | MessageType::ResponseWithTp
                | MessageType::ErrorWithTp
        )
    }
}

impl From<MessageType> for u8 {
    fn from(mt: MessageType) -> (r: u8) {
        mt.to_u8()
    }
}

impl vstd::std_specs::convert::FromSpecImpl<MessageType> for u8 {
    open spec fn obeys_from_spec() -> bool {
        true
    }

    open spec fn from_spec(mt: MessageType) -> u8 {
        message_type_code(mt)
    }
}

/// SOME/IP return codes: `NoError` (0x00) or one of the errors 0x01..=0x0E.
#[derive(Debug, Clone, Copy, PartialEq, Eq, Structural)]
pub enum ReturnCode {
    NoError,
    NotOk,
    UnknownService,
    UnknownMethod,
    NotReady,
    NotReachable,
    Timeout,
    WrongProtocolVersion,
    WrongInterfaceVersion,
    MalformedMessage,
    WrongMessageType,
    E2eRepeated,
    E2eWrongSequence,
    E2eNotAvailable,
    E2eNoNewData,
}

/// The wire code of a return code.
pub open spec fn return_code_value(c: ReturnCode) -> u8 {
    match c {
        ReturnCode::NoError => 0x00,
        ReturnCode::NotOk => 0x01,
        ReturnCode::UnknownService => 0x02,
        ReturnCode::UnknownMethod => 0x03,
        ReturnCode::NotReady => 0x04,
        ReturnCode::NotReachable => 0x05,
        ReturnCode::Timeout => 0x06,
        ReturnCode::WrongProtocolVersion => 0x07,
        ReturnCode::WrongInterfaceVersion => 0x08,
        ReturnCode::MalformedMessage => 0x09,
        ReturnCode::WrongMessageType => 0x0A,
        ReturnCode::E2eRepeated => 0x0B,
        ReturnCode::E2eWrongSequence => 0x0C,
        ReturnCode::E2eNotAvailable => 0x0D,
        ReturnCode::E2eNoNewData => 0x0E,
    }
}

impl ReturnCode {
    /// The return code for `value`: defined exactly on `0x00..=0x0E`.
    pub fn from_u8(value: u8) -> (r: Option<ReturnCode>)
        ensures
            r is Some <==> value <= 0x0E,
            r matches Some(c) ==> return_code_value(c) == value,
    {
        match value {
            0x00 => Some(ReturnCode::NoError),
            0x01 => Some(ReturnCode::NotOk),
            0x02 => Some(ReturnCode::UnknownService),
            0x03 => Some(ReturnCode::UnknownMethod),
            0x04 => Some(ReturnCode::NotReady),
            0x05 => Some(ReturnCode::NotReachable),
            0x06 => Some(ReturnCode::Timeout),
            0x07 => Some(ReturnCode::WrongProtocolVersion),
            0x08 => Some(ReturnCode::WrongInterfaceVersion),
            0x09 => Some(ReturnCode::MalformedMessage),
            0x0A => Some(ReturnCode::WrongMessageType),
            0x0B => Some(ReturnCode::E2eRepeated),
            0x0C => Some(ReturnCode::E2eWrongSequence),
            0x0D => Some(ReturnCode::E2eNotAvailable),
            0x0E => Some(ReturnCode::E2eNoNewData),
            _ => None,
        }
    }

    /// The wire code of this return code.
    pub fn to_u8(&self) -> (r: u8)
        ensures
            r == return_code_value(*self),
    {
        match self {
            ReturnCode::NoError => 0x00,
            ReturnCode::NotOk => 0x01,
            ReturnCode::UnknownService => 0x02,
            ReturnCode::UnknownMethod => 0x03,
            ReturnCode::NotReady => 0x04,
            ReturnCode::NotReachable => 0x05,
            ReturnCode::Timeout => 0x06,
            ReturnCode::WrongProtocolVersion => 0x07,
            ReturnCode::WrongInterfaceVersion => 0x08,
            ReturnCode::MalformedMessage => 0x09,
            ReturnCode::WrongMessageType => 0x0A,
            ReturnCode::E2eRepeated => 0x0B,
            ReturnCode::E2eWrongSequence => 0x0C,
            ReturnCode::E2eNotAvailable => 0x0D,
            ReturnCode::E2eNoNewData => 0x0E,
        }
    }

    pub fn is_error(&self) -> (r: bool)
        ensures
            r == (*self != ReturnCode::NoError),
    {
        !matches!(self, ReturnCode::NoError)
    }
}

impl From<ReturnCode> for u8 {
    fn from(rc: ReturnCode) -> (r: u8) {
        rc.to_u8()
    }
}

impl vstd::std_specs::convert::FromSpecImpl<ReturnCode> for u8 {
    open spec fn obeys_from_spec() -> bool {
        true
    }

    open spec fn from_spec(rc: ReturnCode) -> u8 {
        return_code_value(rc)
    }
}

/// The SOME/IP message header. `length` counts the bytes from the request id
/// to the end of the payload, that is the payload length plus 8.
#[derive(Debug, Clone, Copy, PartialEq, Eq, Structural)]
pub struct SomeIpHeader {
    pub service_id: u16,
    pub method_id: u16,
    pub length: u32,
    pub client_id: u16,
    pub session_id: u16,
    pub protocol_version: u8,
    pub interface_version: u8,
    pub message_type: u8,
    pub return_code: u8,
}

/// The 16 wire bytes of a header.
pub open spec fn header_bytes(h: SomeIpHeader) -> Seq<u8> {
    be16(h.service_id) + be16(h.method_id) + be32(h.length) + be16(h.client_id) + be16(
        h.session_id,
    ) + seq![h.protocol_version, h.interface_version, h.message_type, h.return_code]
}

/// The header that the first 16 bytes of `s` hold.
pub open spec fn header_from_bytes(s: Seq<u8>) -> SomeIpHeader {
    SomeIpHeader {
        service_id: read16(s, 0),
        method_id: read16(s, 2),
        length: read32(s, 4),
        client_id: read16(s, 8),
        session_id: read16(s, 10),
        protocol_version: s[12],
        interface_version: s[13],
        message_type: s[14],
        return_code: s[15],
    }
}

/// The header that `new`-style constructors build: protocol version 1,
/// return code Ok, length `payload_len + 8`.
pub open spec fn header_spec(
    service_id: u16,
    method_id: u16,
    client_id: u16,
    session_id: u16,
    message_type: u8,
    payload_len: u32,
    interface_version: u8,
    return_code: u8,
) -> SomeIpHeader {
    SomeIpHeader {
        service_id,
        method_id,
        length: (payload_len + 8) as u32,
        client_id,
        session_id,
        protocol_version: 0x01,
        interface_version,
        message_type,
        return_code,
    }
}

/// Encoding a header and decoding the bytes gives the header back, and bytes
/// 4..8 hold its length field in network order.
pub proof fn lemma_header_round_trip(h: SomeIpHeader)
    ensures
        header_bytes(h).len() == 16,
        header_from_bytes(header_bytes(h)) == h,
        read32(header_bytes(h), 4) == h.length,
{
    let s = header_bytes(h);
    lemma_be16_round_trip(h.service_id);
    lemma_be16_round_trip(h.method_id);
    lemma_be32_round_trip(h.length);
    lemma_be16_round_trip(h.client_id);
    lemma_be16_round_trip(h.session_id);
    assert(s.subrange(0, 2) =~= be16(h.service_id));
    assert(s.subrange(2, 4) =~= be16(h.method_id));
    assert(s.subrange(4, 8) =~= be32(h.length));
    assert(s.subrange(8, 10) =~= be16(h.client_id));
    assert(s.subrange(10, 12) =~= be16(h.session_id));
    assert(read16(s, 0) == read16(be16(h.service_id), 0));
    assert(read16(s, 2) == read16(be16(h.method_id), 0));
    assert(read32(s, 4) == read32(be32(h.length), 0));
    assert(read16(s, 8) == read16(be16(h.client_id), 0));
    assert(read16(s, 10) == read16(be16(h.session_id), 0));
}

/// A header built for a payload of `payload_len` bytes carries
/// `payload_len + 8` in bytes 4..8, most significant byte first.
pub proof fn lemma_length_field(
    service_id: u16,
    method_id: u16,
    client_id: u16,
    session_id: u16,
    message_type: u8,
    payload_len: u32,
    interface_version: u8,
    return_code: u8,
)
    requires
        payload_len <= u32::MAX - 8,
    ensures
        read32(
            header_bytes(header_spec(service_id, method_id, client_id, session_id, message_type, payload_len, interface_version, return_code)),
            4,
        ) == payload_len + 8,
{
    lemma_header_round_trip(header_spec(service_id, method_id, client_id, session_id, message_type, payload_len, interface_version, return_code));
}

impl SomeIpHeader {
    pub const HEADER_LENGTH: u32 = 16;
    pub const SOMEIP_PROTOCOL_VERSION: u8 = 0x01;
    pub const DEFAULT_INTERFACE_VERSION: u8 = 0x01;

    /// A header with interface version 1 and return code Ok.
    pub fn new(
        service_id: u16,
        method_id: u16,
        client_id: u16,
        session_id: u16,
        message_type: u8,
        payload_len: u32,
    ) -> (r: SomeIpHeader)
        requires
            payload_len <= u32::MAX - 8,
        ensures
            r == header_spec(
                service_id,
                method_id,
                client_id,
                session_id,
                message_type,
                payload_len,
                0x01,
                0x00,
            ),
    {
        Self::with_interface_version(
            service_id,
            method_id,
            client_id,
            session_id,
            message_type,
            payload_len,
            Self::DEFAULT_INTERFACE_VERSION,
        )
    }

    /// A header with the given interface version and return code Ok.
    pub fn with_interface_version(
        service_id: u16,
        method_id: u16,
        client_id: u16,
        session_id: u16,
        message_type: u8,
        payload_len: u32,
        interface_version: u8,
    ) -> (r: SomeIpHeader)
        requires
            payload_len <= u32::MAX - 8,
        ensures
            r == header_spec(
                service_id,
                method_id,
                client_id,
                session_id,
                message_type,
                payload_len,
                interface_version,
                0x00,
            ),
    {
        SomeIpHeader {
            service_id,
            method_id,
            length: payload_len + 8,
            client_id,
            session_id,
            protocol_version: Self::SOMEIP_PROTOCOL_VERSION,
            interface_version,
            message_type,
            return_code: 0x00,
        }
    }

    /// A header with interface version 1 and the given return code.
    pub fn with_return_code(
        service_id: u16,
        method_id: u16,
        client_id: u16,
        session_id: u16,
        message_type: u8,
        payload_len: u32,
        return_code: u8,
    ) -> (r: SomeIpHeader)
        requires
            payload_len <= u32::MAX - 8,
        ensures
            r == header_spec(
                service_id,
                method_id,
                client_id,
                session_id,
                message_type,
                payload_len,
                0x01,
                return_code,
            ),
    {
        let mut header = Self::new(
            service_id,
            method_id,
            client_id,
            session_id,
            message_type,
            payload_len,
        );
        header.return_code = return_code;
        header
    }

    pub fn message_type_enum(&self) -> (r: Option<MessageType>)
        ensures
            r == message_type_of(self.message_type),
    {
        MessageType::from_u8(self.message_type)
    }

    pub fn return_code_enum(&self) -> (r: Option<ReturnCode>)
        ensures
            r is Some <==> self.return_code <= 0x0E,
            r matches Some(c) ==> return_code_value(c) == self.return_code,
    {
        ReturnCode::from_u8(self.return_code)
    }

    /// The 16 network-order bytes of this header.
    pub fn serialize(&self) -> (r: [u8; 16])
        ensures
            r@ == header_bytes(*self),
    {
        let r = [
            (self.service_id >> 8u16) as u8,
            (self.service_id & 0xffu16) as u8,
            (self.method_id >> 8u16) as u8,
            (self.method_id & 0xffu16) as u8,
            (self.length >> 24u32) as u8,
            ((self.length >> 16u32) & 0xffu32) as u8,
            ((self.length >> 8u32) & 0xffu32) as u8,
            (self.length & 0xffu32) as u8,
            (self.client_id >> 8u16) as u8,
            (self.client_id & 0xffu16) as u8,
            (self.session_id >> 8u16) as u8,
            (self.session_id & 0xffu16) as u8,
            self.protocol_version,
            self.interface_version,
            self.message_type,
            self.return_code,
        ];
        assert(r@ =~= header_bytes(*self));
        r
    }

    /// Decodes the first 16 bytes of `buffer`; fails with `MalformedMessage`
    /// exactly when fewer than 16 bytes are given.
    pub fn deserialize(buffer: &[u8]) -> (r: Result<SomeIpHeader, ReturnCode>)
        ensures
            buffer@.len() < 16 ==> r == Err::<SomeIpHeader, ReturnCode>(ReturnCode::MalformedMessage),
            buffer@.len() >= 16 ==> r == Ok::<SomeIpHeader, ReturnCode>(header_from_bytes(buffer@)),
    {
        if buffer.len() < 16 {
            return Err(ReturnCode::MalformedMessage);
        }
        Ok(SomeIpHeader {
            service_id: get_u16(buffer, 0),
            method_id: get_u16(buffer, 2),
            length: get_u32(buffer, 4),
            client_id: get_u16(buffer, 8),
            session_id: get_u16(buffer, 10),
            protocol_version: buffer[12],
            interface_version: buffer[13],
            message_type: buffer[14],
            return_code: buffer[15],
        })
    }
}

} // verus!
