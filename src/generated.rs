//! Interface types and service skeletons of the example services: math
//! (add, sub), string (reverse, uppercase) and sort (ascending,
//! descending). Each message type has the payload codec; each server decodes
//! a request, calls its provider and encodes the response.

use vstd::prelude::*;
use std::sync::Arc;
use crate::codec::header::SomeIpHeader;
use crate::codec::traits::{SomeIpCodec, SomeIpDeserialize, SomeIpSerialize, WireReader};
use crate::codec::wire::{be32, copy_range, read32};
use crate::codec::header::ReturnCode;
use crate::runtime::RequestHandler;

verus! {

/// A list of integers.
#[derive(Debug, Clone, PartialEq)]
pub struct SortData {
    pub values: Vec<i32>,
}

impl DeepView for SortData {
    type V = Seq<i32>;

    open spec fn deep_view(&self) -> Seq<i32> {
        self.values.deep_view()
    }
}

impl SomeIpSerialize for SortData {
    open spec fn wire_of(v: Seq<i32>) -> Seq<u8> {
        <Vec<i32> as SomeIpSerialize>::wire_of(v)
    }

    open spec fn encodable(v: Seq<i32>) -> bool {
        <Vec<i32> as SomeIpSerialize>::encodable(v)
    }

    fn serialize(&self, out: &mut Vec<u8>) -> (r: Result<(), ReturnCode>) {
        self.values.serialize(out)
    }
}

impl SomeIpDeserialize for SortData {
    open spec fn decode_spec(s: Seq<u8>) -> Option<(Seq<i32>, nat)> {
        <Vec<i32> as SomeIpDeserialize>::decode_spec(s)
    }

    fn deserialize(reader: &mut WireReader) -> (r: Result<SortData, ReturnCode>) {
        match <Vec<i32>>::deserialize(reader) {
            Ok(v) => Ok(SortData { values: v }),
            Err(e) => Err(e),
        }
    }
}

impl SomeIpCodec for SortData {
    proof fn lemma_round_trip(v: Seq<i32>, tail: Seq<u8>) {
        <Vec<i32> as SomeIpCodec>::lemma_round_trip(v, tail);
    }

    proof fn lemma_decode_consumes(s: Seq<u8>) {
        <Vec<i32> as SomeIpCodec>::lemma_decode_consumes(s);
    }
}

// Math service (0x1001).

/// Operands of `add`.
#[derive(Debug, Clone, PartialEq)]
pub struct MathServiceAddRequest {
    pub a: i32,
    pub b: i32,
}

impl DeepView for MathServiceAddRequest {
    type V = (i32, i32);

    open spec fn deep_view(&self) -> (i32, i32) {
        (self.a, self.b)
    }
}

impl SomeIpSerialize for MathServiceAddRequest {
    open spec fn wire_of(v: (i32, i32)) -> Seq<u8> {
        <i32 as SomeIpSerialize>::wire_of(v.0) + <i32 as SomeIpSerialize>::wire_of(v.1)
    }

    open spec fn encodable(v: (i32, i32)) -> bool {
        true
    }

    fn serialize(&self, out: &mut Vec<u8>) -> (r: Result<(), ReturnCode>) {
        let _ = self.a.serialize(out);
        let _ = self.b.serialize(out);
        assert(out@ =~= old(out)@ + Self::wire_of(self.deep_view()));
        Ok(())
    }
}

impl SomeIpDeserialize for MathServiceAddRequest {
    open spec fn decode_spec(s: Seq<u8>) -> Option<((i32, i32), nat)> {
        if s.len() >= 8 {
            Some(((read32(s, 0) as i32, read32(s, 4) as i32), 8))
        } else {
            None
        }
    }

    fn deserialize(reader: &mut WireReader) -> (r: Result<MathServiceAddRequest, ReturnCode>) {
        let ghost s = reader.rest();
        let a = match i32::deserialize(reader) {
            Ok(v) => v,
            Err(e) => return Err(e),
        };
        assert(reader.rest() =~= s.subrange(4, s.len() as int));
        proof {
            if s.len() >= 8 {
                assert(read32(reader.rest(), 0) == read32(s, 4));
            }
        }
        let b = match i32::deserialize(reader) {
            Ok(v) => v,
            Err(e) => return Err(e),
        };
        Ok(MathServiceAddRequest { a, b })
    }
}

impl SomeIpCodec for MathServiceAddRequest {
    proof fn lemma_round_trip(v: (i32, i32), tail: Seq<u8>) {
        let s = Self::wire_of(v) + tail;
        <i32 as SomeIpCodec>::lemma_round_trip(v.0, <i32 as SomeIpSerialize>::wire_of(v.1) + tail);
        <i32 as SomeIpCodec>::lemma_round_trip(v.1, tail);
        assert(s =~= be32(v.0 as u32) + (be32(v.1 as u32) + tail));
        assert(s.subrange(4, s.len() as int) =~= be32(v.1 as u32) + tail);
        assert(read32(s, 4) == read32(s.subrange(4, s.len() as int), 0));
    }

    proof fn lemma_decode_consumes(s: Seq<u8>) {
    }
}

/// Result of `add`.
#[derive(Debug, Clone, PartialEq)]
pub struct MathServiceAddResponse {
    pub result: i32,
}

impl DeepView for MathServiceAddResponse {
    type V = i32;

    open spec fn deep_view(&self) -> i32 {
        self.result.deep_view()
    }
}

impl SomeIpSerialize for MathServiceAddResponse {
    open spec fn wire_of(v: i32) -> Seq<u8> {
        <i32 as SomeIpSerialize>::wire_of(v)
    }

    open spec fn encodable(v: i32) -> bool {
        <i32 as SomeIpSerialize>::encodable(v)
    }

    fn serialize(&self, out: &mut Vec<u8>) -> (r: Result<(), ReturnCode>) {
        self.result.serialize(out)
    }
}

impl SomeIpDeserialize for MathServiceAddResponse {
    open spec fn decode_spec(s: Seq<u8>) -> Option<(i32, nat)> {
        <i32 as SomeIpDeserialize>::decode_spec(s)
    }

    fn deserialize(reader: &mut WireReader) -> (r: Result<MathServiceAddResponse, ReturnCode>) {
        match <i32>::deserialize(reader) {
            Ok(v) => Ok(MathServiceAddResponse { result: v }),
            Err(e) => Err(e),
        }
    }
}

impl SomeIpCodec for MathServiceAddResponse {
    proof fn lemma_round_trip(v: i32, tail: Seq<u8>) {
        <i32 as SomeIpCodec>::lemma_round_trip(v, tail);
    }

    proof fn lemma_decode_consumes(s: Seq<u8>) {
        <i32 as SomeIpCodec>::lemma_decode_consumes(s);
    }
}

/// Operands of `sub`.
#[derive(Debug, Clone, PartialEq)]
pub struct MathServiceSubRequest {
    pub a: i32,
    pub b: i32,
}

impl DeepView for MathServiceSubRequest {
    type V = (i32, i32);

    open spec fn deep_view(&self) -> (i32, i32) {
        (self.a, self.b)
    }
}

impl SomeIpSerialize for MathServiceSubRequest {
    open spec fn wire_of(v: (i32, i32)) -> Seq<u8> {
        <i32 as SomeIpSerialize>::wire_of(v.0) + <i32 as SomeIpSerialize>::wire_of(v.1)
    }

    open spec fn encodable(v: (i32, i32)) -> bool {
        true
    }

    fn serialize(&self, out: &mut Vec<u8>) -> (r: Result<(), ReturnCode>) {
        let _ = self.a.serialize(out);
        let _ = self.b.serialize(out);
        assert(out@ =~= old(out)@ + Self::wire_of(self.deep_view()));
        Ok(())
    }
}

impl SomeIpDeserialize for MathServiceSubRequest {
    open spec fn decode_spec(s: Seq<u8>) -> Option<((i32, i32), nat)> {
        if s.len() >= 8 {
            Some(((read32(s, 0) as i32, read32(s, 4) as i32), 8))
        } else {
            None
        }
    }

    fn deserialize(reader: &mut WireReader) -> (r: Result<MathServiceSubRequest, ReturnCode>) {
        let ghost s = reader.rest();
        let a = match i32::deserialize(reader) {
            Ok(v) => v,
            Err(e) => return Err(e),
        };
        assert(reader.rest() =~= s.subrange(4, s.len() as int));
        proof {
            if s.len() >= 8 {
                assert(read32(reader.rest(), 0) == read32(s, 4));
            }
        }
        let b = match i32::deserialize(reader) {
            Ok(v) => v,
            Err(e) => return Err(e),
        };
        Ok(MathServiceSubRequest { a, b })
    }
}

impl SomeIpCodec for MathServiceSubRequest {
    proof fn lemma_round_trip(v: (i32, i32), tail: Seq<u8>) {
        let s = Self::wire_of(v) + tail;
        <i32 as SomeIpCodec>::lemma_round_trip(v.0, <i32 as SomeIpSerialize>::wire_of(v.1) + tail);
        <i32 as SomeIpCodec>::lemma_round_trip(v.1, tail);
        assert(s =~= be32(v.0 as u32) + (be32(v.1 as u32) + tail));
        assert(s.subrange(4, s.len() as int) =~= be32(v.1 as u32) + tail);
        assert(read32(s, 4) == read32(s.subrange(4, s.len() as int), 0));
    }

    proof fn lemma_decode_consumes(s: Seq<u8>) {
    }
}

/// Result of `sub`.
#[derive(Debug, Clone, PartialEq)]
pub struct MathServiceSubResponse {
    pub result: i32,
}

impl DeepView for MathServiceSubResponse {
    type V = i32;

    open spec fn deep_view(&self) -> i32 {
        self.result.deep_view()
    }
}

impl SomeIpSerialize for MathServiceSubResponse {
    open spec fn wire_of(v: i32) -> Seq<u8> {
        <i32 as SomeIpSerialize>::wire_of(v)
    }

    open spec fn encodable(v: i32) -> bool {
        <i32 as SomeIpSerialize>::encodable(v)
    }

    fn serialize(&self, out: &mut Vec<u8>) -> (r: Result<(), ReturnCode>) {
        self.result.serialize(out)
    }
}

impl SomeIpDeserialize for MathServiceSubResponse {
    open spec fn decode_spec(s: Seq<u8>) -> Option<(i32, nat)> {
        <i32 as SomeIpDeserialize>::decode_spec(s)
    }

    fn deserialize(reader: &mut WireReader) -> (r: Result<MathServiceSubResponse, ReturnCode>) {
        match <i32>::deserialize(reader) {
            Ok(v) => Ok(MathServiceSubResponse { result: v }),
            Err(e) => Err(e),
        }
    }
}

impl SomeIpCodec for MathServiceSubResponse {
    proof fn lemma_round_trip(v: i32, tail: Seq<u8>) {
        <i32 as SomeIpCodec>::lemma_round_trip(v, tail);
    }

    proof fn lemma_decode_consumes(s: Seq<u8>) {
        <i32 as SomeIpCodec>::lemma_decode_consumes(s);
    }
}

// String service (0x2001).

/// Argument of `reverse`.
#[derive(Debug, Clone, PartialEq)]
pub struct StringServiceReverseRequest {
    pub text: String,
}

impl DeepView for StringServiceReverseRequest {
    type V = Seq<char>;

    open spec fn deep_view(&self) -> Seq<char> {
        self.text.deep_view()
    }
}

impl SomeIpSerialize for StringServiceReverseRequest {
    open spec fn wire_of(v: Seq<char>) -> Seq<u8> {
        <String as SomeIpSerialize>::wire_of(v)
    }

    open spec fn encodable(v: Seq<char>) -> bool {
        <String as SomeIpSerialize>::encodable(v)
    }

    fn serialize(&self, out: &mut Vec<u8>) -> (r: Result<(), ReturnCode>) {
        self.text.serialize(out)
    }
}

impl SomeIpDeserialize for StringServiceReverseRequest {
    open spec fn decode_spec(s: Seq<u8>) -> Option<(Seq<char>, nat)> {
        <String as SomeIpDeserialize>::decode_spec(s)
    }

    fn deserialize(reader: &mut WireReader) -> (r: Result<StringServiceReverseRequest, ReturnCode>) {
        match <String>::deserialize(reader) {
            Ok(v) => Ok(StringServiceReverseRequest { text: v }),
            Err(e) => Err(e),
        }
    }
}

impl SomeIpCodec for StringServiceReverseRequest {
    proof fn lemma_round_trip(v: Seq<char>, tail: Seq<u8>) {
        <String as SomeIpCodec>::lemma_round_trip(v, tail);
    }

    proof fn lemma_decode_consumes(s: Seq<u8>) {
        <String as SomeIpCodec>::lemma_decode_consumes(s);
    }
}

/// Result of `reverse`.
#[derive(Debug, Clone, PartialEq)]
pub struct StringServiceReverseResponse {
    pub result: String,
}

impl DeepView for StringServiceReverseResponse {
    type V = Seq<char>;

    open spec fn deep_view(&self) -> Seq<char> {
        self.result.deep_view()
    }
}

impl SomeIpSerialize for StringServiceReverseResponse {
    open spec fn wire_of(v: Seq<char>) -> Seq<u8> {
        <String as SomeIpSerialize>::wire_of(v)
    }

    open spec fn encodable(v: Seq<char>) -> bool {
        <String as SomeIpSerialize>::encodable(v)
    }

    fn serialize(&self, out: &mut Vec<u8>) -> (r: Result<(), ReturnCode>) {
        self.result.serialize(out)
    }
}

impl SomeIpDeserialize for StringServiceReverseResponse {
    open spec fn decode_spec(s: Seq<u8>) -> Option<(Seq<char>, nat)> {
        <String as SomeIpDeserialize>::decode_spec(s)
    }

    fn deserialize(reader: &mut WireReader) -> (r: Result<StringServiceReverseResponse, ReturnCode>) {
        match <String>::deserialize(reader) {
            Ok(v) => Ok(StringServiceReverseResponse { result: v }),
            Err(e) => Err(e),
        }
    }
}

impl SomeIpCodec for StringServiceReverseResponse {
    proof fn lemma_round_trip(v: Seq<char>, tail: Seq<u8>) {
        <String as SomeIpCodec>::lemma_round_trip(v, tail);
    }

    proof fn lemma_decode_consumes(s: Seq<u8>) {
        <String as SomeIpCodec>::lemma_decode_consumes(s);
    }
}

/// Argument of `uppercase`.
#[derive(Debug, Clone, PartialEq)]
pub struct StringServiceUppercaseRequest {
    pub text: String,
}

impl DeepView for StringServiceUppercaseRequest {
    type V = Seq<char>;

    open spec fn deep_view(&self) -> Seq<char> {
        self.text.deep_view()
    }
}

impl SomeIpSerialize for StringServiceUppercaseRequest {
    open spec fn wire_of(v: Seq<char>) -> Seq<u8> {
        <String as SomeIpSerialize>::wire_of(v)
    }

    open spec fn encodable(v: Seq<char>) -> bool {
        <String as SomeIpSerialize>::encodable(v)
    }

    fn serialize(&self, out: &mut Vec<u8>) -> (r: Result<(), ReturnCode>) {
        self.text.serialize(out)
    }
}

impl SomeIpDeserialize for StringServiceUppercaseRequest {
    open spec fn decode_spec(s: Seq<u8>) -> Option<(Seq<char>, nat)> {
        <String as SomeIpDeserialize>::decode_spec(s)
    }

    fn deserialize(reader: &mut WireReader) -> (r: Result<StringServiceUppercaseRequest, ReturnCode>) {
        match <String>::deserialize(reader) {
            Ok(v) => Ok(StringServiceUppercaseRequest { text: v }),
            Err(e) => Err(e),
        }
    }
}

impl SomeIpCodec for StringServiceUppercaseRequest {
    proof fn lemma_round_trip(v: Seq<char>, tail: Seq<u8>) {
        <String as SomeIpCodec>::lemma_round_trip(v, tail);
    }

    proof fn lemma_decode_consumes(s: Seq<u8>) {
        <String as SomeIpCodec>::lemma_decode_consumes(s);
    }
}

/// Result of `uppercase`.
#[derive(Debug, Clone, PartialEq)]
pub struct StringServiceUppercaseResponse {
    pub result: String,
}

impl DeepView for StringServiceUppercaseResponse {
    type V = Seq<char>;

    open spec fn deep_view(&self) -> Seq<char> {
        self.result.deep_view()
    }
}

impl SomeIpSerialize for StringServiceUppercaseResponse {
    open spec fn wire_of(v: Seq<char>) -> Seq<u8> {
        <String as SomeIpSerialize>::wire_of(v)
    }

    open spec fn encodable(v: Seq<char>) -> bool {
        <String as SomeIpSerialize>::encodable(v)
    }

    fn serialize(&self, out: &mut Vec<u8>) -> (r: Result<(), ReturnCode>) {
        self.result.serialize(out)
    }
}

impl SomeIpDeserialize for StringServiceUppercaseResponse {
    open spec fn decode_spec(s: Seq<u8>) -> Option<(Seq<char>, nat)> {
        <String as SomeIpDeserialize>::decode_spec(s)
    }

    fn deserialize(reader: &mut WireReader) -> (r: Result<StringServiceUppercaseResponse, ReturnCode>) {
        match <String>::deserialize(reader) {
            Ok(v) => Ok(StringServiceUppercaseResponse { result: v }),
            Err(e) => Err(e),
        }
    }
}

impl SomeIpCodec for StringServiceUppercaseResponse {
    proof fn lemma_round_trip(v: Seq<char>, tail: Seq<u8>) {
        <String as SomeIpCodec>::lemma_round_trip(v, tail);
    }

    proof fn lemma_decode_consumes(s: Seq<u8>) {
        <String as SomeIpCodec>::lemma_decode_consumes(s);
    }
}

// Sort service (0x3001).

/// Argument of `sort_asc`.
#[derive(Debug, Clone, PartialEq)]
pub struct SortServiceSortAscRequest {
    pub data: Vec<i32>,
}

impl DeepView for SortServiceSortAscRequest {
    type V = Seq<i32>;

    open spec fn deep_view(&self) -> Seq<i32> {
        self.data.deep_view()
    }
}

impl SomeIpSerialize for SortServiceSortAscRequest {
    open spec fn wire_of(v: Seq<i32>) -> Seq<u8> {
        <Vec<i32> as SomeIpSerialize>::wire_of(v)
    }

    open spec fn encodable(v: Seq<i32>) -> bool {
        <Vec<i32> as SomeIpSerialize>::encodable(v)
    }

    fn serialize(&self, out: &mut Vec<u8>) -> (r: Result<(), ReturnCode>) {
        self.data.serialize(out)
    }
}

impl SomeIpDeserialize for SortServiceSortAscRequest {
    open spec fn decode_spec(s: Seq<u8>) -> Option<(Seq<i32>, nat)> {
        <Vec<i32> as SomeIpDeserialize>::decode_spec(s)
    }

    fn deserialize(reader: &mut WireReader) -> (r: Result<SortServiceSortAscRequest, ReturnCode>) {
        match <Vec<i32>>::deserialize(reader) {
            Ok(v) => Ok(SortServiceSortAscRequest { data: v }),
            Err(e) => Err(e),
        }
    }
}

impl SomeIpCodec for SortServiceSortAscRequest {
    proof fn lemma_round_trip(v: Seq<i32>, tail: Seq<u8>) {
        <Vec<i32> as SomeIpCodec>::lemma_round_trip(v, tail);
    }

    proof fn lemma_decode_consumes(s: Seq<u8>) {
        <Vec<i32> as SomeIpCodec>::lemma_decode_consumes(s);
    }
}

/// Result of `sort_asc`.
#[derive(Debug, Clone, PartialEq)]
pub struct SortServiceSortAscResponse {
    pub result: Vec<i32>,
}

impl DeepView for SortServiceSortAscResponse {
    type V = Seq<i32>;

    open spec fn deep_view(&self) -> Seq<i32> {
        self.result.deep_view()
    }
}

impl SomeIpSerialize for SortServiceSortAscResponse {
    open spec fn wire_of(v: Seq<i32>) -> Seq<u8> {
        <Vec<i32> as SomeIpSerialize>::wire_of(v)
    }

    open spec fn encodable(v: Seq<i32>) -> bool {
        <Vec<i32> as SomeIpSerialize>::encodable(v)
    }

    fn serialize(&self, out: &mut Vec<u8>) -> (r: Result<(), ReturnCode>) {
        self.result.serialize(out)
    }
}

impl SomeIpDeserialize for SortServiceSortAscResponse {
    open spec fn decode_spec(s: Seq<u8>) -> Option<(Seq<i32>, nat)> {
        <Vec<i32> as SomeIpDeserialize>::decode_spec(s)
    }

    fn deserialize(reader: &mut WireReader) -> (r: Result<SortServiceSortAscResponse, ReturnCode>) {
        match <Vec<i32>>::deserialize(reader) {
            Ok(v) => Ok(SortServiceSortAscResponse { result: v }),
            Err(e) => Err(e),
        }
    }
}

impl SomeIpCodec for SortServiceSortAscResponse {
    proof fn lemma_round_trip(v: Seq<i32>, tail: Seq<u8>) {
        <Vec<i32> as SomeIpCodec>::lemma_round_trip(v, tail);
    }

    proof fn lemma_decode_consumes(s: Seq<u8>) {
        <Vec<i32> as SomeIpCodec>::lemma_decode_consumes(s);
    }
}

/// Argument of `sort_desc`.
#[derive(Debug, Clone, PartialEq)]
pub struct SortServiceSortDescRequest {
    pub data: Vec<i32>,
}

impl DeepView for SortServiceSortDescRequest {
    type V = Seq<i32>;

    open spec fn deep_view(&self) -> Seq<i32> {
        self.data.deep_view()
    }
}

impl SomeIpSerialize for SortServiceSortDescRequest {
    open spec fn wire_of(v: Seq<i32>) -> Seq<u8> {
        <Vec<i32> as SomeIpSerialize>::wire_of(v)
    }

    open spec fn encodable(v: Seq<i32>) -> bool {
        <Vec<i32> as SomeIpSerialize>::encodable(v)
    }

    fn serialize(&self, out: &mut Vec<u8>) -> (r: Result<(), ReturnCode>) {
        self.data.serialize(out)
    }
}

impl SomeIpDeserialize for SortServiceSortDescRequest {
    open spec fn decode_spec(s: Seq<u8>) -> Option<(Seq<i32>, nat)> {
        <Vec<i32> as SomeIpDeserialize>::decode_spec(s)
    }

    fn deserialize(reader: &mut WireReader) -> (r: Result<SortServiceSortDescRequest, ReturnCode>) {
        match <Vec<i32>>::deserialize(reader) {
            Ok(v) => Ok(SortServiceSortDescRequest { data: v }),
            Err(e) => Err(e),
        }
    }
}

impl SomeIpCodec for SortServiceSortDescRequest {
    proof fn lemma_round_trip(v: Seq<i32>, tail: Seq<u8>) {
        <Vec<i32> as SomeIpCodec>::lemma_round_trip(v, tail);
    }

    proof fn lemma_decode_consumes(s: Seq<u8>) {
        <Vec<i32> as SomeIpCodec>::lemma_decode_consumes(s);
    }
}

/// Result of `sort_desc`.
#[derive(Debug, Clone, PartialEq)]
pub struct SortServiceSortDescResponse {
    pub result: Vec<i32>,
}

impl DeepView for SortServiceSortDescResponse {
    type V = Seq<i32>;

    open spec fn deep_view(&self) -> Seq<i32> {
        self.result.deep_view()
    }
}

impl SomeIpSerialize for SortServiceSortDescResponse {
    open spec fn wire_of(v: Seq<i32>) -> Seq<u8> {
        <Vec<i32> as SomeIpSerialize>::wire_of(v)
    }

    open spec fn encodable(v: Seq<i32>) -> bool {
        <Vec<i32> as SomeIpSerialize>::encodable(v)
    }

    fn serialize(&self, out: &mut Vec<u8>) -> (r: Result<(), ReturnCode>) {
        self.result.serialize(out)
    }
}

impl SomeIpDeserialize for SortServiceSortDescResponse {
    open spec fn decode_spec(s: Seq<u8>) -> Option<(Seq<i32>, nat)> {
        <Vec<i32> as SomeIpDeserialize>::decode_spec(s)
    }

    fn deserialize(reader: &mut WireReader) -> (r: Result<SortServiceSortDescResponse, ReturnCode>) {
        match <Vec<i32>>::deserialize(reader) {
            Ok(v) => Ok(SortServiceSortDescResponse { result: v }),
            Err(e) => Err(e),
        }
    }
}

impl SomeIpCodec for SortServiceSortDescResponse {
    proof fn lemma_round_trip(v: Seq<i32>, tail: Seq<u8>) {
        <Vec<i32> as SomeIpCodec>::lemma_round_trip(v, tail);
    }

    proof fn lemma_decode_consumes(s: Seq<u8>) {
        <Vec<i32> as SomeIpCodec>::lemma_decode_consumes(s);
    }
}

/// The MathService service's operations, implemented by the application.
pub trait MathServiceProvider {
    fn add(&self, a: i32, b: i32) -> i32;

    fn sub(&self, a: i32, b: i32) -> i32;
}

/// Dispatches MathService requests (service 0x1001) to a provider.
pub struct MathServiceServer<T: MathServiceProvider> {
    provider: Arc<T>,
}

impl<T: MathServiceProvider> MathServiceServer<T> {
    pub const SERVICE_ID: u16 = 0x1001;

    /// The provider requests are dispatched to.
    pub closed spec fn provider_of(&self) -> Arc<T> {
        self.provider
    }

    pub fn new(provider: Arc<T>) -> (r: MathServiceServer<T>)
        ensures
            r.provider_of() == provider,
    {
        MathServiceServer { provider }
    }

    /// Decodes the request of method 1 (`add`) or 2 (`sub`), calls the
    /// provider and encodes its result; nothing for another service or
    /// method, or a payload that does not decode.
    pub fn respond(&self, header: &SomeIpHeader, payload: &[u8]) -> (r: Option<Vec<u8>>)
        ensures
            header.service_id != 0x1001 ==> r is None,
            header.method_id != 1 && header.method_id != 2 ==> r is None,
            header.service_id == 0x1001 && header.method_id == 1 ==> (r is Some <==> <MathServiceAddRequest as SomeIpDeserialize>::decode_spec(payload@) is Some),
            header.service_id == 0x1001 && header.method_id == 2 ==> (r is Some <==> <MathServiceSubRequest as SomeIpDeserialize>::decode_spec(payload@) is Some),
            r matches Some(v) ==> exists|x: i32| v@ == #[trigger] be32(x as u32),
    {
        if header.service_id != 0x1001 {
            return None;
        }
        let bytes = copy_range(payload, 0, payload.len());
        assert(bytes@ =~= payload@);
        let mut reader = WireReader::new(bytes);
        if header.method_id == 1 {
            match MathServiceAddRequest::deserialize(&mut reader) {
                Ok(req) => {
                    let result = self.provider.add(req.a, req.b);
                    let resp = MathServiceAddResponse { result };
                    let mut out: Vec<u8> = Vec::new();
                    match resp.serialize(&mut out) {
                        Ok(()) => Some(out),
                        Err(_) => None,
                    }
                },
                Err(_) => None,
            }
        } else if header.method_id == 2 {
            match MathServiceSubRequest::deserialize(&mut reader) {
                Ok(req) => {
                    let result = self.provider.sub(req.a, req.b);
                    let resp = MathServiceSubResponse { result };
                    let mut out: Vec<u8> = Vec::new();
                    match resp.serialize(&mut out) {
                        Ok(()) => Some(out),
                        Err(_) => None,
                    }
                },
                Err(_) => None,
            }
        } else {
            None
        }
    }
}

impl<T: MathServiceProvider> RequestHandler for MathServiceServer<T> {
    fn service_id(&self) -> u16 {
        0x1001
    }

    fn major_version(&self) -> u8 {
        1
    }

    fn minor_version(&self) -> u32 {
        0
    }

    fn handle(&self, header: &SomeIpHeader, payload: &[u8]) -> Option<Vec<u8>> {
        self.respond(header, payload)
    }
}

/// The StringService service's operations, implemented by the application.
pub trait StringServiceProvider {
    fn reverse(&self, text: String) -> String;

    fn uppercase(&self, text: String) -> String;
}

/// Dispatches StringService requests (service 0x2001) to a provider.
pub struct StringServiceServer<T: StringServiceProvider> {
    provider: Arc<T>,
}

impl<T: StringServiceProvider> StringServiceServer<T> {
    pub const SERVICE_ID: u16 = 0x2001;

    /// The provider requests are dispatched to.
    pub closed spec fn provider_of(&self) -> Arc<T> {
        self.provider
    }

    pub fn new(provider: Arc<T>) -> (r: StringServiceServer<T>)
        ensures
            r.provider_of() == provider,
    {
        StringServiceServer { provider }
    }

    /// Decodes the request of method 1 (`reverse`) or 2 (`uppercase`), calls the
    /// provider and encodes its result; nothing for another service or
    /// method, or a payload that does not decode.
    pub fn respond(&self, header: &SomeIpHeader, payload: &[u8]) -> (r: Option<Vec<u8>>)
        ensures
            header.service_id != 0x2001 ==> r is None,
            header.method_id != 1 && header.method_id != 2 ==> r is None,
            header.service_id == 0x2001 && header.method_id == 1 ==> (r is Some ==> <StringServiceReverseRequest as SomeIpDeserialize>::decode_spec(payload@) is Some),
            header.service_id == 0x2001 && header.method_id == 2 ==> (r is Some ==> <StringServiceUppercaseRequest as SomeIpDeserialize>::decode_spec(payload@) is Some),
            r matches Some(v) ==> exists|t: Seq<char>| v@ == #[trigger] <String as SomeIpSerialize>::wire_of(t),
    {
        if header.service_id != 0x2001 {
            return None;
        }
        let bytes = copy_range(payload, 0, payload.len());
        assert(bytes@ =~= payload@);
        let mut reader = WireReader::new(bytes);
        if header.method_id == 1 {
            match StringServiceReverseRequest::deserialize(&mut reader) {
                Ok(req) => {
                    let result = self.provider.reverse(req.text);
                    let resp = StringServiceReverseResponse { result };
                    let mut out: Vec<u8> = Vec::new();
                    match resp.serialize(&mut out) {
                        Ok(()) => Some(out),
                        Err(_) => None,
                    }
                },
                Err(_) => None,
            }
        } else if header.method_id == 2 {
            match StringServiceUppercaseRequest::deserialize(&mut reader) {
                Ok(req) => {
                    let result = self.provider.uppercase(req.text);
                    let resp = StringServiceUppercaseResponse { result };
                    let mut out: Vec<u8> = Vec::new();
                    match resp.serialize(&mut out) {
                        Ok(()) => Some(out),
                        Err(_) => None,
                    }
                },
                Err(_) => None,
            }
        } else {
            None
        }
    }
}

impl<T: StringServiceProvider> RequestHandler for StringServiceServer<T> {
    fn service_id(&self) -> u16 {
        0x2001
    }

    fn major_version(&self) -> u8 {
        1
    }

    fn minor_version(&self) -> u32 {
        0
    }

    fn handle(&self, header: &SomeIpHeader, payload: &[u8]) -> Option<Vec<u8>> {
        self.respond(header, payload)
    }
}

/// The SortService service's operations, implemented by the application.
pub trait SortServiceProvider {
    fn sort_asc(&self, data: Vec<i32>) -> Vec<i32>;

    fn sort_desc(&self, data: Vec<i32>) -> Vec<i32>;
}

/// Dispatches SortService requests (service 0x3001) to a provider.
pub struct SortServiceServer<T: SortServiceProvider> {
    provider: Arc<T>,
}

impl<T: SortServiceProvider> SortServiceServer<T> {
    pub const SERVICE_ID: u16 = 0x3001;

    /// The provider requests are dispatched to.
    pub closed spec fn provider_of(&self) -> Arc<T> {
        self.provider
    }

    pub fn new(provider: Arc<T>) -> (r: SortServiceServer<T>)
        ensures
            r.provider_of() == provider,
    {
        SortServiceServer { provider }
    }

    /// Decodes the request of method 1 (`sort_asc`) or 2 (`sort_desc`), calls the
    /// provider and encodes its result; nothing for another service or
    /// method, or a payload that does not decode.
    pub fn respond(&self, header: &SomeIpHeader, payload: &[u8]) -> (r: Option<Vec<u8>>)
        ensures
            header.service_id != 0x3001 ==> r is None,
            header.method_id != 1 && header.method_id != 2 ==> r is None,
            header.service_id == 0x3001 && header.method_id == 1 ==> (r is Some ==> <SortServiceSortAscRequest as SomeIpDeserialize>::decode_spec(payload@) is Some),
            header.service_id == 0x3001 && header.method_id == 2 ==> (r is Some ==> <SortServiceSortDescRequest as SomeIpDeserialize>::decode_spec(payload@) is Some),
            r matches Some(v) ==> exists|t: Seq<i32>| v@ == #[trigger] <Vec<i32> as SomeIpSerialize>::wire_of(t),
    {
        if header.service_id != 0x3001 {
            return None;
        }
        let bytes = copy_range(payload, 0, payload.len());
        assert(bytes@ =~= payload@);
        let mut reader = WireReader::new(bytes);
        if header.method_id == 1 {
            match SortServiceSortAscRequest::deserialize(&mut reader) {
                Ok(req) => {
                    let result = self.provider.sort_asc(req.data);
                    let resp = SortServiceSortAscResponse { result };
                    let mut out: Vec<u8> = Vec::new();
                    match resp.serialize(&mut out) {
                        Ok(()) => Some(out),
                        Err(_) => None,
                    }
                },
                Err(_) => None,
            }
        } else if header.method_id == 2 {
            match SortServiceSortDescRequest::deserialize(&mut reader) {
                Ok(req) => {
                    let result = self.provider.sort_desc(req.data);
                    let resp = SortServiceSortDescResponse { result };
                    let mut out: Vec<u8> = Vec::new();
                    match resp.serialize(&mut out) {
                        Ok(()) => Some(out),
                        Err(_) => None,
                    }
                },
                Err(_) => None,
            }
        } else {
            None
        }
    }
}

impl<T: SortServiceProvider> RequestHandler for SortServiceServer<T> {
    fn service_id(&self) -> u16 {
        0x3001
    }

    fn major_version(&self) -> u8 {
        1
    }

    fn minor_version(&self) -> u32 {
        0
    }

    fn handle(&self, header: &SomeIpHeader, payload: &[u8]) -> Option<Vec<u8>> {
        self.respond(header, payload)
    }
}

} // verus!
