//! The payload codec: primitives in network byte order, `bool` as one byte,
//! strings as a u32 byte-length prefix plus UTF-8, and sequences of `i32` as
//! a u32 byte-length prefix plus the concatenated element encodings.

use vstd::prelude::*;
use vstd::utf8::{decode_utf8, encode_utf8, valid_utf8, encode_utf8_valid_utf8, encode_utf8_decode_utf8};
use crate::codec::header::ReturnCode;
use crate::codec::wire::{
    be16, be32, be64, read16, read32, read64, put_u16, put_u32, put_u64, put_bytes, get_u16,
    get_u32, get_u64, copy_range, lemma_be16_round_trip, lemma_be32_round_trip,
    lemma_be64_round_trip,
};

verus! {

/// A read position over an owned byte buffer.
pub struct WireReader {
    pub bytes: Vec<u8>,
    pub pos: usize,
}

impl WireReader {
    /// The bytes not read yet.
    pub open spec fn rest(&self) -> Seq<u8> {
        if self.pos <= self.bytes@.len() {
            self.bytes@.subrange(self.pos as int, self.bytes@.len() as int)
        } else {
            Seq::empty()
        }
    }

    pub fn new(bytes: Vec<u8>) -> (r: WireReader)
        ensures
            r.bytes@ == bytes@,
            r.pos == 0,
            r.rest() == bytes@,
    {
        let r = WireReader { bytes, pos: 0 };
        assert(r.rest() =~= r.bytes@);
        r
    }

    /// How many bytes are left to read.
    pub fn remaining(&self) -> (r: usize)
        ensures
            r == self.rest().len(),
    {
        if self.pos <= self.bytes.len() {
            self.bytes.len() - self.pos
        } else {
            0
        }
    }

    /// Takes the next `n` bytes, or nothing if fewer are left.
    pub fn read_bytes(&mut self, n: usize) -> (r: Option<Vec<u8>>)
        ensures
            final(self).bytes@ == old(self).bytes@,
            n <= old(self).rest().len() ==> (r matches Some(v) && v@ == old(self).rest().subrange(
                0,
                n as int,
            ) && final(self).pos == old(self).pos + n),
            n > old(self).rest().len() ==> r is None && *final(self) == *old(self),
    {
        if n > self.remaining() {
            return None;
        }
        if self.pos > self.bytes.len() {
            let empty: Vec<u8> = Vec::new();
            assert(empty@ =~= old(self).rest().subrange(0, n as int));
            return Some(empty);
        }
        let v = copy_range(self.bytes.as_slice(), self.pos, self.pos + n);
        self.pos = self.pos + n;
        assert(v@ =~= old(self).rest().subrange(0, n as int));
        Some(v)
    }
}

/// Types with a SOME/IP wire encoding, stated over their view.
pub trait SomeIpSerialize: DeepView {
    /// The encoding of a value.
    spec fn wire_of(v: Self::V) -> Seq<u8>;

    /// Whether the value fits its length prefix, if it has one.
    spec fn encodable(v: Self::V) -> bool;

    /// Appends the encoding; fails, writing nothing, when the value does not
    /// fit its length prefix.
    fn serialize(&self, out: &mut Vec<u8>) -> (r: Result<(), ReturnCode>)
        ensures
            r is Ok <==> Self::encodable(self.deep_view()),
            r is Ok ==> final(out)@ == old(out)@ + Self::wire_of(self.deep_view()),
            r is Err ==> final(out)@ == old(out)@,
    ;
}

/// Types that can be read back from their SOME/IP wire encoding.
pub trait SomeIpDeserialize: Sized + DeepView {
    /// The value at the front of `s` and the number of bytes it takes, if
    /// `s` starts with a well-formed encoding.
    spec fn decode_spec(s: Seq<u8>) -> Option<(Self::V, nat)>;

    /// Reads one value; fails with `MalformedMessage` when the bytes left do
    /// not start with a well-formed encoding.
    fn deserialize(reader: &mut WireReader) -> (r: Result<Self, ReturnCode>)
        ensures
            final(reader).bytes@ == old(reader).bytes@,
            Self::decode_spec(old(reader).rest()) is None ==> r == Err::<Self, ReturnCode>(
                ReturnCode::MalformedMessage,
            ),
            Self::decode_spec(old(reader).rest()) matches Some((v, n)) ==> (r matches Ok(x) && x.deep_view()
                == v && final(reader).pos == old(reader).pos + n),
    ;
}

/// Encoding and then decoding gives the value back, whatever follows it.
pub trait SomeIpCodec: SomeIpSerialize + SomeIpDeserialize {
    proof fn lemma_round_trip(v: <Self as DeepView>::V, tail: Seq<u8>)
        requires
            <Self as SomeIpSerialize>::encodable(v),
        ensures
            <Self as SomeIpDeserialize>::decode_spec(<Self as SomeIpSerialize>::wire_of(v) + tail)
                == Some((v, <Self as SomeIpSerialize>::wire_of(v).len())),
    ;

    /// A successful decode consumes at least one byte and no more than
    /// it was given.
    proof fn lemma_decode_consumes(s: Seq<u8>)
        ensures
            <Self as SomeIpDeserialize>::decode_spec(s) matches Some((v, n)) ==> 1 <= n <= s.len(),
    ;
}

/// For every codec-recognised type, `decode(encode(v) ++ tail)` yields `v`
/// and consumes exactly the encoding.
pub proof fn lemma_codec_round_trip<T: SomeIpCodec>(v: <T as DeepView>::V, tail: Seq<u8>)
    requires
        <T as SomeIpSerialize>::encodable(v),
    ensures
        <T as SomeIpDeserialize>::decode_spec(<T as SomeIpSerialize>::wire_of(v) + tail) == Some(
            (v, <T as SomeIpSerialize>::wire_of(v).len()),
        ),
{
    T::lemma_round_trip(v, tail);
}

/// The encoding of a `u16` is exactly its two bytes, most significant first.
pub proof fn lemma_u16_wire_is_big_endian(x: u16)
    ensures
        <u16 as SomeIpSerialize>::wire_of(x).len() == 2,
        <u16 as SomeIpSerialize>::wire_of(x)[0] as int * 256 + <u16 as SomeIpSerialize>::wire_of(
            x,
        )[1] as int == x as int,
{
    lemma_be16_round_trip(x);
}

impl SomeIpSerialize for u8 {
    open spec fn wire_of(v: u8) -> Seq<u8> {
        seq![v]
    }

    open spec fn encodable(v: u8) -> bool {
        true
    }

    fn serialize(&self, out: &mut Vec<u8>) -> (r: Result<(), ReturnCode>) {
        out.push(*self);
        assert(out@ =~= old(out)@ + seq![*self]);
        Ok(())
    }
}

impl SomeIpDeserialize for u8 {
    open spec fn decode_spec(s: Seq<u8>) -> Option<(u8, nat)> {
        if s.len() >= 1 {
            Some((s[0], 1))
        } else {
            None
        }
    }

    fn deserialize(reader: &mut WireReader) -> (r: Result<u8, ReturnCode>) {
        match reader.read_bytes(1) {
            Some(b) => Ok(b[0]),
            None => Err(ReturnCode::MalformedMessage),
        }
    }
}

impl SomeIpCodec for u8 {
    proof fn lemma_round_trip(v: u8, tail: Seq<u8>) {
    }

    proof fn lemma_decode_consumes(s: Seq<u8>) {
    }
}

impl SomeIpSerialize for i8 {
    open spec fn wire_of(v: i8) -> Seq<u8> {
        seq![v as u8]
    }

    open spec fn encodable(v: i8) -> bool {
        true
    }

    fn serialize(&self, out: &mut Vec<u8>) -> (r: Result<(), ReturnCode>) {
        out.push(*self as u8);
        assert(out@ =~= old(out)@ + seq![*self as u8]);
        Ok(())
    }
}

impl SomeIpDeserialize for i8 {
    open spec fn decode_spec(s: Seq<u8>) -> Option<(i8, nat)> {
        if s.len() >= 1 {
            Some((s[0] as i8, 1))
        } else {
            None
        }
    }

    fn deserialize(reader: &mut WireReader) -> (r: Result<i8, ReturnCode>) {
        match reader.read_bytes(1) {
            Some(b) => Ok(b[0] as i8),
            None => Err(ReturnCode::MalformedMessage),
        }
    }
}

impl SomeIpCodec for i8 {
    proof fn lemma_round_trip(v: i8, tail: Seq<u8>) {
        assert((v as u8) as i8 == v) by (bit_vector);
    }

    proof fn lemma_decode_consumes(s: Seq<u8>) {
    }
}

impl SomeIpSerialize for bool {
    open spec fn wire_of(v: bool) -> Seq<u8> {
        seq![if v { 1u8 } else { 0u8 }]
    }

    open spec fn encodable(v: bool) -> bool {
        true
    }

    fn serialize(&self, out: &mut Vec<u8>) -> (r: Result<(), ReturnCode>) {
        let b: u8 = if *self { 1 } else { 0 };
        out.push(b);
        assert(out@ =~= old(out)@ + seq![b]);
        Ok(())
    }
}

impl SomeIpDeserialize for bool {
    /// Any non-zero byte reads as `true`.
    open spec fn decode_spec(s: Seq<u8>) -> Option<(bool, nat)> {
        if s.len() >= 1 {
            Some((s[0] != 0, 1))
        } else {
            None
        }
    }

    fn deserialize(reader: &mut WireReader) -> (r: Result<bool, ReturnCode>) {
        match reader.read_bytes(1) {
            Some(b) => Ok(b[0] != 0),
            None => Err(ReturnCode::MalformedMessage),
        }
    }
}

impl SomeIpCodec for bool {
    proof fn lemma_round_trip(v: bool, tail: Seq<u8>) {
    }

    proof fn lemma_decode_consumes(s: Seq<u8>) {
    }
}

impl SomeIpSerialize for u16 {
    open spec fn wire_of(v: u16) -> Seq<u8> {
        be16(v)
    }

    open spec fn encodable(v: u16) -> bool {
        true
    }

    fn serialize(&self, out: &mut Vec<u8>) -> (r: Result<(), ReturnCode>) {
        put_u16(out, *self);
        Ok(())
    }
}

impl SomeIpDeserialize for u16 {
    open spec fn decode_spec(s: Seq<u8>) -> Option<(u16, nat)> {
        if s.len() >= 2 {
            Some((read16(s, 0), 2))
        } else {
            None
        }
    }

    fn deserialize(reader: &mut WireReader) -> (r: Result<u16, ReturnCode>) {
        match reader.read_bytes(2) {
            Some(b) => Ok(get_u16(b.as_slice(), 0)),
            None => Err(ReturnCode::MalformedMessage),
        }
    }
}

impl SomeIpCodec for u16 {
    proof fn lemma_round_trip(v: u16, tail: Seq<u8>) {
        lemma_be16_round_trip(v);
    }

    proof fn lemma_decode_consumes(s: Seq<u8>) {
    }
}

impl SomeIpSerialize for i16 {
    open spec fn wire_of(v: i16) -> Seq<u8> {
        be16(v as u16)
    }

    open spec fn encodable(v: i16) -> bool {
        true
    }

    fn serialize(&self, out: &mut Vec<u8>) -> (r: Result<(), ReturnCode>) {
        put_u16(out, *self as u16);
        Ok(())
    }
}

impl SomeIpDeserialize for i16 {
    open spec fn decode_spec(s: Seq<u8>) -> Option<(i16, nat)> {
        if s.len() >= 2 {
            Some((read16(s, 0) as i16, 2))
        } else {
            None
        }
    }

    fn deserialize(reader: &mut WireReader) -> (r: Result<i16, ReturnCode>) {
        match reader.read_bytes(2) {
            Some(b) => Ok(get_u16(b.as_slice(), 0) as i16),
            None => Err(ReturnCode::MalformedMessage),
        }
    }
}

impl SomeIpCodec for i16 {
    proof fn lemma_round_trip(v: i16, tail: Seq<u8>) {
        lemma_be16_round_trip(v as u16);
        assert((v as u16) as i16 == v) by (bit_vector);
    }

    proof fn lemma_decode_consumes(s: Seq<u8>) {
    }
}

impl SomeIpSerialize for u32 {
    open spec fn wire_of(v: u32) -> Seq<u8> {
        be32(v)
    }

    open spec fn encodable(v: u32) -> bool {
        true
    }

    fn serialize(&self, out: &mut Vec<u8>) -> (r: Result<(), ReturnCode>) {
        put_u32(out, *self);
        Ok(())
    }
}

impl SomeIpDeserialize for u32 {
    open spec fn decode_spec(s: Seq<u8>) -> Option<(u32, nat)> {
        if s.len() >= 4 {
            Some((read32(s, 0), 4))
        } else {
            None
        }
    }

    fn deserialize(reader: &mut WireReader) -> (r: Result<u32, ReturnCode>) {
        match reader.read_bytes(4) {
            Some(b) => Ok(get_u32(b.as_slice(), 0)),
            None => Err(ReturnCode::MalformedMessage),
        }
    }
}

impl SomeIpCodec for u32 {
    proof fn lemma_round_trip(v: u32, tail: Seq<u8>) {
        lemma_be32_round_trip(v);
    }

    proof fn lemma_decode_consumes(s: Seq<u8>) {
    }
}

impl SomeIpSerialize for i32 {
    open spec fn wire_of(v: i32) -> Seq<u8> {
        be32(v as u32)
    }

    open spec fn encodable(v: i32) -> bool {
        true
    }

    fn serialize(&self, out: &mut Vec<u8>) -> (r: Result<(), ReturnCode>) {
        put_u32(out, *self as u32);
        Ok(())
    }
}

impl SomeIpDeserialize for i32 {
    open spec fn decode_spec(s: Seq<u8>) -> Option<(i32, nat)> {
        if s.len() >= 4 {
            Some((read32(s, 0) as i32, 4))
        } else {
            None
        }
    }

    fn deserialize(reader: &mut WireReader) -> (r: Result<i32, ReturnCode>) {
        match reader.read_bytes(4) {
            Some(b) => Ok(get_u32(b.as_slice(), 0) as i32),
            None => Err(ReturnCode::MalformedMessage),
        }
    }
}

impl SomeIpCodec for i32 {
    proof fn lemma_round_trip(v: i32, tail: Seq<u8>) {
        lemma_be32_round_trip(v as u32);
        assert((v as u32) as i32 == v) by (bit_vector);
    }

    proof fn lemma_decode_consumes(s: Seq<u8>) {
    }
}

impl SomeIpSerialize for u64 {
    open spec fn wire_of(v: u64) -> Seq<u8> {
        be64(v)
    }

    open spec fn encodable(v: u64) -> bool {
        true
    }

    fn serialize(&self, out: &mut Vec<u8>) -> (r: Result<(), ReturnCode>) {
        put_u64(out, *self);
        Ok(())
    }
}

impl SomeIpDeserialize for u64 {
    open spec fn decode_spec(s: Seq<u8>) -> Option<(u64, nat)> {
        if s.len() >= 8 {
            Some((read64(s, 0), 8))
        } else {
            None
        }
    }

    fn deserialize(reader: &mut WireReader) -> (r: Result<u64, ReturnCode>) {
        match reader.read_bytes(8) {
            Some(b) => Ok(get_u64(b.as_slice(), 0)),
            None => Err(ReturnCode::MalformedMessage),
        }
    }
}

impl SomeIpCodec for u64 {
    proof fn lemma_round_trip(v: u64, tail: Seq<u8>) {
        lemma_be64_round_trip(v);
        let s = be64(v) + tail;
        assert(read64(s, 0) == read64(be64(v), 0));
    }

    proof fn lemma_decode_consumes(s: Seq<u8>) {
    }
}

impl SomeIpSerialize for i64 {
    open spec fn wire_of(v: i64) -> Seq<u8> {
        be64(v as u64)
    }

    open spec fn encodable(v: i64) -> bool {
        true
    }

    fn serialize(&self, out: &mut Vec<u8>) -> (r: Result<(), ReturnCode>) {
        put_u64(out, *self as u64);
        Ok(())
    }
}

impl SomeIpDeserialize for i64 {
    open spec fn decode_spec(s: Seq<u8>) -> Option<(i64, nat)> {
        if s.len() >= 8 {
            Some((read64(s, 0) as i64, 8))
        } else {
            None
        }
    }

    fn deserialize(reader: &mut WireReader) -> (r: Result<i64, ReturnCode>) {
        match reader.read_bytes(8) {
            Some(b) => Ok(get_u64(b.as_slice(), 0) as i64),
            None => Err(ReturnCode::MalformedMessage),
        }
    }
}

impl SomeIpCodec for i64 {
    proof fn lemma_round_trip(v: i64, tail: Seq<u8>) {
        lemma_be64_round_trip(v as u64);
        let s = be64(v as u64) + tail;
        assert(read64(s, 0) == read64(be64(v as u64), 0));
        assert((v as u64) as i64 == v) by (bit_vector);
    }

    proof fn lemma_decode_consumes(s: Seq<u8>) {
    }
}

/// Relies on `String::from_utf8`: it succeeds exactly on valid UTF-8 and the
/// string then holds the decoded characters.
#[verifier::external_body]
fn string_from_utf8(bytes: Vec<u8>) -> (r: Option<String>)
    ensures
        r is Some <==> valid_utf8(bytes@),
        r matches Some(s) ==> s@ == decode_utf8(bytes@),
{
    String::from_utf8(bytes).ok()
}

impl SomeIpSerialize for String {
    open spec fn wire_of(v: Seq<char>) -> Seq<u8> {
        be32(encode_utf8(v).len() as u32) + encode_utf8(v)
    }

    open spec fn encodable(v: Seq<char>) -> bool {
        encode_utf8(v).len() <= u32::MAX
    }

    fn serialize(&self, out: &mut Vec<u8>) -> (r: Result<(), ReturnCode>) {
        let bytes = self.as_str().as_bytes();
        if bytes.len() as u64 > 0xffff_ffffu64 {
            return Err(ReturnCode::MalformedMessage);
        }
        put_u32(out, bytes.len() as u32);
        put_bytes(out, bytes);
        assert(out@ =~= old(out)@ + Self::wire_of(self.deep_view()));
        Ok(())
    }
}

impl SomeIpDeserialize for String {
    open spec fn decode_spec(s: Seq<u8>) -> Option<(Seq<char>, nat)> {
        if s.len() >= 4 && s.len() >= 4 + read32(s, 0) && valid_utf8(
            s.subrange(4, 4 + read32(s, 0)),
        ) {
            Some((decode_utf8(s.subrange(4, 4 + read32(s, 0))), (4 + read32(s, 0)) as nat))
        } else {
            None
        }
    }

    fn deserialize(reader: &mut WireReader) -> (r: Result<String, ReturnCode>) {
        let ghost rest0 = reader.rest();
        let len = match reader.read_bytes(4) {
            Some(b) => get_u32(b.as_slice(), 0),
            None => return Err(ReturnCode::MalformedMessage),
        };
        assert(reader.rest() =~= rest0.subrange(4, rest0.len() as int));
        match reader.read_bytes(len as usize) {
            Some(bytes) => {
                assert(bytes@ =~= rest0.subrange(4, 4 + len));
                match string_from_utf8(bytes) {
                    Some(s) => Ok(s),
                    None => Err(ReturnCode::MalformedMessage),
                }
            },
            None => Err(ReturnCode::MalformedMessage),
        }
    }
}

impl SomeIpCodec for String {
    proof fn lemma_round_trip(v: Seq<char>, tail: Seq<u8>) {
        let enc = encode_utf8(v);
        let len = enc.len() as u32;
        let s = be32(len) + enc + tail;
        lemma_be32_round_trip(len);
        assert(read32(s, 0) == read32(be32(len), 0));
        assert(s.subrange(4, 4 + len) =~= enc);
        encode_utf8_valid_utf8(v);
        encode_utf8_decode_utf8(v);
        assert(Self::wire_of(v) + tail =~= s);
    }

    proof fn lemma_decode_consumes(s: Seq<u8>) {
    }
}

/// The concatenated encodings of a run of elements, first element first.
pub open spec fn elems_wire<T: SomeIpSerialize>(xs: Seq<<T as DeepView>::V>) -> Seq<u8>
    decreases xs.len(),
{
    if xs.len() == 0 {
        Seq::empty()
    } else {
        <T as SomeIpSerialize>::wire_of(xs[0]) + elems_wire::<T>(xs.drop_first())
    }
}

/// Appending an element appends its encoding.
pub proof fn lemma_elems_wire_push<T: SomeIpSerialize>(xs: Seq<<T as DeepView>::V>, x: <T as DeepView>::V)
    ensures
        elems_wire::<T>(xs.push(x)) == elems_wire::<T>(xs) + <T as SomeIpSerialize>::wire_of(x),
    decreases xs.len(),
{
    if xs.len() == 0 {
        assert(xs.push(x).drop_first() =~= Seq::<<T as DeepView>::V>::empty());
        assert(elems_wire::<T>(xs.push(x).drop_first()) == Seq::<u8>::empty());
        assert(elems_wire::<T>(xs.push(x)) =~= elems_wire::<T>(xs) + <T as SomeIpSerialize>::wire_of(x));
    } else {
        lemma_elems_wire_push::<T>(xs.drop_first(), x);
        assert(xs.push(x).drop_first() =~= xs.drop_first().push(x));
        assert(elems_wire::<T>(xs.push(x)) =~= elems_wire::<T>(xs) + <T as SomeIpSerialize>::wire_of(x));
    }
}

/// The elements read from `r[pos..]` until it is used up, if every one is
/// well formed and consumes at least a byte.
pub open spec fn decode_from<T: SomeIpDeserialize>(r: Seq<u8>, pos: int) -> Option<Seq<<T as DeepView>::V>>
    decreases r.len() - pos,
{
    if pos < 0 || pos > r.len() {
        None
    } else if pos == r.len() {
        Some(Seq::empty())
    } else {
        match <T as SomeIpDeserialize>::decode_spec(r.subrange(pos, r.len() as int)) {
            Some((x, n)) => if 1 <= n && pos + n <= r.len() {
                match decode_from::<T>(r, pos + n) {
                    Some(ys) => Some(seq![x] + ys),
                    None => None,
                }
            } else {
                None
            },
            None => None,
        }
    }
}

proof fn lemma_decode_elems<T: SomeIpCodec>(xs: Seq<<T as DeepView>::V>, r: Seq<u8>, pos: int)
    requires
        0 <= pos <= r.len(),
        r.subrange(pos, r.len() as int) == elems_wire::<T>(xs),
        forall|i: int| 0 <= i < xs.len() ==> <T as SomeIpSerialize>::encodable(#[trigger] xs[i]),
    ensures
        decode_from::<T>(r, pos) == Some(xs),
    decreases xs.len(),
{
    if xs.len() == 0 {
        assert(r.subrange(pos, r.len() as int).len() == 0);
    } else {
        let x = xs[0];
        let rest = xs.drop_first();
        let w = <T as SomeIpSerialize>::wire_of(x);
        let tail = elems_wire::<T>(rest);
        T::lemma_round_trip(x, tail);
        T::lemma_decode_consumes(w + tail);
        assert(r.subrange(pos, r.len() as int) == w + tail);
        let n = w.len() as int;
        assert forall|k: int| 0 <= k < tail.len() implies #[trigger] r.subrange(pos + n, r.len() as int)[k] == tail[k] by {
            assert(r.subrange(pos, r.len() as int)[n + k] == r[pos + n + k]);
            assert((w + tail)[n + k] == tail[k]);
        }
        assert(r.subrange(pos + n, r.len() as int) =~= tail);
        assert forall|i: int| 0 <= i < rest.len() implies <T as SomeIpSerialize>::encodable(#[trigger] rest[i]) by {
            assert(rest[i] == xs[i + 1]);
        }
        lemma_decode_elems::<T>(rest, r, pos + n);
        assert(seq![x] + rest =~= xs);
    }
}

impl<T: SomeIpCodec> SomeIpSerialize for Vec<T> {
    /// The byte length of the elements' encodings, then those encodings.
    open spec fn wire_of(v: Seq<<T as DeepView>::V>) -> Seq<u8> {
        be32(elems_wire::<T>(v).len() as u32) + elems_wire::<T>(v)
    }

    open spec fn encodable(v: Seq<<T as DeepView>::V>) -> bool {
        &&& forall|i: int| 0 <= i < v.len() ==> <T as SomeIpSerialize>::encodable(#[trigger] v[i])
        &&& elems_wire::<T>(v).len() <= u32::MAX
    }

    fn serialize(&self, out: &mut Vec<u8>) -> (r: Result<(), ReturnCode>) {
        let ghost dv = self.deep_view();
        let mut body: Vec<u8> = Vec::new();
        let mut i: usize = 0;
        while i < self.len()
            invariant
                0 <= i <= self@.len(),
                dv == self.deep_view(),
                dv.len() == self@.len(),
                body@ == elems_wire::<T>(dv.subrange(0, i as int)),
                forall|k: int| 0 <= k < i ==> <T as SomeIpSerialize>::encodable(#[trigger] dv[k]),
            decreases self@.len() - i,
        {
            assert(self@[i as int].deep_view() == dv[i as int]);
            match self[i].serialize(&mut body) {
                Ok(()) => {},
                Err(e) => {
                    return Err(e);
                },
            }
            proof {
                lemma_elems_wire_push::<T>(dv.subrange(0, i as int), dv[i as int]);
                assert(dv.subrange(0, i as int).push(dv[i as int]) =~= dv.subrange(0, i as int + 1));
            }
            i = i + 1;
        }
        assert(dv.subrange(0, i as int) =~= dv);
        if body.len() > 0xffff_ffffusize {
            return Err(ReturnCode::MalformedMessage);
        }
        put_u32(out, body.len() as u32);
        put_bytes(out, body.as_slice());
        assert(out@ =~= old(out)@ + Self::wire_of(dv));
        Ok(())
    }
}

impl<T: SomeIpCodec> SomeIpDeserialize for Vec<T> {
    /// A byte length, then elements read one after another until exactly
    /// that many bytes are used.
    open spec fn decode_spec(s: Seq<u8>) -> Option<(Seq<<T as DeepView>::V>, nat)> {
        if s.len() >= 4 && s.len() >= 4 + read32(s, 0) {
            match decode_from::<T>(s.subrange(4, 4 + read32(s, 0)), 0) {
                Some(xs) => Some((xs, (4 + read32(s, 0)) as nat)),
                None => None,
            }
        } else {
            None
        }
    }

    fn deserialize(reader: &mut WireReader) -> (r: Result<Vec<T>, ReturnCode>) {
        let ghost rest0 = reader.rest();
        let len = match reader.read_bytes(4) {
            Some(b) => get_u32(b.as_slice(), 0),
            None => return Err(ReturnCode::MalformedMessage),
        };
        assert(reader.rest() =~= rest0.subrange(4, rest0.len() as int));
        let region = match reader.read_bytes(len as usize) {
            Some(b) => b,
            None => return Err(ReturnCode::MalformedMessage),
        };
        let ghost rg = rest0.subrange(4, 4 + len);
        assert(region@ =~= rg);
        let mut sub = WireReader::new(region);
        let mut v: Vec<T> = Vec::new();
        while sub.remaining() > 0
            invariant
                reader.bytes@ == old(reader).bytes@,
                rest0 == old(reader).rest(),
                len == read32(rest0, 0),
                rest0.len() >= 4 + len,
                reader.pos == old(reader).pos + 4 + len,
                rg == rest0.subrange(4, 4 + len),
                sub.bytes@ == rg,
                sub.pos <= rg.len(),
                sub.rest() == rg.subrange(sub.pos as int, rg.len() as int),
                decode_from::<T>(rg, 0) == match decode_from::<T>(rg, sub.pos as int) {
                    Some(ys) => Some(v.deep_view() + ys),
                    None => None::<Seq<<T as DeepView>::V>>,
                },
            decreases rg.len() - sub.pos,
        {
            let ghost pos = sub.pos as int;
            let ghost rest = sub.rest();
            let ghost before = v.deep_view();
            proof {
                T::lemma_decode_consumes(rest);
            }
            let x = match T::deserialize(&mut sub) {
                Ok(x) => x,
                Err(_) => return Err(ReturnCode::MalformedMessage),
            };
            proof {
                assert(sub.rest() =~= rg.subrange(sub.pos as int, rg.len() as int));
            }
            v.push(x);
            proof {
                assert(v.deep_view() =~= before + seq![x.deep_view()]);
                match decode_from::<T>(rg, sub.pos as int) {
                    Some(ys) => {
                        assert(before + (seq![x.deep_view()] + ys) =~= v.deep_view() + ys);
                    },
                    None => {},
                }
            }
        }
        assert(v.deep_view() + Seq::<<T as DeepView>::V>::empty() =~= v.deep_view());
        Ok(v)
    }
}

impl<T: SomeIpCodec> SomeIpCodec for Vec<T> {
    proof fn lemma_round_trip(v: Seq<<T as DeepView>::V>, tail: Seq<u8>) {
        let b = elems_wire::<T>(v);
        let len = b.len() as u32;
        let s = be32(len) + b + tail;
        lemma_be32_round_trip(len);
        assert(read32(s, 0) == read32(be32(len), 0));
        assert(Self::wire_of(v) + tail =~= s);
        assert(s.subrange(4, 4 + len) =~= b);
        assert(b.subrange(0, b.len() as int) =~= b);
        lemma_decode_elems::<T>(v, b, 0);
    }

    proof fn lemma_decode_consumes(s: Seq<u8>) {
    }
}

} // verus!
