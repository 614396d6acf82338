//! Frames: the typed, channel-addressed, length-prefixed units of the wire,
//! each closed by the frame-end octet.

use vstd::prelude::*;
use vstd::slice::slice_subrange;
use crate::error::{frame_error, ConException, TransError};
use crate::field::FieldValue;
use crate::wire::{be16, be32, enc16, enc32, lemma_be16, lemma_be32, write_bytes, write_long, write_short};

verus! {

#[verifier::external_type_specification]
#[verifier::external_body]
pub struct ExBytes(bytes::Bytes);

/// The property-flag words of a content header, in a `SmallVec` that keeps
/// the usual single word inline.
#[verifier::external_body]
pub struct PropertyFlags {
    words: smallvec::SmallVec<[u16; 1]>,
}

/// The octets that a `Bytes` buffer holds.
pub uninterp spec fn bytes_content(b: bytes::Bytes) -> Seq<u8>;

/// The words that the property-flag vector of a content header holds.
pub uninterp spec fn flag_words(v: PropertyFlags) -> Seq<u16>;

/// Relies on `<Bytes as From<Vec<u8>>>::from`: the buffer holds the vector's octets.
#[verifier::external_body]
fn bytes_from_vec(v: Vec<u8>) -> (r: bytes::Bytes)
    ensures
        bytes_content(r) == v@,
{
    bytes::Bytes::from(v)
}

/// Relies on `<Bytes as AsRef<[u8]>>::as_ref`: the slice holds the buffer's octets.
#[verifier::external_body]
fn bytes_as_slice(b: &bytes::Bytes) -> (r: &[u8])
    ensures
        r@ == bytes_content(*b),
{
    b.as_ref()
}

/// Relies on `SmallVec::new`: the vector is empty.
#[verifier::external_body]
fn empty_flags() -> (r: PropertyFlags)
    ensures
        flag_words(r) == Seq::<u16>::empty(),
{
    PropertyFlags { words: smallvec::SmallVec::new() }
}

/// The octet that closes every frame.
pub const REQUIRED_FRAME_END: u8 = 0xCE;

pub const FRAME_TYPE_METHOD: u8 = 1;
pub const FRAME_TYPE_HEADER: u8 = 2;
pub const FRAME_TYPE_BODY: u8 = 3;
pub const FRAME_TYPE_HEARTBEAT: u8 = 8;

#[derive(Debug, PartialEq, Eq)]
pub struct Frame {
    /// The type of the frame.
    pub kind: FrameType,
    pub channel: u16,
    /// The whole payload, including the metadata of each type.
    pub payload: bytes::Bytes,
}

#[derive(Debug, Copy, Clone, PartialEq, Eq, Structural)]
pub enum FrameType {
    Method,
    Header,
    Body,
    Heartbeat,
}

/// A frame as values: its type, its channel and its payload octets.
pub struct FrameModel {
    pub kind: FrameType,
    pub channel: u16,
    pub payload: Seq<u8>,
}

impl View for Frame {
    type V = FrameModel;

    open spec fn view(&self) -> FrameModel {
        FrameModel { kind: self.kind, channel: self.channel, payload: bytes_content(self.payload) }
    }
}

/// The type octet of a frame type.
pub open spec fn frame_type_octet(k: FrameType) -> u8 {
    match k {
        FrameType::Method => FRAME_TYPE_METHOD,
        FrameType::Header => FRAME_TYPE_HEADER,
        FrameType::Body => FRAME_TYPE_BODY,
        FrameType::Heartbeat => FRAME_TYPE_HEARTBEAT,
    }
}

/// The frame type that a type octet names, on a channel; heartbeats belong to channel 0.
pub open spec fn frame_type_of(kind: u8, channel: u16) -> Result<FrameType, TransError> {
    if kind == FRAME_TYPE_METHOD {
        Ok(FrameType::Method)
    } else if kind == FRAME_TYPE_HEADER {
        Ok(FrameType::Header)
    } else if kind == FRAME_TYPE_BODY {
        Ok(FrameType::Body)
    } else if kind == FRAME_TYPE_HEARTBEAT && channel == 0 {
        Ok(FrameType::Heartbeat)
    } else {
        Err(frame_error())
    }
}

/// The octets of a frame: type, channel, payload size, payload, frame end.
pub open spec fn encode_frame(f: FrameModel) -> Seq<u8> {
    seq![frame_type_octet(f.kind)] + enc16(f.channel as int) + enc32(f.payload.len() as int)
        + f.payload + seq![REQUIRED_FRAME_END]
}

/// The payload size that a frame header (at least seven octets) announces.
pub open spec fn announced_size(input: Seq<u8>) -> int {
    be32(input.subrange(3, 7))
}

/// Whether `input` holds a whole frame: the header, the payload it announces and the frame end.
pub open spec fn holds_frame(input: Seq<u8>) -> bool {
    input.len() >= 7 && input.len() >= 8 + announced_size(input)
}

/// The frame at the front of `input`, under a negotiated maximum payload
/// size (0: no maximum).
pub open spec fn frame_read(input: Seq<u8>, max_frame_size: int) -> Result<FrameModel, TransError> {
    if !holds_frame(input) {
        Err(TransError::Other)
    } else {
        let size = announced_size(input);
        let channel = be16(input.subrange(1, 3)) as u16;
        if input[7 + size] != REQUIRED_FRAME_END {
            Err(frame_error())
        } else if max_frame_size != 0 && size > max_frame_size {
            Err(frame_error())
        } else {
            match frame_type_of(input[0], channel) {
                Ok(k) => Ok(FrameModel { kind: k, channel, payload: input.subrange(7, 7 + size) }),
                Err(e) => Err(e),
            }
        }
    }
}

/// A frame can be written and read back: heartbeats are on channel 0, and
/// the payload size fits in a `long`.
pub open spec fn frame_wf(f: FrameModel) -> bool {
    &&& f.payload.len() <= u32::MAX
    &&& (f.kind == FrameType::Heartbeat ==> f.channel == 0)
}

impl FrameType {
    /// The type octet of this frame type.
    pub fn octet(&self) -> (r: u8)
        ensures
            r == frame_type_octet(*self),
    {
        match self {
            FrameType::Method => FRAME_TYPE_METHOD,
            FrameType::Header => FRAME_TYPE_HEADER,
            FrameType::Body => FRAME_TYPE_BODY,
            FrameType::Heartbeat => FRAME_TYPE_HEARTBEAT,
        }
    }
}

/// Reads the type octet of a frame on `channel`.
pub fn parse_frame_type(kind: u8, channel: u16) -> (r: Result<FrameType, TransError>)
    ensures
        r == frame_type_of(kind, channel),
{
    if kind == FRAME_TYPE_METHOD {
        Ok(FrameType::Method)
    } else if kind == FRAME_TYPE_HEADER {
        Ok(FrameType::Header)
    } else if kind == FRAME_TYPE_BODY {
        Ok(FrameType::Body)
    } else if kind == FRAME_TYPE_HEARTBEAT {
        if channel != 0 {
            Err(ConException::FrameError.into_trans())
        } else {
            Ok(FrameType::Heartbeat)
        }
    } else {
        Err(ConException::FrameError.into_trans())
    }
}

/// The octets of `frame`; a payload too large for a `long` size is refused.
pub fn write_frame(frame: &Frame) -> (r: Result<Vec<u8>, TransError>)
    ensures
        r is Ok <==> bytes_content(frame.payload).len() <= u32::MAX,
        r matches Ok(b) ==> b@ == encode_frame(frame@),
        r matches Err(e) ==> e == TransError::Other,
{
    let payload = bytes_as_slice(&frame.payload);
    if payload.len() as u64 > u32::MAX as u64 {
        return Err(TransError::Other);
    }
    let mut out: Vec<u8> = Vec::new();
    out.push(frame.kind.octet());
    write_short(&mut out, frame.channel);
    write_long(&mut out, payload.len() as u32);
    write_bytes(&mut out, payload);
    out.push(REQUIRED_FRAME_END);
    assert(out@ =~= encode_frame(frame@));
    Ok(out)
}

/// Reads the frame at the front of `input`; octets after its frame end are
/// left alone. A payload over `max_frame_size` (where that is not 0), a
/// frame end other than `0xCE`, an unknown type and a heartbeat off channel 0
/// are frame errors; a short input is a transport error.
pub fn read_frame(input: &[u8], max_frame_size: usize) -> (r: Result<Frame, TransError>)
    ensures
        match frame_read(input@, max_frame_size as int) {
            Ok(m) => r matches Ok(f) && f@ == m,
            Err(e) => r matches Err(e2) && e2 == e,
        },
        holds_frame(input@) && input@[7 + announced_size(input@)] != REQUIRED_FRAME_END ==> r
            == Err::<Frame, TransError>(frame_error()),
        holds_frame(input@) && max_frame_size != 0 && announced_size(input@) > max_frame_size ==> r
            == Err::<Frame, TransError>(frame_error()),
        holds_frame(input@) && input@[0] == FRAME_TYPE_HEARTBEAT && be16(input@.subrange(1, 3))
            != 0 ==> r is Err && r == Err::<Frame, TransError>(frame_error()),
{
    if input.len() < 7 {
        return Err(TransError::Other);
    }
    let kind = input[0];
    let channel = (input[1] as u16) * 256 + (input[2] as u16);
    let size = (input[3] as u32) * 16777216 + (input[4] as u32) * 65536 + (input[5] as u32) * 256
        + (input[6] as u32);
    assert(size == announced_size(input@));
    if ((input.len() - 7) as u64) < (size as u64) + 1 {
        return Err(TransError::Other);
    }
    let n = size as usize;
    let frame_end = input[7 + n];
    if frame_end != REQUIRED_FRAME_END {
        return Err(ConException::FrameError.into_trans());
    }
    if max_frame_size != 0 && n > max_frame_size {
        return Err(ConException::FrameError.into_trans());
    }
    let kind = parse_frame_type(kind, channel)?;
    let payload = slice_subrange(input, 7, 7 + n);
    let mut v: Vec<u8> = Vec::new();
    write_bytes(&mut v, payload);
    assert(v@ =~= input@.subrange(7, 7 + n as int));
    Ok(Frame { kind, channel, payload: bytes_from_vec(v) })
}

/// Reading what `write_frame` wrote gives the frame back, whatever follows it,
/// where the payload is within the negotiated maximum.
pub proof fn lemma_frame_round_trip(f: FrameModel, rest: Seq<u8>, max_frame_size: int)
    requires
        frame_wf(f),
        max_frame_size == 0 || f.payload.len() <= max_frame_size,
    ensures
        frame_read(encode_frame(f) + rest, max_frame_size) == Ok::<FrameModel, TransError>(f),
{
    let s = encode_frame(f) + rest;
    let n = f.payload.len() as int;
    let tail = f.payload + seq![REQUIRED_FRAME_END] + rest;
    assert(s.skip(1) =~= enc16(f.channel as int) + (enc32(n) + tail));
    lemma_be16(f.channel as int, enc32(n) + tail);
    assert(s.subrange(1, 3) =~= (enc16(f.channel as int) + (enc32(n) + tail)).take(2));
    assert(s.skip(3) =~= enc32(n) + tail);
    lemma_be32(n, tail);
    assert(s.subrange(3, 7) =~= (enc32(n) + tail).take(4));
    assert(s.subrange(7, 7 + n) =~= f.payload);
    assert(s[7 + n] == REQUIRED_FRAME_END);
}

/// Content-header properties: which are present, and their values.
pub struct ContentHeader {
    pub class_id: u16,
    pub weight: u16,
    pub body_size: u64,
    pub property_flags: PropertyFlags,
    pub property_fields: Vec<FieldValue>,
}

impl ContentHeader {
    /// A header of class 0 for an empty body, with no properties.
    pub fn new() -> (r: Self)
        ensures
            r.class_id == 0 && r.weight == 0 && r.body_size == 0,
            flag_words(r.property_flags) == Seq::<u16>::empty(),
            r.property_fields@ == Seq::<FieldValue>::empty(),
    {
        ContentHeader {
            class_id: 0,
            weight: 0,
            body_size: 0,
            property_flags: empty_flags(),
            property_fields: Vec::new(),
        }
    }
}

} // verus!
