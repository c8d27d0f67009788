//! Integrity codec.

use crate::buf::{
    be_bytes, be_value, bytes_as_slice, content, get_u16, get_u32, mut_as_slice, mut_content, put_u16, put_u32,
};
use crate::buf::{law_be_roundtrip, lemma_be_bytes_len, lemma_byte_ranges};
use crate::error::ErrorKind;
use bytes::{Bytes, BytesMut};
use crc::{Crc, CRC_32_BZIP2};
use vstd::prelude::*;

verus! {

/// The CRC-32/BZIP2 checksum of data.
pub uninterp spec fn crc32_bzip2(data: Seq<u8>) -> u32;

/// `Crc::checksum` of the CRC-32/BZIP2 algorithm is a function of the data alone.
#[verifier::external_body]
fn checksum(data: &[u8]) -> (r: u32)
    ensures
        r == crc32_bzip2(data@),
{
    Crc::<u32>::new(&CRC_32_BZIP2).checksum(data)
}

/// A packet decoding error.
#[derive(Debug, Clone, Copy, PartialEq, Eq, Structural)]
#[non_exhaustive]
pub enum IntegrityError {
    /// A packet exceeds the maximum allowed size.
    PacketTooBig,
    /// A sequence number was skipped or corrupted.
    SeqSkipped,
    /// Data checksum verification failed.
    DataCorrupted,
}

impl IntegrityError {
    /// Text describing this error.
    pub fn text(&self) -> (r: String)
        ensures
            r@ == match *self {
                IntegrityError::PacketTooBig => "packet too big"@,
                IntegrityError::SeqSkipped => "sequence number skipped"@,
                IntegrityError::DataCorrupted => "data corrupted"@,
            },
    {
        match self {
            IntegrityError::PacketTooBig => "packet too big".to_string(),
            IntegrityError::SeqSkipped => "sequence number skipped".to_string(),
            IntegrityError::DataCorrupted => "data corrupted".to_string(),
        }
    }

    /// Category as an IO error, if the error occurred while receiving a packet.
    pub fn decode_kind(&self) -> (r: ErrorKind)
        ensures
            r == ErrorKind::InvalidData,
    {
        ErrorKind::InvalidData
    }

    /// Category as an IO error, if the error occurred while sending a packet.
    pub fn encode_kind(&self) -> (r: ErrorKind)
        ensures
            r == ErrorKind::InvalidInput,
    {
        ErrorKind::InvalidInput
    }
}

/// Header of a packet whose data is being received.
#[derive(Debug, Clone, Copy, PartialEq, Eq, Structural)]
pub struct Header {
    /// Length of data.
    pub length: u32,
    /// Checksum of data.
    pub checksum: u32,
}

/// What is read next.
#[derive(Debug, Clone, Copy, PartialEq, Eq, Structural)]
pub enum DecodeState {
    /// The header of a packet.
    Header,
    /// The data of a packet.
    Data(Header),
}

/// A codec for frames delimited by a header specifying their lengths, sequence number and checksums.
///
/// The data integrity is verified using the CRC32 checksum.
#[derive(Debug, Clone, Copy)]
pub struct IntegrityCodec {
    /// Maximum frame length.
    pub max_frame_len: u32,
    /// Read state
    pub state: DecodeState,
    /// Next sequence number for decoding
    pub decode_seq: u16,
    /// Next sequence number for encoding
    pub encode_seq: u16,
}

/// Length of the header of a frame.
pub const HEAD_LEN: usize = 10;

/// The sequence number that follows `seq`.
pub open spec fn next_seq(seq: u16) -> u16 {
    ((seq + 1) % 0x1_0000) as u16
}

/// The frame that carries `data`.
pub open spec fn frame(seq: u16, data: Seq<u8>) -> Seq<u8> {
    be_bytes(data.len(), 4) + be_bytes(seq as nat, 2) + be_bytes(crc32_bzip2(data) as nat, 4) + data
}

/// The frames that carry `packets`, one after the other.
pub open spec fn frames(seq: u16, packets: Seq<Seq<u8>>) -> Seq<u8>
    decreases packets.len(),
{
    if packets.len() == 0 {
        Seq::empty()
    } else {
        frame(seq, packets[0]) + frames(next_seq(seq), packets.drop_first())
    }
}

/// Outcome of decoding.
pub struct Decoded {
    /// Codec after decoding.
    pub codec: IntegrityCodec,
    /// Bytes that have not been read.
    pub rest: Seq<u8>,
    /// The decoded packet; `None` if more bytes are required to decode it.
    pub packet: Result<Option<Seq<u8>>, IntegrityError>,
}

impl IntegrityCodec {
    /// Outcome of decoding the header of a packet.
    ///
    /// The header specifies the length of the packet, followed by its sequence number and its checksum.
    pub open spec fn header_step(self, src: Seq<u8>) -> (IntegrityCodec, Seq<u8>, Result<
        Option<Header>,
        IntegrityError,
    >) {
        if src.len() < HEAD_LEN {
            (self, src, Ok(None))
        } else if be_value(src.take(4)) > self.max_frame_len {
            (self, src.skip(4), Err(IntegrityError::PacketTooBig))
        } else if be_value(src.subrange(4, 6)) != self.decode_seq {
            (self, src.skip(6), Err(IntegrityError::SeqSkipped))
        } else {
            (
                IntegrityCodec { decode_seq: next_seq(self.decode_seq), ..self },
                src.skip(10),
                Ok(
                    Some(
                        Header {
                            length: be_value(src.take(4)) as u32,
                            checksum: be_value(src.subrange(6, 10)) as u32,
                        },
                    ),
                ),
            )
        }
    }

    /// Outcome of decoding the data of a packet.
    pub open spec fn data_step(self, header: Header, src: Seq<u8>) -> Decoded {
        if src.len() < header.length {
            Decoded { codec: self, rest: src, packet: Ok(None) }
        } else if crc32_bzip2(src.take(header.length as int)) != header.checksum {
            Decoded {
                codec: self,
                rest: src.skip(header.length as int),
                packet: Err(IntegrityError::DataCorrupted),
            }
        } else {
            Decoded {
                codec: IntegrityCodec { state: DecodeState::Header, ..self },
                rest: src.skip(header.length as int),
                packet: Ok(Some(src.take(header.length as int))),
            }
        }
    }

    /// Outcome of decoding.
    pub open spec fn decode_step(self, src: Seq<u8>) -> Decoded {
        match self.state {
            DecodeState::Data(header) => self.data_step(header, src),
            DecodeState::Header => {
                let (codec, rest, header) = self.header_step(src);
                match header {
                    Err(err) => Decoded { codec, rest, packet: Err(err) },
                    Ok(None) => Decoded { codec, rest, packet: Ok(None) },
                    Ok(Some(header)) => IntegrityCodec { state: DecodeState::Data(header), ..codec }.data_step(
                        header,
                        rest,
                    ),
                }
            },
        }
    }

    /// Creates a new `IntegrityCodec` with the default configuration values.
    pub fn new() -> (r: Self)
        ensures
            r == (IntegrityCodec {
                max_frame_len: 8_388_608,
                state: DecodeState::Header,
                decode_seq: 0,
                encode_seq: 0,
            }),
    {
        IntegrityCodec { max_frame_len: 8 * 1_024 * 1_024, state: DecodeState::Header, decode_seq: 0, encode_seq: 0 }
    }

    /// Returns the maximum packet size.
    ///
    /// This is the largest size this codec will accept from the wire.
    /// Larger packets will be rejected.
    pub fn max_packet_size(&self) -> (r: u32)
        ensures
            r == self.max_frame_len,
    {
        self.max_frame_len
    }

    /// Sets the maximum packet size.
    ///
    /// This is the largest size this codec will accept from and send to the wire.
    /// Larger packets will be rejected.
    pub fn set_max_packet_size(&mut self, max_packet_size: u32)
        ensures
            *final(self) == (IntegrityCodec { max_frame_len: max_packet_size, ..*old(self) }),
    {
        self.max_frame_len = max_packet_size;
    }

    /// Decodes the header of a packet.
    pub fn decode_header(&mut self, src: &mut BytesMut) -> (r: Result<Option<Header>, IntegrityError>)
        requires
            old(self).max_frame_len <= isize::MAX,
        ensures
            (*final(self), mut_content(*final(src)), r) == old(self).header_step(mut_content(*old(src))),
    {
        let ghost all = mut_content(*src);
        if src.len() < HEAD_LEN {
            return Ok(None);
        }
        let length: u32 = get_u32(src);
        if length > self.max_frame_len {
            return Err(IntegrityError::PacketTooBig);
        }
        src.reserve((length as usize).saturating_sub(src.len()));

        assert(mut_content(*src).take(2) =~= all.subrange(4, 6));
        let seq: u16 = get_u16(src);
        assert(mut_content(*src) =~= all.skip(6));
        if seq != self.decode_seq {
            return Err(IntegrityError::SeqSkipped);
        }
        self.decode_seq = self.decode_seq.wrapping_add(1);

        assert(mut_content(*src).take(4) =~= all.subrange(6, 10));
        let checksum: u32 = get_u32(src);
        assert(mut_content(*src) =~= all.skip(10));

        Ok(Some(Header { length, checksum }))
    }

    /// Decodes the data of a packet.
    pub fn decode_data(&self, header: Header, src: &mut BytesMut) -> (r: Result<Option<BytesMut>, IntegrityError>)
        requires
            header.length <= usize::MAX,
        ensures
            ({
                let step = self.data_step(header, mut_content(*old(src)));
                &&& mut_content(*final(src)) == step.rest
                &&& match r {
                    Err(err) => step.packet == Err::<Option<Seq<u8>>, _>(err),
                    Ok(None) => step.packet == Ok::<Option<Seq<u8>>, IntegrityError>(None),
                    Ok(Some(data)) => step.packet == Ok::<_, IntegrityError>(Some(mut_content(data))),
                }
            }),
    {
        if src.len() < header.length as usize {
            return Ok(None);
        }
        let data: BytesMut = src.split_to(header.length as usize);

        if header.checksum != checksum(mut_as_slice(&data)) {
            return Err(IntegrityError::DataCorrupted);
        }
        Ok(Some(data))
    }

    /// Decodes the next packet from the received bytes.
    ///
    /// Returns `None` if more bytes are required to decode the packet.
    pub fn decode(&mut self, src: &mut BytesMut) -> (r: Result<Option<BytesMut>, IntegrityError>)
        requires
            old(self).max_frame_len <= isize::MAX,
        ensures
            ({
                let step = old(self).decode_step(mut_content(*old(src)));
                &&& *final(self) == step.codec
                &&& mut_content(*final(src)) == step.rest
                &&& match r {
                    Err(err) => step.packet == Err::<Option<Seq<u8>>, _>(err),
                    Ok(None) => step.packet == Ok::<Option<Seq<u8>>, IntegrityError>(None),
                    Ok(Some(data)) => step.packet == Ok::<_, IntegrityError>(Some(mut_content(data))),
                }
            }),
    {
        let header: Header = match self.state {
            DecodeState::Header => match self.decode_header(src) {
                Err(err) => return Err(err),
                Ok(Some(header)) => {
                    self.state = DecodeState::Data(header);
                    header
                },
                Ok(None) => return Ok(None),
            },
            DecodeState::Data(header) => header,
        };
        match self.decode_data(header, src) {
            Err(err) => Err(err),
            Ok(Some(data)) => {
                self.state = DecodeState::Header;
                src.reserve(HEAD_LEN.saturating_sub(src.len()));
                Ok(Some(data))
            },
            Ok(None) => Ok(None),
        }
    }

    /// Encodes a packet and appends it to the bytes to send.
    pub fn encode(&mut self, data: Bytes, dst: &mut BytesMut) -> (r: Result<(), IntegrityError>)
        requires
            mut_content(*old(dst)).len() + HEAD_LEN + content(data).len() <= isize::MAX,
        ensures
            content(data).len() > old(self).max_frame_len ==> {
                &&& r == Err::<(), _>(IntegrityError::PacketTooBig)
                &&& *final(self) == *old(self)
                &&& mut_content(*final(dst)) == mut_content(*old(dst))
            },
            content(data).len() <= old(self).max_frame_len ==> {
                &&& r is Ok
                &&& *final(self) == (IntegrityCodec { encode_seq: next_seq(old(self).encode_seq), ..*old(self) })
                &&& mut_content(*final(dst)) == mut_content(*old(dst)) + frame(old(self).encode_seq, content(data))
            },
    {
        if data.len() as u64 > self.max_frame_len as u64 {
            return Err(IntegrityError::PacketTooBig);
        }
        proof {
            lemma_be_bytes_len(content(data).len(), 4);
            lemma_be_bytes_len(self.encode_seq as nat, 2);
            lemma_be_bytes_len(crc32_bzip2(content(data)) as nat, 4);
        }
        dst.reserve(HEAD_LEN + data.len());
        put_u32(dst, data.len() as u32);
        put_u16(dst, self.encode_seq);
        self.encode_seq = self.encode_seq.wrapping_add(1);
        put_u32(dst, checksum(bytes_as_slice(&data)));
        dst.extend_from_slice(bytes_as_slice(&data));
        assert(mut_content(*dst) =~= mut_content(*old(dst)) + frame(old(self).encode_seq, content(data)));
        Ok(())
    }
}

impl Default for IntegrityCodec {
    fn default() -> (r: Self)
        ensures
            r == (IntegrityCodec {
                max_frame_len: 8_388_608,
                state: DecodeState::Header,
                decode_seq: 0,
                encode_seq: 0,
            }),
    {
        Self::new()
    }
}

/// The header of a frame is read back as it was written.
proof fn lemma_frame_header(seq: u16, data: Seq<u8>, rest: Seq<u8>)
    requires
        data.len() <= u32::MAX,
    ensures
        ({
            let src = frame(seq, data) + rest;
            &&& src.len() == HEAD_LEN + data.len() + rest.len()
            &&& be_value(src.take(4)) == data.len()
            &&& be_value(src.subrange(4, 6)) == seq
            &&& be_value(src.subrange(6, 10)) == crc32_bzip2(data)
            &&& src.skip(10) == data + rest
        }),
{
    lemma_byte_ranges();
    law_be_roundtrip(data.len(), 4);
    law_be_roundtrip(seq as nat, 2);
    law_be_roundtrip(crc32_bzip2(data) as nat, 4);
    let src = frame(seq, data) + rest;
    assert(src.take(4) =~= be_bytes(data.len(), 4));
    assert(src.subrange(4, 6) =~= be_bytes(seq as nat, 2));
    assert(src.subrange(6, 10) =~= be_bytes(crc32_bzip2(data) as nat, 4));
    assert(src.skip(10) =~= data + rest);
}

/// A packet that was encoded is decoded unchanged if sender and receiver agree on the sequence number
/// and the packet is not too big. The bytes that follow it remain.
pub proof fn law_packet_roundtrip(codec: IntegrityCodec, data: Seq<u8>, rest: Seq<u8>)
    requires
        codec.state is Header,
        data.len() <= codec.max_frame_len,
    ensures
        codec.decode_step(frame(codec.decode_seq, data) + rest) == (Decoded {
            codec: IntegrityCodec { decode_seq: next_seq(codec.decode_seq), ..codec },
            rest,
            packet: Ok(Some(data)),
        }),
{
    lemma_frame_header(codec.decode_seq, data, rest);
    assert((data + rest).take(data.len() as int) =~= data);
    assert((data + rest).skip(data.len() as int) =~= rest);
}

/// The packets obtained by decoding `n` times.
pub open spec fn decode_packets(codec: IntegrityCodec, src: Seq<u8>, n: nat) -> Seq<
    Result<Option<Seq<u8>>, IntegrityError>,
>
    decreases n,
{
    if n == 0 {
        Seq::empty()
    } else {
        let step = codec.decode_step(src);
        seq![step.packet] + decode_packets(step.codec, step.rest, (n - 1) as nat)
    }
}

/// Packets that were encoded one after the other are all decoded, unchanged and in order.
pub proof fn law_stream_roundtrip(codec: IntegrityCodec, packets: Seq<Seq<u8>>)
    requires
        codec.state is Header,
        forall|i: int| 0 <= i < packets.len() ==> (#[trigger] packets[i]).len() <= codec.max_frame_len,
    ensures
        decode_packets(codec, frames(codec.decode_seq, packets), packets.len()) == packets.map_values(
            |p: Seq<u8>| Ok::<Option<Seq<u8>>, IntegrityError>(Some(p)),
        ),
    decreases packets.len(),
{
    let expected = packets.map_values(|p: Seq<u8>| Ok::<Option<Seq<u8>>, IntegrityError>(Some(p)));
    if packets.len() == 0 {
        assert(expected =~= Seq::empty());
    } else {
        let rest = frames(next_seq(codec.decode_seq), packets.drop_first());
        law_packet_roundtrip(codec, packets[0], rest);
        let step = codec.decode_step(frames(codec.decode_seq, packets));
        assert forall|i: int| 0 <= i < packets.drop_first().len() implies (
        #[trigger] packets.drop_first()[i]).len() <= codec.max_frame_len by {
            assert(packets.drop_first()[i] == packets[i + 1]);
        }
        law_stream_roundtrip(step.codec, packets.drop_first());
        assert(expected =~= seq![Ok::<Option<Seq<u8>>, IntegrityError>(Some(packets[0]))]
            + packets.drop_first().map_values(|p: Seq<u8>| Ok::<Option<Seq<u8>>, IntegrityError>(Some(p))));
    }
}

/// How the received bytes are split does not matter: when decoding requires more bytes, decoding again once
/// they have arrived gives the same outcome as if all bytes had been available from the beginning.
pub proof fn law_split_does_not_matter(codec: IntegrityCodec, src: Seq<u8>, more: Seq<u8>)
    requires
        codec.decode_step(src).packet == Ok::<Option<Seq<u8>>, IntegrityError>(None),
    ensures
        codec.decode_step(src).codec.decode_step(codec.decode_step(src).rest + more) == codec.decode_step(src + more),
{
    if codec.state is Header && src.len() >= HEAD_LEN {
        let all = src + more;
        assert(all.take(4) =~= src.take(4));
        assert(all.subrange(4, 6) =~= src.subrange(4, 6));
        assert(all.subrange(6, 10) =~= src.subrange(6, 10));
        assert(all.skip(10) =~= src.skip(10) + more);
    }
}

/// A partial frame yields nothing. While its header is incomplete all bytes are kept and afterwards the bytes
/// of its data. When the missing bytes arrive, the packet is decoded and the bytes that follow it remain.
pub proof fn law_partial_frame(codec: IntegrityCodec, data: Seq<u8>, k: int, more: Seq<u8>)
    requires
        codec.state is Header,
        data.len() <= codec.max_frame_len,
        0 <= k < frame(codec.decode_seq, data).len(),
    ensures
        ({
            let all = frame(codec.decode_seq, data);
            let step = codec.decode_step(all.take(k));
            &&& step.packet == Ok::<Option<Seq<u8>>, IntegrityError>(None)
            &&& (k < HEAD_LEN ==> step.codec == codec && step.rest == all.take(k))
            &&& (k >= HEAD_LEN ==> step.rest == data.take(k - HEAD_LEN))
            &&& step.codec.decode_step(step.rest + (all.skip(k) + more)) == Decoded {
                codec: IntegrityCodec { decode_seq: next_seq(codec.decode_seq), ..codec },
                rest: more,
                packet: Ok(Some(data)),
            }
        }),
{
    let all = frame(codec.decode_seq, data);
    let part = all.take(k);
    lemma_frame_header(codec.decode_seq, data, Seq::empty());
    assert(all + Seq::<u8>::empty() =~= all);
    assert(data + Seq::<u8>::empty() =~= data);
    if k >= HEAD_LEN {
        assert(part.take(4) =~= all.take(4));
        assert(part.subrange(4, 6) =~= all.subrange(4, 6));
        assert(part.subrange(6, 10) =~= all.subrange(6, 10));
        assert(part.skip(10) =~= data.take(k - HEAD_LEN));
    }
    law_split_does_not_matter(codec, part, all.skip(k) + more);
    assert(part + (all.skip(k) + more) =~= all + more);
    law_packet_roundtrip(codec, data, more);
}

/// What is obtained by decoding until more bytes are required or an error occurs.
pub struct Drained {
    /// The codec afterwards.
    pub codec: IntegrityCodec,
    /// The bytes that remain.
    pub rest: Seq<u8>,
    /// The decoded packets.
    pub packets: Seq<Seq<u8>>,
    /// The error that occurred, if any.
    pub error: Option<IntegrityError>,
}

/// Decodes packets until more bytes are required or an error occurs.
pub open spec fn drain(codec: IntegrityCodec, src: Seq<u8>) -> Drained
    decreases
            src.len(),
            (if codec.state is Data {
                1int
            } else {
                0int
            }),
{
    let step = codec.decode_step(src);
    match step.packet {
        Err(err) => Drained { codec: step.codec, rest: step.rest, packets: Seq::empty(), error: Some(err) },
        Ok(None) => Drained { codec: step.codec, rest: step.rest, packets: Seq::empty(), error: None },
        Ok(Some(packet)) => {
            let more = drain(step.codec, step.rest);
            Drained { packets: seq![packet] + more.packets, ..more }
        },
    }
}

/// All chunks one after the other.
pub open spec fn joined(chunks: Seq<Seq<u8>>) -> Seq<u8>
    decreases chunks.len(),
{
    if chunks.len() == 0 {
        Seq::empty()
    } else {
        chunks[0] + joined(chunks.drop_first())
    }
}

/// What is obtained when bytes arrive in chunks and all packets are decoded after each of them.
///
/// `buffered` are the bytes that remained before.
pub open spec fn feed(codec: IntegrityCodec, buffered: Seq<u8>, chunks: Seq<Seq<u8>>) -> Drained
    decreases chunks.len(),
{
    if chunks.len() == 0 {
        Drained { codec, rest: buffered, packets: Seq::empty(), error: None }
    } else {
        let first = drain(codec, buffered + chunks[0]);
        if first.error is Some {
            first
        } else {
            let more = feed(first.codec, first.rest, chunks.drop_first());
            Drained { packets: first.packets + more.packets, ..more }
        }
    }
}

/// Bytes that follow do not change the outcome of decoding, unless they are required for it.
proof fn lemma_more_bytes(codec: IntegrityCodec, src: Seq<u8>, more: Seq<u8>)
    requires
        codec.decode_step(src).packet != Ok::<Option<Seq<u8>>, IntegrityError>(None),
    ensures
        codec.decode_step(src + more) == (Decoded {
            rest: codec.decode_step(src).rest + more,
            ..codec.decode_step(src)
        }),
{
    let all = src + more;
    if codec.state is Header {
        assert(all.take(4) =~= src.take(4));
        assert(all.subrange(4, 6) =~= src.subrange(4, 6));
        assert(all.subrange(6, 10) =~= src.subrange(6, 10));
        assert(all.skip(4) =~= src.skip(4) + more);
        assert(all.skip(6) =~= src.skip(6) + more);
        assert(all.skip(10) =~= src.skip(10) + more);
        let length = be_value(src.take(4)) as int;
        if length <= src.skip(10).len() {
            assert(all.skip(10).take(length) =~= src.skip(10).take(length));
            assert(all.skip(10).skip(length) =~= src.skip(10).skip(length) + more);
        }
    } else {
        let length = codec.state->Data_0.length as int;
        assert(all.take(length) =~= src.take(length));
        assert(all.skip(length) =~= src.skip(length) + more);
    }
}

/// Decoding first what has arrived and then the rest gives the same as decoding everything at once.
proof fn lemma_drain_in_parts(codec: IntegrityCodec, src: Seq<u8>, more: Seq<u8>)
    ensures
        ({
            let first = drain(codec, src);
            let all = drain(codec, src + more);
            &&& (first.error is Some ==> all.error is Some)
            &&& (first.error is None ==> {
                let then = drain(first.codec, first.rest + more);
                all == Drained { packets: first.packets + then.packets, ..then }
            })
        }),
    decreases
            src.len(),
            (if codec.state is Data {
                1int
            } else {
                0int
            }),
{
    let step = codec.decode_step(src);
    match step.packet {
        Err(_) => lemma_more_bytes(codec, src, more),
        Ok(None) => {
            law_split_does_not_matter(codec, src, more);
            let then = drain(step.codec, step.rest + more);
            assert(Seq::<Seq<u8>>::empty() + then.packets =~= then.packets);
        },
        Ok(Some(packet)) => {
            lemma_more_bytes(codec, src, more);
            lemma_drain_in_parts(step.codec, step.rest, more);
            let first = drain(step.codec, step.rest);
            if first.error is None {
                let then = drain(first.codec, first.rest + more);
                assert((seq![packet] + first.packets) + then.packets =~= seq![packet] + (first.packets
                    + then.packets));
            }
        },
    }
}

/// Once everything has been decoded, nothing more can be decoded before more bytes arrive.
proof fn lemma_drained(codec: IntegrityCodec, src: Seq<u8>)
    requires
        drain(codec, src).error is None,
    ensures
        ({
            let d = drain(codec, src);
            drain(d.codec, d.rest) == Drained { packets: Seq::empty(), ..d }
        }),
    decreases
            src.len(),
            (if codec.state is Data {
                1int
            } else {
                0int
            }),
{
    let step = codec.decode_step(src);
    match step.packet {
        Ok(Some(_)) => lemma_drained(step.codec, step.rest),
        _ => {
            law_split_does_not_matter(codec, src, Seq::empty());
            assert(step.rest + Seq::<u8>::empty() =~= step.rest);
            assert(src + Seq::<u8>::empty() =~= src);
        },
    }
}

/// Decoding in chunks gives the same as decoding everything at once.
proof fn lemma_feed(codec: IntegrityCodec, buffered: Seq<u8>, chunks: Seq<Seq<u8>>)
    requires
        drain(codec, buffered) == (Drained { codec, rest: buffered, packets: Seq::empty(), error: None }),
        drain(codec, buffered + joined(chunks)).error is None,
    ensures
        feed(codec, buffered, chunks) == drain(codec, buffered + joined(chunks)),
    decreases chunks.len(),
{
    if chunks.len() == 0 {
        assert(buffered + joined(chunks) =~= buffered);
    } else {
        let rest = joined(chunks.drop_first());
        let first = drain(codec, buffered + chunks[0]);
        assert(buffered + joined(chunks) =~= (buffered + chunks[0]) + rest);
        lemma_drain_in_parts(codec, buffered + chunks[0], rest);
        lemma_drained(codec, buffered + chunks[0]);
        lemma_feed(first.codec, first.rest, chunks.drop_first());
    }
}

/// All frames are decoded and nothing remains.
proof fn lemma_drain_frames(codec: IntegrityCodec, packets: Seq<Seq<u8>>)
    requires
        codec.state is Header,
        forall|i: int| 0 <= i < packets.len() ==> (#[trigger] packets[i]).len() <= codec.max_frame_len,
    ensures
        ({
            let d = drain(codec, frames(codec.decode_seq, packets));
            &&& d.packets == packets
            &&& d.rest == Seq::<u8>::empty()
            &&& d.error is None
            &&& d.codec == (IntegrityCodec { decode_seq: d.codec.decode_seq, ..codec })
        }),
    decreases packets.len(),
{
    if packets.len() == 0 {
        assert(packets =~= Seq::empty());
    } else {
        let rest = frames(next_seq(codec.decode_seq), packets.drop_first());
        law_packet_roundtrip(codec, packets[0], rest);
        let step = codec.decode_step(frames(codec.decode_seq, packets));
        assert forall|i: int| 0 <= i < packets.drop_first().len() implies (
        #[trigger] packets.drop_first()[i]).len() <= codec.max_frame_len by {
            assert(packets.drop_first()[i] == packets[i + 1]);
        }
        lemma_drain_frames(step.codec, packets.drop_first());
        assert(seq![packets[0]] + packets.drop_first() =~= packets);
    }
}

/// However the bytes of encoded packets are split into chunks, decoding them gives exactly these packets, in
/// order, and no byte remains.
pub proof fn law_chunks_do_not_matter(codec: IntegrityCodec, packets: Seq<Seq<u8>>, chunks: Seq<Seq<u8>>)
    requires
        codec.state is Header,
        forall|i: int| 0 <= i < packets.len() ==> (#[trigger] packets[i]).len() <= codec.max_frame_len,
        joined(chunks) == frames(codec.decode_seq, packets),
    ensures
        ({
            let fed = feed(codec, Seq::empty(), chunks);
            &&& fed.packets == packets
            &&& fed.rest == Seq::<u8>::empty()
            &&& fed.error is None
            &&& fed.codec.state is Header
        }),
{
    lemma_drain_frames(codec, packets);
    assert(Seq::<u8>::empty() + joined(chunks) =~= joined(chunks));
    lemma_feed(codec, Seq::empty(), chunks);
}

/// Only packets that have arrived intact are handed out: a packet is what follows its header, is not too long, has the
/// next sequence number and matches its checksum. Otherwise an error is reported, or more bytes are waited for.
pub proof fn law_only_intact_packets(codec: IntegrityCodec, src: Seq<u8>)
    requires
        codec.state == DecodeState::Header,
    ensures
        ({
            let d = codec.decode_step(src);
            let len = be_value(src.take(4));
            let fits = src.len() >= 10 && len <= codec.max_frame_len;
            let next = be_value(src.subrange(4, 6)) == codec.decode_seq;
            let whole = src.len() >= 10 + len;
            let intact = crc32_bzip2(src.subrange(10, 10 + len as int)) == be_value(src.subrange(6, 10)) as u32;
            &&& (src.len() < 10 ==> d.packet == Ok::<Option<Seq<u8>>, IntegrityError>(None) && d.rest == src)
            &&& (src.len() >= 10 && !fits ==> d.packet == Err::<Option<Seq<u8>>, IntegrityError>(
                IntegrityError::PacketTooBig,
            ))
            &&& (fits && !next ==> d.packet == Err::<Option<Seq<u8>>, IntegrityError>(IntegrityError::SeqSkipped))
            &&& (fits && next && !whole ==> d.packet == Ok::<Option<Seq<u8>>, IntegrityError>(None))
            &&& (fits && next && whole && !intact ==> d.packet == Err::<Option<Seq<u8>>, IntegrityError>(
                IntegrityError::DataCorrupted,
            ))
            &&& (fits && next && whole && intact ==> {
                &&& d.packet == Ok::<Option<Seq<u8>>, IntegrityError>(Some(src.subrange(10, 10 + len as int)))
                &&& d.rest == src.skip(10 + len as int)
                &&& d.codec.state == DecodeState::Header
                &&& d.codec.decode_seq == (codec.decode_seq + 1) % 0x1_0000
            })
        }),
{
    let len = be_value(src.take(4));
    if src.len() >= 10 + len {
        assert(src.skip(10).take(len as int) =~= src.subrange(10, 10 + len as int));
        assert(src.skip(10).skip(len as int) =~= src.skip(10 + len as int));
    }
}

} // verus!
