//! Wire format of the discovery messages and of application frames.
//!
//! A message is a list of three top-level fields, written as the field count,
//! the family tag that tells discovery apart from the other protocol layers,
//! and a body that starts with the message kind:
//! `Request(n)` is `[3, tag, 0, n]`, and `Response(addresses)` is
//! `[3, tag, 1]`, a two-byte big-endian count and six bytes per address
//! (four of host, two of port, big-endian).
//!
//! An application frame is `[3, application tag]`, the two-byte big-endian
//! slot id, and the payload, which runs to the end of the frame.
use vstd::prelude::*;

use crate::connection::ApplicationFrame;
use crate::types::PeerAddress;

verus! {

/// Family tag of the discovery protocol.
pub const DISCOVERY_FAMILY: u8 = 0x44;

/// Family tag of application frames.
pub const APPLICATION_FAMILY: u8 = 0x41;

/// Highest slot id a frame can carry: the slot field has two bytes.
pub const MAX_SLOT: usize = 65535;

/// Number of top-level fields in every discovery message and frame.
pub const FIELD_COUNT: u8 = 3;

/// Kind byte of a request.
pub const KIND_REQUEST: u8 = 0;

/// Kind byte of a response.
pub const KIND_RESPONSE: u8 = 1;

/// Most addresses one response can carry: the count field has two bytes.
pub const MAX_ADDRESSES: usize = 65535;

/// Why bytes could not be decoded.
#[derive(Clone, Copy, Debug, PartialEq, Eq, Structural)]
pub enum CodecError {
    /// A length field or the body is truncated or runs past the input.
    MalformedEncoding,
    /// The family tag or the kind is not that of a discovery message.
    UnexpectedPrefix,
    /// The number of top-level fields differs from the schema.
    InvalidFieldCount,
}

/// A discovery message.
pub enum Message {
    /// Ask the peer for up to `n` addresses.
    Request(u8),
    /// Addresses handed out in answer to a request.
    Response(Vec<PeerAddress>),
}

/// What a discovery message stands for, as a mathematical value.
pub enum MessageModel {
    Request(u8),
    Response(Seq<PeerAddress>),
}

impl View for Message {
    type V = MessageModel;

    open spec fn view(&self) -> MessageModel {
        match self {
            Message::Request(n) => MessageModel::Request(*n),
            Message::Response(v) => MessageModel::Response(v@),
        }
    }
}

/// A message fits the format: a response carries at most `MAX_ADDRESSES`.
pub open spec fn encodable(m: MessageModel) -> bool {
    match m {
        MessageModel::Request(_) => true,
        MessageModel::Response(s) => s.len() <= MAX_ADDRESSES,
    }
}

/// The six bytes of one address.
pub open spec fn address_bytes(a: PeerAddress) -> Seq<u8> {
    seq![
        (a.ip >> 24u32) as u8,
        (a.ip >> 16u32) as u8,
        (a.ip >> 8u32) as u8,
        a.ip as u8,
        (a.port >> 8u16) as u8,
        a.port as u8,
    ]
}

/// The bytes of a run of addresses, one after the other.
pub open spec fn addresses_bytes(s: Seq<PeerAddress>) -> Seq<u8>
    decreases s.len(),
{
    if s.len() == 0 {
        seq![]
    } else {
        addresses_bytes(s.drop_last()) + address_bytes(s.last())
    }
}

/// The bytes of a message.
pub open spec fn encoding(m: MessageModel) -> Seq<u8> {
    match m {
        MessageModel::Request(n) => seq![FIELD_COUNT, DISCOVERY_FAMILY, KIND_REQUEST, n],
        MessageModel::Response(s) => seq![
            FIELD_COUNT,
            DISCOVERY_FAMILY,
            KIND_RESPONSE,
            (s.len() as u16 >> 8u16) as u8,
            s.len() as u8,
        ] + addresses_bytes(s),
    }
}

/// The address whose bytes start at `off`.
pub open spec fn address_at(b: Seq<u8>, off: int) -> PeerAddress {
    PeerAddress {
        ip: (b[off] as u32) << 24u32 | (b[off + 1] as u32) << 16u32 | (b[off + 2] as u32) << 8u32
            | (b[off + 3] as u32),
        port: (b[off + 4] as u16) << 8u16 | (b[off + 5] as u16),
    }
}

/// The count field of a response.
pub open spec fn count_field(b: Seq<u8>) -> int {
    b[3] as int * 256 + b[4] as int
}

/// What decoding makes of the bytes `b`.
pub open spec fn parse(b: Seq<u8>) -> Result<MessageModel, CodecError> {
    if b.len() < 3 {
        Err(CodecError::MalformedEncoding)
    } else if b[1] != DISCOVERY_FAMILY || (b[2] != KIND_REQUEST && b[2] != KIND_RESPONSE) {
        Err(CodecError::UnexpectedPrefix)
    } else if b[0] != FIELD_COUNT {
        Err(CodecError::InvalidFieldCount)
    } else if b[2] == KIND_REQUEST {
        if b.len() != 4 {
            Err(CodecError::MalformedEncoding)
        } else {
            Ok(MessageModel::Request(b[3]))
        }
    } else if b.len() < 5 || b.len() != 5 + 6 * count_field(b) {
        Err(CodecError::MalformedEncoding)
    } else {
        Ok(MessageModel::Response(Seq::new(count_field(b) as nat, |i: int| address_at(b, 5 + 6 * i))))
    }
}

proof fn lemma_addresses_bytes(s: Seq<PeerAddress>)
    ensures
        addresses_bytes(s).len() == 6 * s.len(),
        forall|j: int|
            0 <= j < 6 * s.len() ==> #[trigger] addresses_bytes(s)[j] == address_bytes(
                s[j / 6],
            )[j % 6],
    decreases s.len(),
{
    if s.len() > 0 {
        lemma_addresses_bytes(s.drop_last());
    }
}

proof fn lemma_address_round_trip(a: PeerAddress)
    ensures
        address_at(address_bytes(a), 0) == a,
{
    let ip = a.ip;
    let port = a.port;
    assert(((ip >> 24u32) as u8 as u32) << 24u32 | ((ip >> 16u32) as u8 as u32) << 16u32 | ((ip
        >> 8u32) as u8 as u32) << 8u32 | (ip as u8 as u32) == ip) by (bit_vector);
    assert(((port >> 8u16) as u8 as u16) << 8u16 | (port as u8 as u16) == port) by (bit_vector);
}

proof fn lemma_count_round_trip(n: u16)
    ensures
        ((n >> 8u16) as u8) as int * 256 + (n as u8) as int == n as int,
{
    assert(((n >> 8u16) as u8) as u16 * 256 + (n as u8) as u16 == n) by (bit_vector);
}

/// Decoding the encoding of any message that fits the format gives that
/// message back.
pub proof fn law_round_trip(m: MessageModel)
    requires
        encodable(m),
    ensures
        parse(encoding(m)) == Ok::<MessageModel, CodecError>(m),
{
    match m {
        MessageModel::Request(n) => {},
        MessageModel::Response(s) => {
            let b = encoding(m);
            lemma_addresses_bytes(s);
            lemma_count_round_trip(s.len() as u16);
            assert(count_field(b) == s.len());
            let d = Seq::new(count_field(b) as nat, |i: int| address_at(b, 5 + 6 * i));
            assert forall|i: int| 0 <= i < s.len() implies d[i] == s[i] by {
                let ab = address_bytes(s[i]);
                assert forall|k: int| 0 <= k < 6 implies b[5 + 6 * i + k] == ab[k] by {
                    assert(b[5 + 6 * i + k] == addresses_bytes(s)[6 * i + k]);
                    assert((6 * i + k) / 6 == i);
                    assert((6 * i + k) % 6 == k);
                }
                lemma_address_round_trip(s[i]);
            }
            assert(d =~= s);
        },
    }
}

/// Writes the bytes of one address at the end of `out`.
fn push_address(out: &mut Vec<u8>, a: PeerAddress)
    ensures
        final(out)@ == old(out)@ + address_bytes(a),
{
    out.push((a.ip >> 24u32) as u8);
    out.push((a.ip >> 16u32) as u8);
    out.push((a.ip >> 8u32) as u8);
    out.push(a.ip as u8);
    out.push((a.port >> 8u16) as u8);
    out.push(a.port as u8);
    assert(final(out)@ =~= old(out)@ + address_bytes(a));
}

impl Message {
    /// The bytes of this message; the same message always gives the same bytes.
    pub fn encode(&self) -> (r: Vec<u8>)
        requires
            encodable(self@),
        ensures
            r@ == encoding(self@),
    {
        match self {
            Message::Request(n) => {
                let mut out: Vec<u8> = Vec::new();
                out.push(FIELD_COUNT);
                out.push(DISCOVERY_FAMILY);
                out.push(KIND_REQUEST);
                out.push(*n);
                assert(out@ =~= encoding(self@));
                out
            },
            Message::Response(v) => {
                let mut out: Vec<u8> = Vec::new();
                let count = v.len() as u16;
                out.push(FIELD_COUNT);
                out.push(DISCOVERY_FAMILY);
                out.push(KIND_RESPONSE);
                out.push((count >> 8u16) as u8);
                out.push(count as u8);
                let ghost head = out@;
                let mut i: usize = 0;
                while i < v.len()
                    invariant
                        0 <= i <= v@.len(),
                        out@ == head + addresses_bytes(v@.subrange(0, i as int)),
                    decreases v@.len() - i,
                {
                    proof {
                        assert(v@.subrange(0, i + 1).drop_last() =~= v@.subrange(0, i as int));
                    }
                    push_address(&mut out, v[i]);
                    proof {
                        assert(out@ =~= head + addresses_bytes(v@.subrange(0, i + 1)));
                    }
                    i = i + 1;
                }
                proof {
                    assert(v@.subrange(0, i as int) =~= v@);
                    assert(out@ =~= encoding(self@));
                }
                out
            },
        }
    }

    /// Reads a message from untrusted bytes. It never reads past the input
    /// and allocates no more than the input's own length accounts for.
    pub fn decode(b: &[u8]) -> (r: Result<Message, CodecError>)
        ensures
            match (r, parse(b@)) {
                (Ok(m), Ok(p)) => m@ == p,
                (Err(e), Err(f)) => e == f,
                _ => false,
            },
    {
        if b.len() < 3 {
            return Err(CodecError::MalformedEncoding);
        }
        if b[1] != DISCOVERY_FAMILY || (b[2] != KIND_REQUEST && b[2] != KIND_RESPONSE) {
            return Err(CodecError::UnexpectedPrefix);
        }
        if b[0] != FIELD_COUNT {
            return Err(CodecError::InvalidFieldCount);
        }
        if b[2] == KIND_REQUEST {
            if b.len() != 4 {
                return Err(CodecError::MalformedEncoding);
            }
            return Ok(Message::Request(b[3]));
        }
        if b.len() < 5 {
            return Err(CodecError::MalformedEncoding);
        }
        let count: usize = b[3] as usize * 256 + b[4] as usize;
        if (b.len() - 5) / 6 != count || (b.len() - 5) % 6 != 0 {
            return Err(CodecError::MalformedEncoding);
        }
        let mut out: Vec<PeerAddress> = Vec::new();
        let mut i: usize = 0;
        while i < count
            invariant
                0 <= i <= count,
                count == count_field(b@),
                b@.len() == 5 + 6 * count,
                out@ =~= Seq::new(i as nat, |k: int| address_at(b@, 5 + 6 * k)),
            decreases count - i,
        {
            let off = 5 + 6 * i;
            let a = PeerAddress {
                ip: (b[off] as u32) << 24u32 | (b[off + 1] as u32) << 16u32 | (b[off + 2] as u32)
                    << 8u32 | (b[off + 3] as u32),
                port: (b[off + 4] as u16) << 8u16 | (b[off + 5] as u16),
            };
            out.push(a);
            i = i + 1;
        }
        Ok(Message::Response(out))
    }
}

/// The bytes of an application frame.
pub open spec fn frame_encoding(slot: usize, payload: Seq<u8>) -> Seq<u8> {
    seq![FIELD_COUNT, APPLICATION_FAMILY, (slot as u16 >> 8u16) as u8, slot as u8] + payload
}

/// What decoding makes of the bytes `b` as an application frame: its slot
/// and its payload.
pub open spec fn parse_frame(b: Seq<u8>) -> Result<(usize, Seq<u8>), CodecError> {
    if b.len() < 4 {
        Err(CodecError::MalformedEncoding)
    } else if b[1] != APPLICATION_FAMILY {
        Err(CodecError::UnexpectedPrefix)
    } else if b[0] != FIELD_COUNT {
        Err(CodecError::InvalidFieldCount)
    } else {
        Ok(((b[2] as int * 256 + b[3] as int) as usize, b.subrange(4, b.len() as int)))
    }
}

/// Decoding the encoding of a frame whose slot fits gives the frame back.
pub proof fn law_frame_round_trip(slot: usize, payload: Seq<u8>)
    requires
        slot <= MAX_SLOT,
    ensures
        parse_frame(frame_encoding(slot, payload)) == Ok::<(usize, Seq<u8>), CodecError>(
            (slot, payload),
        ),
{
    let b = frame_encoding(slot, payload);
    lemma_count_round_trip(slot as u16);
    assert(b.subrange(4, b.len() as int) =~= payload);
}

/// The bytes of an application frame.
pub fn encode_frame(f: &ApplicationFrame) -> (r: Vec<u8>)
    requires
        f.slot <= MAX_SLOT,
    ensures
        r@ == frame_encoding(f.slot, f.payload@),
{
    let slot = f.slot as u16;
    let mut out: Vec<u8> = Vec::new();
    out.push(FIELD_COUNT);
    out.push(APPLICATION_FAMILY);
    out.push((slot >> 8u16) as u8);
    out.push(slot as u8);
    let ghost head = out@;
    let mut i: usize = 0;
    while i < f.payload.len()
        invariant
            0 <= i <= f.payload@.len(),
            out@ == head + f.payload@.take(i as int),
        decreases f.payload@.len() - i,
    {
        out.push(f.payload[i]);
        proof {
            assert(f.payload@.take(i + 1) =~= f.payload@.take(i as int).push(f.payload@[i as int]));
            assert(out@ =~= head + f.payload@.take(i + 1));
        }
        i = i + 1;
    }
    proof {
        assert(f.payload@.take(i as int) =~= f.payload@);
        assert(out@ =~= frame_encoding(f.slot, f.payload@));
    }
    out
}

/// Reads an application frame from untrusted bytes.
pub fn decode_frame(b: &[u8]) -> (r: Result<ApplicationFrame, CodecError>)
    ensures
        match (r, parse_frame(b@)) {
            (Ok(f), Ok((slot, payload))) => f.slot == slot && f.payload@ == payload,
            (Err(e), Err(g)) => e == g,
            _ => false,
        },
{
    if b.len() < 4 {
        return Err(CodecError::MalformedEncoding);
    }
    if b[1] != APPLICATION_FAMILY {
        return Err(CodecError::UnexpectedPrefix);
    }
    if b[0] != FIELD_COUNT {
        return Err(CodecError::InvalidFieldCount);
    }
    let slot: usize = b[2] as usize * 256 + b[3] as usize;
    let mut payload: Vec<u8> = Vec::new();
    let mut i: usize = 4;
    while i < b.len()
        invariant
            4 <= i <= b@.len(),
            payload@ == b@.subrange(4, i as int),
        decreases b@.len() - i,
    {
        payload.push(b[i]);
        proof {
            assert(b@.subrange(4, i + 1) =~= b@.subrange(4, i as int).push(b@[i as int]));
        }
        i = i + 1;
    }
    Ok(ApplicationFrame { slot, payload })
}

} // verus!
