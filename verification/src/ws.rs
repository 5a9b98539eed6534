//! Minimal RFC 6455 server support.
//!
//! Only what the reload channel needs: the opening handshake, unmasked text
//! frames from server to client, and enough of the read path to answer pings
//! and notice when a tab goes away.

use vstd::prelude::*;
use vstd::utf8::encode_utf8;

verus! {

/// Magic value from RFC 6455 section 1.3.
pub const GUID: &'static str = "258EAFA5-E914-47DA-95CA-C5AB0DC85B11";

pub const OP_TEXT: u8 = 0x1;

pub const OP_CLOSE: u8 = 0x8;

pub const OP_PING: u8 = 0x9;

pub const OP_PONG: u8 = 0xA;

/// Largest client frame we are willing to buffer. The client never sends us
/// anything of substance, so anything big is a bug or an attack.
pub const MAX_FRAME: u64 = 65536;

/* --------------------------------------------------------------- handshake */

/// The SHA-1 digest of some bytes.
pub uninterp spec fn sha1_of(bytes: Seq<u8>) -> Seq<u8>;

/// `Sha1::digest` of the `sha1` crate: the digest of the bytes, which is
/// always twenty bytes long.
#[verifier::external_body]
fn sha1_digest(bytes: &[u8]) -> (r: Vec<u8>)
    ensures
        r@ == sha1_of(bytes@),
        r@.len() == 20,
{
    <sha1::Sha1 as sha1::Digest>::digest(bytes).to_vec()
}

/// The character of a Base64 digit, in the standard alphabet.
pub open spec fn base64_char(d: int) -> char {
    if d < 26 {
        (65 + d) as u8 as char
    } else if d < 52 {
        (71 + d) as u8 as char
    } else if d < 62 {
        (d - 4) as u8 as char
    } else if d == 62 {
        '+'
    } else {
        '/'
    }
}

/// Bytes in Base64: four characters for every three bytes, the last group
/// padded with `=`.
pub open spec fn base64_text(b: Seq<u8>) -> Seq<char>
    decreases b.len(),
{
    if b.len() == 0 {
        Seq::empty()
    } else if b.len() == 1 {
        seq![base64_char((b[0] / 4) as int), base64_char(b[0] % 4 * 16), '=', '=']
    } else if b.len() == 2 {
        seq![
            base64_char((b[0] / 4) as int),
            base64_char(b[0] % 4 * 16 + b[1] / 16),
            base64_char(b[1] % 16 * 4),
            '=',
        ]
    } else {
        seq![
            base64_char((b[0] / 4) as int),
            base64_char(b[0] % 4 * 16 + b[1] / 16),
            base64_char(b[1] % 16 * 4 + b[2] / 64),
            base64_char((b[2] % 64) as int),
        ] + base64_text(b.skip(3))
    }
}

/// `base64::Engine::encode` with the `STANDARD` engine: the bytes in Base64,
/// in the standard alphabet and with padding.
#[verifier::external_body]
fn encode_base64(bytes: &[u8]) -> (r: String)
    ensures
        r@ == base64_text(bytes@),
{
    base64::Engine::encode(&base64::engine::general_purpose::STANDARD, bytes)
}

/// What a server answers a client's key with.
pub open spec fn accept_value(client_key: Seq<char>) -> Seq<char> {
    base64_text(sha1_of(encode_utf8(client_key) + encode_utf8(GUID@)))
}

/// Computes the `Sec-WebSocket-Accept` response value for a client key.
pub fn accept_key(client_key: &str) -> (r: String)
    ensures
        r@ == accept_value(client_key@),
{
    let key = client_key.as_bytes();
    let guid = GUID.as_bytes();
    let mut bytes: Vec<u8> = Vec::new();
    push_all(&mut bytes, key);
    push_all(&mut bytes, guid);
    assert(bytes@ =~= encode_utf8(client_key@) + encode_utf8(GUID@));
    encode_digest(sha1_digest(bytes.as_slice()).as_slice())
}

/// Writes a digest the way a handshake carries it.
pub fn encode_digest(digest: &[u8]) -> (r: String)
    ensures
        r@ == base64_text(digest@),
{
    encode_base64(digest)
}

fn push_all(out: &mut Vec<u8>, bytes: &[u8])
    ensures
        final(out)@ == old(out)@ + bytes@,
{
    let ghost before = out@;
    for i in 0..bytes.len()
        invariant
            out@ == before + bytes@.take(i as int),
    {
        out.push(bytes[i]);
        assert(bytes@.take(i as int).push(bytes@[i as int]) =~= bytes@.take(i + 1));
        assert(out@ =~= before + bytes@.take(i + 1));
    }
    assert(bytes@.take(bytes@.len() as int) =~= bytes@);
}

/* ----------------------------------------------------------------- numbers */

/// A number in `width` bytes, most significant first.
pub open spec fn be_bytes(n: nat, width: nat) -> Seq<u8>
    decreases width,
{
    if width == 0 {
        Seq::empty()
    } else {
        be_bytes(n / 256, (width - 1) as nat).push((n % 256) as u8)
    }
}

/// The number that bytes stand for, most significant first.
pub open spec fn be_value(bytes: Seq<u8>) -> nat
    decreases bytes.len(),
{
    if bytes.len() == 0 {
        0
    } else {
        be_value(bytes.drop_last()) * 256 + bytes.last() as nat
    }
}

fn push_be(out: &mut Vec<u8>, n: u64, width: usize)
    ensures
        final(out)@ == old(out)@ + be_bytes(n as nat, width as nat),
    decreases width,
{
    if width > 0 {
        push_be(out, n / 256, width - 1);
        out.push((n % 256) as u8);
    }
    assert(out@ =~= old(out)@ + be_bytes(n as nat, width as nat));
}

/// A value in `width` bytes is below 256 to the power of `width`.
pub open spec fn be_bound(width: nat) -> nat
    decreases width,
{
    if width == 0 {
        1
    } else {
        256 * be_bound((width - 1) as nat)
    }
}

proof fn lemma_be_value_bound(bytes: Seq<u8>)
    ensures
        be_value(bytes) < be_bound(bytes.len()),
    decreases bytes.len(),
{
    if bytes.len() > 0 {
        lemma_be_value_bound(bytes.drop_last());
    }
}

proof fn lemma_be_bounds()
    ensures
        be_bound(0) == 1,
        be_bound(2) == 65536,
        be_bound(8) == 0x1_0000_0000_0000_0000,
{
    reveal_with_fuel(be_bound, 9);
}

proof fn lemma_be_reads_back(n: nat, width: nat)
    requires
        n < be_bound(width),
    ensures
        be_bytes(n, width).len() == width,
        be_value(be_bytes(n, width)) == n,
    decreases width,
{
    if width > 0 {
        lemma_be_reads_back(n / 256, (width - 1) as nat);
        let all = be_bytes(n, width);
        assert(all.drop_last() =~= be_bytes(n / 256, (width - 1) as nat));
    }
}

fn be_number(bytes: &[u8]) -> (r: u64)
    requires
        bytes@.len() <= 8,
    ensures
        r == be_value(bytes@),
{
    let mut n: u64 = 0;
    assert(bytes@.take(0) =~= Seq::<u8>::empty());
    for i in 0..bytes.len()
        invariant
            bytes@.len() <= 8,
            n == be_value(bytes@.take(i as int)),
    {
        proof {
            assert(bytes@.take(i + 1).drop_last() =~= bytes@.take(i as int));
            lemma_be_value_bound(bytes@.take(i + 1));
            lemma_be_bound_grows((i + 1) as nat, 8);
            lemma_be_bounds();
        }
        n = n * 256 + bytes[i] as u64;
    }
    assert(bytes@.take(bytes@.len() as int) =~= bytes@);
    n
}

proof fn lemma_be_bound_grows(a: nat, b: nat)
    requires
        a <= b,
    ensures
        be_bound(a) <= be_bound(b),
    decreases b,
{
    if a < b {
        lemma_be_bound_grows(a, (b - 1) as nat);
    }
}

/* ------------------------------------------------------------------ writing */

/// The length of a payload as a frame carries it, behind the first byte: in
/// one byte below 126, else in two or eight more.
pub open spec fn length_bytes(len: nat) -> Seq<u8> {
    if len < 126 {
        seq![len as u8]
    } else if len <= 65535 {
        seq![126u8] + be_bytes(len, 2)
    } else {
        seq![127u8] + be_bytes(len, 8)
    }
}

/// A frame that is complete in itself and not masked.
pub open spec fn plain_frame(opcode: u8, payload: Seq<u8>) -> Seq<u8> {
    seq![0x80u8 | opcode] + length_bytes(payload.len()) + payload
}

/// Serialises a text frame. Server frames are never masked.
pub fn text_frame(payload: &str) -> (r: Vec<u8>)
    ensures
        r@ == plain_frame(OP_TEXT, encode_utf8(payload@)),
{
    let bytes = payload.as_bytes();
    let mut frame: Vec<u8> = Vec::new();
    frame.push(0x80 | OP_TEXT);
    let len = bytes.len();
    if len < 126 {
        frame.push(len as u8);
    } else if len <= 65535 {
        frame.push(126);
        push_be(&mut frame, len as u64, 2);
    } else {
        frame.push(127);
        push_be(&mut frame, len as u64, 8);
    }
    assert(frame@ =~= seq![0x80u8 | OP_TEXT] + length_bytes(bytes@.len()));
    push_all(&mut frame, bytes);
    frame
}

/// The longest payload that a control frame may carry.
pub open spec fn control_payload(payload: Seq<u8>) -> Seq<u8> {
    if payload.len() <= 125 {
        payload
    } else {
        payload.take(125)
    }
}

/// Serialises a control frame.
///
/// Control frames are limited to a 125 byte payload, which conveniently means
/// the length is always a single byte.
pub fn control_frame(opcode: u8, payload: &[u8]) -> (r: Vec<u8>)
    ensures
        r@ == plain_frame(opcode, control_payload(payload@)),
{
    let len: usize = if payload.len() < 125 {
        payload.len()
    } else {
        125
    };
    let mut frame: Vec<u8> = Vec::new();
    frame.push(0x80 | opcode);
    frame.push(len as u8);
    let kept = vstd::slice::slice_subrange(payload, 0, len);
    assert(kept@ =~= control_payload(payload@));
    assert(frame@ =~= seq![0x80u8 | opcode] + length_bytes(kept@.len()));
    push_all(&mut frame, kept);
    frame
}

/// The frame that answers a ping.
pub fn send_pong(payload: &[u8]) -> (r: Vec<u8>)
    ensures
        r@ == plain_frame(OP_PONG, control_payload(payload@)),
{
    control_frame(OP_PONG, payload)
}

/* ------------------------------------------------------------------ reading */

/// What a client frame told us to do.
pub enum Incoming {
    /// Send these bytes back verbatim.
    Pong(Vec<u8>),
    /// The peer is closing, or the stream ended.
    Close,
    /// Nothing to act on.
    Ignore,
}

/// What a client frame says.
pub enum IncomingModel {
    Pong(Seq<u8>),
    Close,
    Ignore,
}

impl View for Incoming {
    type V = IncomingModel;

    open spec fn view(&self) -> IncomingModel {
        match self {
            Incoming::Pong(payload) => IncomingModel::Pong(payload@),
            Incoming::Close => IncomingModel::Close,
            Incoming::Ignore => IncomingModel::Ignore,
        }
    }
}

/// A payload with each byte combined with the byte of the mask whose turn it
/// is. Masking and unmasking are the same.
pub open spec fn masked(payload: Seq<u8>, mask: Seq<u8>) -> Seq<u8> {
    Seq::new(payload.len(), |i: int| payload[i] ^ mask[i % 4])
}

/// What a frame with this opcode and payload asks for.
pub open spec fn judged(opcode: int, payload: Seq<u8>) -> IncomingModel {
    if opcode == OP_CLOSE {
        IncomingModel::Close
    } else if opcode == OP_PING {
        IncomingModel::Pong(payload)
    } else {
        IncomingModel::Ignore
    }
}

/// How many bytes the length takes behind the second byte of a frame.
pub open spec fn extended_width(second: u8) -> int {
    if second % 128 == 126 {
        2
    } else if second % 128 == 127 {
        8
    } else {
        0
    }
}

/// What the stream says once the header and length of a frame are read.
pub open spec fn rest_of_frame(opcode: int, has_mask: bool, length: int, rest: Seq<u8>) -> IncomingModel {
    let at: int = if has_mask {
        4
    } else {
        0
    };
    if length > MAX_FRAME || rest.len() < at + length {
        IncomingModel::Close
    } else if has_mask {
        judged(opcode, masked(rest.subrange(4, 4 + length), rest.take(4)))
    } else {
        judged(opcode, rest.take(length))
    }
}

/// What the first frame of a stream asks for. A stream that ends too early, or
/// a frame longer than we buffer, closes the connection.
pub open spec fn incoming(stream: Seq<u8>) -> IncomingModel {
    if stream.len() < 2 {
        IncomingModel::Close
    } else {
        let width = extended_width(stream[1]);
        let opcode = stream[0] % 16;
        let has_mask = stream[1] >= 128;
        if stream.len() < 2 + width {
            IncomingModel::Close
        } else {
            let length = if width == 0 {
                (stream[1] % 128) as int
            } else {
                be_value(stream.subrange(2, 2 + width)) as int
            };
            rest_of_frame(opcode as int, has_mask, length, stream.skip(2 + width))
        }
    }
}

/// How far the reading of one client frame has come.
pub enum FrameReader {
    /// Nothing has been read.
    Header,
    /// The two header bytes are read; the length follows in `width` bytes.
    Extended { opcode: u8, has_mask: bool, width: usize },
    /// The length is known; the mask follows.
    Mask { opcode: u8, length: usize },
    /// The payload follows.
    Payload { opcode: u8, mask: Option<Vec<u8>>, length: usize },
    /// The frame is read.
    Done(Incoming),
}

impl FrameReader {
    /// What a reader can be in the middle of.
    pub open spec fn valid(&self) -> bool {
        match self {
            FrameReader::Header => true,
            FrameReader::Extended { opcode, has_mask, width } => *width == 2 || *width == 8,
            FrameReader::Mask { opcode, length } => *length <= MAX_FRAME,
            FrameReader::Payload { opcode, mask, length } => 0 < *length <= MAX_FRAME && (mask is Some
                ==> mask->0@.len() == 4),
            FrameReader::Done(_) => true,
        }
    }

    /// What a reader makes of the rest of the stream.
    pub open spec fn outcome(&self, rest: Seq<u8>) -> IncomingModel {
        match self {
            FrameReader::Header => incoming(rest),
            FrameReader::Extended { opcode, has_mask, width } => if rest.len() < *width {
                IncomingModel::Close
            } else {
                rest_of_frame(
                    *opcode as int,
                    *has_mask,
                    be_value(rest.take(*width as int)) as int,
                    rest.skip(*width as int),
                )
            },
            FrameReader::Mask { opcode, length } => rest_of_frame(
                *opcode as int,
                true,
                *length as int,
                rest,
            ),
            FrameReader::Payload { opcode, mask, length } => if rest.len() < *length {
                IncomingModel::Close
            } else {
                judged(
                    *opcode as int,
                    match mask {
                        Some(m) => masked(rest.take(*length as int), m@),
                        None => rest.take(*length as int),
                    },
                )
            },
            FrameReader::Done(incoming) => incoming@,
        }
    }

    /// How many bytes are to be read next.
    pub open spec fn need(&self) -> int {
        match self {
            FrameReader::Header => 2,
            FrameReader::Extended { opcode, has_mask, width } => *width as int,
            FrameReader::Mask { opcode, length } => 4,
            FrameReader::Payload { opcode, mask, length } => *length as int,
            FrameReader::Done(_) => 0,
        }
    }

    /// How many more reads a frame can take.
    pub open spec fn reads_left(&self) -> int {
        match self {
            FrameReader::Header => 4,
            FrameReader::Extended { opcode, has_mask, width } => 3,
            FrameReader::Mask { opcode, length } => 2,
            FrameReader::Payload { opcode, mask, length } => 1,
            FrameReader::Done(_) => 0,
        }
    }

    /// A reader that has read nothing.
    pub fn new() -> (r: FrameReader)
        ensures
            r.valid(),
            forall|stream: Seq<u8>| #[trigger] r.outcome(stream) == incoming(stream),
            r.reads_left() == 4,
    {
        FrameReader::Header
    }

    /// How many bytes to read next; none once the frame is read.
    pub fn wanted(&self) -> (r: usize)
        ensures
            r == self.need(),
            self.valid() ==> (r == 0 <==> self is Done),
    {
        match self {
            FrameReader::Header => 2,
            FrameReader::Extended { opcode, has_mask, width } => *width,
            FrameReader::Mask { opcode, length } => 4,
            FrameReader::Payload { opcode, mask, length } => *length,
            FrameReader::Done(_) => 0,
        }
    }

    /// Takes the bytes that were read, exactly as many as were wanted, or
    /// nothing where the stream ended or failed first.
    pub fn feed(self, bytes: Option<Vec<u8>>) -> (r: FrameReader)
        requires
            self.valid(),
            !(self is Done),
            bytes is Some ==> bytes->0@.len() == self.need(),
        ensures
            r.valid(),
            bytes is None ==> r == FrameReader::Done(Incoming::Close),
            bytes matches Some(read) ==> {
                forall|rest: Seq<u8>| #[trigger] r.outcome(rest) == self.outcome(read@ + rest)
            },
            r.reads_left() < self.reads_left(),
    {
        let read = match bytes {
            None => {
                return FrameReader::Done(Incoming::Close);
            },
            Some(read) => read,
        };
        let ghost stage = self;
        match self {
            FrameReader::Header => {
                let opcode = read[0] % 16;
                let has_mask = read[1] >= 128;
                let short = read[1] % 128;
                assert forall|rest: Seq<u8>| #[trigger] (read@ + rest).skip(2) =~= rest by {}
                if short == 126 || short == 127 {
                    let width: usize = if short == 126 {
                        2
                    } else {
                        8
                    };
                    let r = FrameReader::Extended { opcode, has_mask, width };
                    assert forall|rest: Seq<u8>| #[trigger]
                        r.outcome(rest) == stage.outcome(read@ + rest) by {
                        let all = read@ + rest;
                        assert(all.subrange(2, 2 + width) =~= rest.take(width as int) || rest.len()
                            < width);
                        assert(all.skip(2 + width) =~= rest.skip(width as int) || rest.len()
                            < width);
                    }
                    r
                } else {
                    let r = after_length(opcode, has_mask, short as u64);
                    assert forall|rest: Seq<u8>| #[trigger]
                        r.outcome(rest) == stage.outcome(read@ + rest) by {
                        let all = read@ + rest;
                        assert(all.skip(2) =~= rest);
                    }
                    r
                }
            },
            FrameReader::Extended { opcode, has_mask, width } => {
                let r = after_length(opcode, has_mask, be_number(read.as_slice()));
                assert forall|rest: Seq<u8>| #[trigger]
                    r.outcome(rest) == stage.outcome(read@ + rest) by {
                    let all = read@ + rest;
                    assert(all.take(width as int) =~= read@);
                    assert(all.skip(width as int) =~= rest);
                }
                r
            },
            FrameReader::Mask { opcode, length } => {
                let ghost bytes = read@;
                let r = if length == 0 {
                    FrameReader::Done(judge(opcode, Vec::new()))
                } else {
                    FrameReader::Payload { opcode, mask: Some(read), length }
                };
                assert forall|rest: Seq<u8>| #[trigger]
                    r.outcome(rest) == stage.outcome(bytes + rest) by {
                    let all = bytes + rest;
                    assert(all.take(4) =~= bytes);
                    if rest.len() >= length {
                        assert(all.subrange(4, 4 + length) =~= rest.take(length as int));
                        if length == 0 {
                            assert(masked(all.subrange(4, 4), all.take(4)) =~= Seq::<u8>::empty());
                        }
                    }
                }
                r
            },
            FrameReader::Payload { opcode, mask, length } => {
                let ghost bytes = read@;
                let ghost key = mask;
                let payload = match mask {
                    Some(mask) => unmask(read.as_slice(), mask.as_slice()),
                    None => read,
                };
                let r = FrameReader::Done(judge(opcode, payload));
                assert forall|rest: Seq<u8>| #[trigger]
                    r.outcome(rest) == stage.outcome(bytes + rest) by {
                    assert((bytes + rest).take(length as int) =~= bytes);
                }
                r
            },
            FrameReader::Done(incoming) => FrameReader::Done(incoming),
        }
    }
}

fn judge(opcode: u8, payload: Vec<u8>) -> (r: Incoming)
    ensures
        r@ == judged(opcode as int, payload@),
{
    if opcode == OP_CLOSE {
        Incoming::Close
    } else if opcode == OP_PING {
        Incoming::Pong(payload)
    } else {
        Incoming::Ignore
    }
}

fn unmask(payload: &[u8], mask: &[u8]) -> (r: Vec<u8>)
    requires
        mask@.len() == 4,
    ensures
        r@ == masked(payload@, mask@),
{
    let mut out: Vec<u8> = Vec::new();
    for i in 0..payload.len()
        invariant
            mask@.len() == 4,
            out@ == masked(payload@, mask@).take(i as int),
    {
        out.push(payload[i] ^ mask[i % 4]);
        assert(out@ =~= masked(payload@, mask@).take(i + 1));
    }
    assert(out@ =~= masked(payload@, mask@));
    out
}

fn after_length(opcode: u8, has_mask: bool, length: u64) -> (r: FrameReader)
    ensures
        r.valid(),
        forall|rest: Seq<u8>| #[trigger]
            r.outcome(rest) == rest_of_frame(opcode as int, has_mask, length as int, rest),
        r.reads_left() <= 2,
{
    if length > MAX_FRAME {
        return FrameReader::Done(Incoming::Close);
    }
    let length = length as usize;
    if has_mask {
        FrameReader::Mask { opcode, length }
    } else if length == 0 {
        let r = FrameReader::Done(judge(opcode, Vec::new()));
        assert forall|rest: Seq<u8>| #[trigger]
            r.outcome(rest) == rest_of_frame(opcode as int, has_mask, 0, rest) by {
            assert(rest.take(0) =~= Seq::<u8>::empty());
        }
        r
    } else {
        FrameReader::Payload { opcode, mask: None, length }
    }
}

/// Reads the first frame of a stream that is given whole.
///
/// Returns [`Incoming::Close`] on any protocol violation rather than trying to
/// resynchronise, since a browser that sends us a malformed frame is not a
/// connection worth keeping.
pub fn read_frame(stream: &[u8]) -> (r: Incoming)
    ensures
        r@ == incoming(stream@),
{
    let mut reader = FrameReader::new();
    let mut at: usize = 0;
    assert(stream@.skip(0) =~= stream@);
    loop
        invariant
            at <= stream@.len(),
            reader.valid(),
            reader.outcome(stream@.skip(at as int)) == incoming(stream@),
        decreases reader.reads_left(),
    {
        let want = reader.wanted();
        if let FrameReader::Done(incoming) = reader {
            return incoming;
        }
        if stream.len() - at < want {
            return Incoming::Close;
        }
        let read = vstd::slice::slice_to_vec(vstd::slice::slice_subrange(stream, at, at + want));
        proof {
            assert(stream@.skip(at as int) =~= read@ + stream@.skip(at + want));
        }
        reader = reader.feed(Some(read));
        at = at + want;
    }
}

/* -------------------------------------------------------------------- laws */

/// Masking a payload twice with the same mask gives the payload back.
pub proof fn law_masking_undoes_itself(payload: Seq<u8>, mask: Seq<u8>)
    requires
        mask.len() == 4,
    ensures
        masked(masked(payload, mask), mask) == payload,
{
    assert forall|i: int| 0 <= i < payload.len() implies masked(masked(payload, mask), mask)[i]
        == payload[i] by {
        let a = payload[i];
        let m = mask[i % 4];
        assert((a ^ m) ^ m == a) by (bit_vector);
    }
    assert(masked(masked(payload, mask), mask) =~= payload);
}

/// A frame as a client sends it: masked, with the mask before the payload.
pub open spec fn client_frame(opcode: u8, mask: Seq<u8>, payload: Seq<u8>) -> Seq<u8> {
    let lengths = length_bytes(payload.len());
    seq![0x80u8 | opcode, (lengths[0] + 128) as u8] + lengths.skip(1) + mask + masked(
        payload,
        mask,
    )
}

proof fn lemma_first_byte(opcode: u8)
    requires
        opcode < 16,
    ensures
        (0x80u8 | opcode) % 16 == opcode,
{
    assert((0x80u8 | opcode) % 16 == opcode) by (bit_vector)
        requires
            opcode < 16,
    ;
}

/// A frame that a client sends is taken for what it is, whatever its mask:
/// a ping is answered with its own payload, a close closes, and anything else
/// is ignored.
pub proof fn law_client_frames_are_understood(
    opcode: u8,
    mask: Seq<u8>,
    payload: Seq<u8>,
    later: Seq<u8>,
)
    requires
        opcode < 16,
        mask.len() == 4,
        payload.len() <= MAX_FRAME,
    ensures
        incoming(client_frame(opcode, mask, payload) + later) == judged(opcode as int, payload),
{
    let len = payload.len();
    let lengths = length_bytes(len);
    lemma_be_bounds();
    if 126 <= len <= 65535 {
        lemma_be_reads_back(len, 2);
    } else if len > 65535 {
        lemma_be_reads_back(len, 8);
    }
    let hidden = masked(payload, mask);
    let stream = client_frame(opcode, mask, payload) + later;
    let width = extended_width(stream[1]);
    lemma_first_byte(opcode);
    assert(stream[0] == 0x80u8 | opcode);
    assert(stream[1] == lengths[0] + 128);
    assert(lengths.len() == 1 + width);
    if width > 0 {
        assert(lengths.skip(1) =~= be_bytes(len, width as nat));
        assert(stream.subrange(2, 2 + width) =~= be_bytes(len, width as nat));
    }
    let rest = stream.skip(2 + width);
    assert(rest =~= mask + hidden + later);
    assert(rest.subrange(4, 4 + len as int) =~= hidden);
    assert(rest.take(4) =~= mask);
    law_masking_undoes_itself(payload, mask);
}

/// The first frame of a stream as its opcode and payload, where it is not
/// masked and all there.
pub open spec fn plain_contents(stream: Seq<u8>) -> Option<(int, Seq<u8>)> {
    let width = extended_width(stream[1]);
    let length = if width == 0 {
        (stream[1] % 128) as int
    } else {
        be_value(stream.subrange(2, 2 + width)) as int
    };
    if stream.len() < 2 || stream[1] >= 128 || stream.len() < 2 + width + length {
        None
    } else {
        Some(((stream[0] % 16) as int, stream.subrange(2 + width, 2 + width + length)))
    }
}

/// What a frame is written from can be read back out of it, at any length that
/// the format can carry.
pub proof fn law_frames_read_back(opcode: u8, payload: Seq<u8>, later: Seq<u8>)
    requires
        opcode < 16,
        payload.len() <= u64::MAX,
    ensures
        plain_contents(plain_frame(opcode, payload) + later) == Some((opcode as int, payload)),
{
    let len = payload.len();
    let lengths = length_bytes(len);
    lemma_be_bounds();
    if 126 <= len <= 65535 {
        lemma_be_reads_back(len, 2);
    } else if len > 65535 {
        lemma_be_reads_back(len, 8);
    }
    let stream = plain_frame(opcode, payload) + later;
    let width = extended_width(stream[1]);
    lemma_first_byte(opcode);
    assert(stream[0] == 0x80u8 | opcode);
    assert(stream[1] == lengths[0]);
    assert(lengths.len() == 1 + width);
    if width > 0 {
        assert(stream.subrange(2, 2 + width) =~= be_bytes(len, width as nat));
    }
    assert(stream.subrange(2 + width, 2 + width + len as int) =~= payload);
}

/// A control frame never carries more than the protocol allows.
pub proof fn law_control_frames_stay_small(opcode: u8, payload: Seq<u8>)
    ensures
        plain_frame(opcode, control_payload(payload)).len() <= 127,
        plain_frame(opcode, control_payload(payload))[1] <= 125,
{
    let kept = control_payload(payload);
    assert(length_bytes(kept.len()).len() == 1);
}

} // verus!
