//! What goes over the reload channel, byte by byte.

use vstd::prelude::*;
use vstd::utf8::encode_utf8;

use crate::connection::{
    acceptance, channel_reaction, opens_channel, reload_frame, ChannelEventModel, ChannelStepModel,
};
use crate::http::{asks_for_websocket, RequestModel};
use crate::reload::{message, ReloadModel};
use crate::text::join;
use crate::ws::{
    accept_value, base64_text, be_bytes, be_value, control_payload, extended_width, incoming,
    judged, length_bytes, masked, plain_frame, rest_of_frame, sha1_of, IncomingModel,
};

verus! {

/* ---------------------------------------------------------------------- lengths */

/// A length as it stands on the wire: in a byte, in two behind `126`, or in eight
/// behind `127`, the high ones first.
pub open spec fn wire_length(n: int) -> Seq<u8> {
    if n < 126 {
        seq![n as u8]
    } else if n < 0x1_0000 {
        seq![126u8, (n / 256) as u8, (n % 256) as u8]
    } else {
        seq![
            127u8,
            (n / 0x100_0000_0000_0000 % 256) as u8,
            (n / 0x1_0000_0000_0000 % 256) as u8,
            (n / 0x100_0000_0000 % 256) as u8,
            (n / 0x1_0000_0000 % 256) as u8,
            (n / 0x100_0000 % 256) as u8,
            (n / 0x1_0000 % 256) as u8,
            (n / 0x100 % 256) as u8,
            (n % 256) as u8,
        ]
    }
}

proof fn lemma_be_step(n: nat, width: nat)
    requires
        width > 0,
    ensures
        be_bytes(n, width) == be_bytes(n / 256, (width - 1) as nat).push((n % 256) as u8),
{
}

proof fn lemma_two_bytes(n: nat)
    ensures
        be_bytes(n, 2) == seq![(n / 256 % 256) as u8, (n % 256) as u8],
{
    lemma_be_step(n, 2);
    lemma_be_step(n / 256, 1);
    assert(be_bytes(n / 256 / 256, 0) =~= Seq::<u8>::empty());
    assert(be_bytes(n, 2) =~= seq![(n / 256 % 256) as u8, (n % 256) as u8]);
}

proof fn lemma_eight_bytes(n: nat)
    ensures
        be_bytes(n, 8) == wire_length(n as int).skip(1) || n < 0x1_0000,
{
    if n >= 0x1_0000 {
        let a = n / 256;
        let b = a / 256;
        let c = b / 256;
        let d = c / 256;
        let e = d / 256;
        let f = e / 256;
        let g = f / 256;
        lemma_be_step(n, 8);
        lemma_be_step(a, 7);
        lemma_be_step(b, 6);
        lemma_be_step(c, 5);
        lemma_be_step(d, 4);
        lemma_be_step(e, 3);
        lemma_be_step(f, 2);
        lemma_be_step(g, 1);
        assert(be_bytes(g / 256, 0) =~= Seq::<u8>::empty());
        assert(b == n / 0x1_0000);
        assert(c == n / 0x100_0000);
        assert(d == n / 0x1_0000_0000);
        assert(e == n / 0x100_0000_0000);
        assert(f == n / 0x1_0000_0000_0000);
        assert(g == n / 0x100_0000_0000_0000);
        assert(be_bytes(n, 8) =~= wire_length(n as int).skip(1));
    }
}

/// Lengths are written in as few bytes as there are forms for, the high ones
/// first.
pub proof fn law_lengths_are_written_high_byte_first(n: nat)
    ensures
        length_bytes(n) == wire_length(n as int),
{
    if 126 <= n < 0x1_0000 {
        lemma_two_bytes(n);
        assert(length_bytes(n) =~= wire_length(n as int));
    } else if n >= 0x1_0000 {
        lemma_eight_bytes(n);
        assert(length_bytes(n) =~= wire_length(n as int));
    }
}

/// Lengths are read with the high byte first: every further byte counts for
/// itself, and those before it for 256 times as much.
pub proof fn law_lengths_are_read_high_byte_first(bytes: Seq<u8>, b: u8)
    ensures
        be_value(Seq::<u8>::empty()) == 0,
        be_value(bytes.push(b)) == 256 * be_value(bytes) + b,
{
    assert(bytes.push(b).drop_last() =~= bytes);
}

/* ----------------------------------------------------------------------- frames */

/// A frame of the server is one byte for its kind, the length of what it carries,
/// and that.
pub proof fn law_frames_carry_their_payload(opcode: u8, payload: Seq<u8>)
    requires
        opcode < 16,
    ensures
        plain_frame(opcode, payload) == seq![(128 + opcode) as u8] + wire_length(
            payload.len() as int,
        ) + payload,
{
    law_lengths_are_written_high_byte_first(payload.len());
    assert(0x80u8 | opcode == 128 + opcode) by (bit_vector)
        requires
            opcode < 16,
    ;
}

/// Each byte of a masked payload is combined with the byte of the mask whose turn
/// it is.
pub proof fn law_the_mask_goes_round(payload: Seq<u8>, mask: Seq<u8>, i: int)
    requires
        0 <= i < payload.len(),
    ensures
        masked(payload, mask).len() == payload.len(),
        masked(payload, mask)[i] == payload[i] ^ mask[i % 4],
{
}

/// A close closes, a ping is answered with what it carries, and nothing else is
/// minded.
pub proof fn law_what_frames_ask_for(opcode: int, payload: Seq<u8>)
    ensures
        opcode == 8 ==> judged(opcode, payload) == IncomingModel::Close,
        opcode == 9 ==> judged(opcode, payload) == IncomingModel::Pong(payload),
        opcode != 8 && opcode != 9 ==> judged(opcode, payload) == IncomingModel::Ignore,
{
}

/// Whether bytes say a length: one below `126`, two behind `126`, or eight behind
/// `127`. A length may be said in more bytes than it takes.
pub open spec fn says_length(lengths: Seq<u8>, n: int) -> bool {
    ||| lengths.len() == 1 && lengths[0] < 126 && n == lengths[0]
    ||| lengths.len() == 3 && lengths[0] == 126 && n == be_value(lengths.skip(1))
    ||| lengths.len() == 9 && lengths[0] == 127 && n == be_value(lengths.skip(1))
}

/// What stands behind the length of a frame.
pub open spec fn wire_rest(mask: Option<Seq<u8>>, payload: Seq<u8>) -> Seq<u8> {
    match mask {
        Some(mask) => mask + Seq::new(payload.len(), |i: int| payload[i] ^ mask[i % 4]),
        None => payload,
    }
}

/// A frame as it stands on the wire: a byte whose low half is its kind, its
/// length, marked where it is masked, and the rest.
pub open spec fn wire_frame(
    first: u8,
    lengths: Seq<u8>,
    mask: Option<Seq<u8>>,
    payload: Seq<u8>,
) -> Seq<u8> {
    let second = if mask is Some {
        (lengths[0] + 128) as u8
    } else {
        lengths[0]
    };
    seq![first, second] + lengths.skip(1) + wire_rest(mask, payload)
}

/// A frame is read for what it carries, masked or not, whatever its flags, however
/// its length is said and whatever follows it.
pub proof fn law_frames_are_read_whole(
    first: u8,
    lengths: Seq<u8>,
    mask: Option<Seq<u8>>,
    payload: Seq<u8>,
    later: Seq<u8>,
)
    requires
        mask matches Some(bytes) ==> bytes.len() == 4,
        says_length(lengths, payload.len() as int),
        payload.len() <= 65536,
    ensures
        incoming(wire_frame(first, lengths, mask, payload) + later) == judged(
            first as int % 16,
            payload,
        ),
{
    lemma_frame_read(first, lengths, mask, payload, later);
    match mask {
        Some(bytes) => {
            let hidden = Seq::new(payload.len(), |i: int| payload[i] ^ bytes[i % 4]);
            assert(hidden =~= masked(payload, bytes));
            crate::ws::law_masking_undoes_itself(payload, bytes);
            let rest = bytes + hidden + later;
            assert(rest.subrange(4, 4 + payload.len() as int) =~= hidden);
            assert(rest.take(4) =~= bytes);
        },
        None => {
            let rest = payload + later;
            assert(rest.take(payload.len() as int) =~= payload);
        },
    }
}

proof fn lemma_frame_read(
    first: u8,
    lengths: Seq<u8>,
    mask: Option<Seq<u8>>,
    payload: Seq<u8>,
    later: Seq<u8>,
)
    requires
        mask matches Some(bytes) ==> bytes.len() == 4,
        says_length(lengths, payload.len() as int),
    ensures
        incoming(wire_frame(first, lengths, mask, payload) + later) == rest_of_frame(
            first as int % 16,
            mask is Some,
            payload.len() as int,
            wire_rest(mask, payload) + later,
        ),
{
    let stream = wire_frame(first, lengths, mask, payload) + later;
    let width = extended_width(lengths[0]);
    assert(stream[0] == first);
    assert(stream[1] % 128 == lengths[0]);
    assert(lengths.len() == 1 + width);
    assert(stream.skip(2 + width) =~= wire_rest(mask, payload) + later);
    if width > 0 {
        assert(stream.subrange(2, 2 + width) =~= lengths.skip(1));
    }
}

/// A frame that says it carries more than is buffered closes the connection, and
/// so does one that ends before all of it is there.
pub proof fn law_frames_that_cannot_be_read_close(
    first: u8,
    lengths: Seq<u8>,
    mask: Option<Seq<u8>>,
    payload: Seq<u8>,
    later: Seq<u8>,
    n: int,
)
    requires
        mask matches Some(bytes) ==> bytes.len() == 4,
        says_length(lengths, payload.len() as int),
    ensures
        payload.len() > 65536 ==> incoming(wire_frame(first, lengths, mask, payload) + later)
            == IncomingModel::Close,
        0 <= n < wire_frame(first, lengths, mask, payload).len() ==> incoming(
            wire_frame(first, lengths, mask, payload).take(n),
        ) == IncomingModel::Close,
{
    let frame = wire_frame(first, lengths, mask, payload);
    lemma_frame_read(first, lengths, mask, payload, later);
    if 0 <= n < frame.len() {
        let width = extended_width(lengths[0]);
        let part = frame.take(n);
        assert(lengths.len() == 1 + width);
        if n >= 2 {
            assert(frame[1] % 128 == lengths[0]);
            assert(part[1] == frame[1] && part[0] == frame[0]);
            if n >= 2 + width {
                if width > 0 {
                    assert(part.subrange(2, 2 + width) =~= lengths.skip(1));
                }
                assert(part.skip(2 + width).len() == n - 2 - width);
            }
        }
    }
}

/// A control frame carries the beginning of what it is given, as much as fits.
pub proof fn law_control_frames_carry_what_fits(payload: Seq<u8>)
    ensures
        payload.len() <= 125 ==> control_payload(payload) == payload,
        payload.len() > 125 ==> control_payload(payload) == payload.take(125),
{
}

/* ---------------------------------------------------------------------- channel */

/// The channel is opened at its own path, by a request for a WebSocket, and
/// nowhere else.
pub proof fn law_the_channel_has_its_own_path(request: RequestModel)
    ensures
        opens_channel(request) == (request.target == "/__live_reload/ws"@ && asks_for_websocket(
            request,
        )),
{
}

/// The channel is accepted with a head that answers the key of the client: the
/// digest of the key and of what the protocol prescribes.
pub proof fn law_the_channel_is_accepted_for_its_key(key: Seq<char>)
    ensures
        acceptance(key) == join(
            seq![
                "HTTP/1.1 101 Switching Protocols"@,
                "Upgrade: websocket"@,
                "Connection: Upgrade"@,
                "Sec-WebSocket-Accept: "@ + accept_value(key),
            ],
            "\r\n"@,
        ) + "\r\n\r\n"@,
        accept_value(key) == base64_text(
            sha1_of(encode_utf8(key) + encode_utf8("258EAFA5-E914-47DA-95CA-C5AB0DC85B11"@)),
        ),
{
    reveal_strlit("\r\n");
    reveal_strlit("\r\n\r\n");
    reveal_strlit("HTTP/1.1 101 Switching Protocols");
    reveal_strlit("Upgrade: websocket");
    reveal_strlit("Connection: Upgrade");
    reveal_strlit("Sec-WebSocket-Accept: ");
    reveal_strlit(
        "HTTP/1.1 101 Switching Protocols\r\nUpgrade: websocket\r\nConnection: Upgrade\r\nSec-WebSocket-Accept: ",
    );
    let end = "\r\n"@;
    let a = "HTTP/1.1 101 Switching Protocols"@;
    let b = "Upgrade: websocket"@;
    let c = "Connection: Upgrade"@;
    let d = "Sec-WebSocket-Accept: "@ + accept_value(key);
    let four = seq![a, b, c, d];
    assert(four.drop_last() =~= seq![a, b, c]);
    assert(seq![a, b, c].drop_last() =~= seq![a, b]);
    assert(seq![a, b].drop_last() =~= seq![a]);
    assert(join(seq![a], end) == a);
    assert(join(seq![a, b], end) == a + end + b);
    assert(join(seq![a, b, c], end) == a + end + b + end + c);
    assert(join(four, end) == a + end + b + end + c + end + d);
    assert(acceptance(key) =~= join(four, end) + "\r\n\r\n"@);
}

/// Every broadcast reaches the browser in a text frame, a browser that missed some
/// reloads the page, a ping is answered by a pong, and the channel is closed where
/// the browser, the broadcasts or the server end it.
pub proof fn law_the_channel_passes_on_reloads(reload: ReloadModel, payload: Seq<u8>)
    requires
        payload.len() <= 125,
    ensures
        ({
            let text = |bytes: Seq<u8>|
                ChannelStepModel::Send(seq![129u8] + wire_length(bytes.len() as int) + bytes);
            &&& channel_reaction(ChannelEventModel::Reload(reload)) == text(
                encode_utf8(message(reload)),
            )
            &&& channel_reaction(ChannelEventModel::Lagged) == text(
                encode_utf8(message(ReloadModel::Full)),
            )
            &&& channel_reaction(ChannelEventModel::Frame(IncomingModel::Pong(payload)))
                == ChannelStepModel::Send(seq![138u8, payload.len() as u8] + payload)
            &&& channel_reaction(ChannelEventModel::Frame(IncomingModel::Close))
                == ChannelStepModel::Close
            &&& channel_reaction(ChannelEventModel::Frame(IncomingModel::Ignore))
                == ChannelStepModel::Wait
            &&& channel_reaction(ChannelEventModel::Shutdown) == ChannelStepModel::Close
            &&& channel_reaction(ChannelEventModel::Ended) == ChannelStepModel::Close
        }),
{
    law_frames_carry_their_payload(1, encode_utf8(message(reload)));
    law_frames_carry_their_payload(1, encode_utf8(message(ReloadModel::Full)));
    law_frames_carry_their_payload(10, payload);
    assert(reload_frame(reload) == plain_frame(1, encode_utf8(message(reload))));
    assert(seq![138u8] + wire_length(payload.len() as int) + payload =~= seq![
        138u8,
        payload.len() as u8,
    ] + payload);
}

} // verus!
