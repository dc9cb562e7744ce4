//! What frames of HTTP/2 are made of is what is read of them.
use crate::capture::hpack::{after_block, TableView};
use crate::capture::http2::{
    after_frame, block_part, bodies, frame_at, has_flag, stream_at, unpadded, FrameView, SideView,
    StreamView,
};
use vstd::prelude::*;

verus! {

/// The bytes of a frame: the length of its payload in three bytes, its kind, its flags, its stream in
/// four bytes and its payload.
pub open spec fn frame_bytes(
    length: Seq<u8>,
    kind: u8,
    flags: u8,
    stream: Seq<u8>,
    payload: Seq<u8>,
) -> Seq<u8> {
    length + seq![kind, flags] + stream + payload
}

/// Three bytes are a length, the most significant first.
pub open spec fn is_length(bytes: Seq<u8>, n: int) -> bool {
    bytes.len() == 3 && 256 * (256 * bytes[0] + bytes[1]) + bytes[2] == n
}

/// A frame is read as what it was made of, wherever it stands; the highest bit of its stream does not
/// count.
pub proof fn frames_are_read(
    front: Seq<u8>,
    length: Seq<u8>,
    kind: u8,
    flags: u8,
    stream: Seq<u8>,
    payload: Seq<u8>,
    rest: Seq<u8>,
)
    requires
        is_length(length, payload.len() as int),
        stream.len() == 4,
    ensures
        ({
            let bytes = frame_bytes(length, kind, flags, stream, payload);
            let low = stream[0] % 128;
            frame_at(front + bytes + rest, front.len() as int) == Some(
                (
                    FrameView {
                        kind,
                        flags,
                        stream: 256 * (256 * (256 * low + stream[1]) + stream[2]) + stream[3],
                        payload,
                    },
                    (front.len() + 9 + payload.len()) as int,
                ),
            )
        }),
{
    let bytes = frame_bytes(length, kind, flags, stream, payload);
    let s = front + bytes + rest;
    let at = front.len() as int;
    let n = payload.len() as int;
    assert(s[at] == length[0] && s[at + 1] == length[1] && s[at + 2] == length[2]);
    assert(s[at + 3] == kind && s[at + 4] == flags);
    assert(s[at + 5] == stream[0] && s[at + 6] == stream[1] && s[at + 7] == stream[2] && s[at + 8]
        == stream[3]);
    assert(s.subrange(at + 9, at + 9 + n) =~= payload);
}

/// Flags are bits.
pub proof fn flags_are_bits(flags: u8)
    ensures
        has_flag(flags, 1) == (flags & 1 == 1),
        has_flag(flags, 4) == (flags & 4 == 4),
        has_flag(flags, 8) == (flags & 8 == 8),
        has_flag(flags, 32) == (flags & 32 == 32),
{
    assert(((flags / 1) % 2 == 1) == (flags & 1 == 1)) by (bit_vector);
    assert(((flags / 4) % 2 == 1) == (flags & 4 == 4)) by (bit_vector);
    assert(((flags / 8) % 2 == 1) == (flags & 8 == 8)) by (bit_vector);
    assert(((flags / 32) % 2 == 1) == (flags & 32 == 32)) by (bit_vector);
}

/// Padding is taken off: its length stands before what is padded, and it behind.
pub proof fn padding_is_taken_off(data: Seq<u8>, padding: Seq<u8>)
    requires
        padding.len() <= 255,
    ensures
        unpadded(seq![padding.len() as u8] + data + padding, true) == Some(data),
        unpadded(data, false) == Some(data),
{
    let s = seq![padding.len() as u8] + data + padding;
    assert(s[0] == padding.len() as u8);
    assert(s.subrange(1, s.len() - padding.len()) =~= data);
}

/// A priority of five bytes before a header block is passed over.
pub proof fn priorities_are_passed_over(frame: FrameView, priority: Seq<u8>, block: Seq<u8>)
    requires
        priority.len() == 5,
        frame.payload == priority + block,
        !has_flag(frame.flags, 8),
        has_flag(frame.flags, 32),
    ensures
        block_part(frame) == Some(block),
{
    assert((priority + block).subrange(5, 5 + block.len() as int) =~= block);
}

proof fn new_stream_is_found(streams: Seq<StreamView>, stream: StreamView, from: int)
    requires
        0 <= from <= streams.len(),
        stream_at(streams, stream.id, from) is None,
    ensures
        stream_at(streams.push(stream), stream.id, from) == Some(streams.len() as int),
    decreases streams.len() - from,
{
    let all = streams.push(stream);
    if from < streams.len() {
        assert(all[from] == streams[from]);
        new_stream_is_found(streams, stream, from + 1);
    }
}

/// A message of a header block and one frame of data is read as a stream that carries the data and
/// has ended; the other streams stay as they are.
pub proof fn messages_are_read(side: SideView, headers: FrameView, data: FrameView, table: TableView)
    requires
        side.open is None,
        !side.closing,
        headers.kind == 1,
        headers.stream > 0,
        data.kind == 0,
        data.stream == headers.stream,
        headers.flags == 4,
        data.flags == 1,
        stream_at(side.streams, headers.stream, 0) is None,
        after_block(side.table, headers.payload, 0) == Some(table),
    ensures
        ({
            let one = after_frame(side, headers);
            &&& one is Some
            &&& after_frame(one->0, data) == Some(
                SideView {
                    streams: side.streams.push(
                        StreamView { id: headers.stream, body: data.payload, ended: true },
                    ),
                    table,
                    ..side
                },
            )
        }),
{
    let none = Seq::<u8>::empty();
    let opened = StreamView { id: headers.stream, body: none, ended: false };
    new_stream_is_found(side.streams, opened, 0);
    let one = after_frame(side, headers)->0;
    assert(one.streams =~= side.streams.push(opened));
    let two = after_frame(one, data)->0;
    assert(none + data.payload =~= data.payload);
    assert(two.streams =~= side.streams.push(
        StreamView { id: headers.stream, body: data.payload, ended: true },
    ));
}

/// A message of a header block alone is read as a stream that carries nothing and has ended.
pub proof fn messages_without_body_are_read(side: SideView, headers: FrameView, table: TableView)
    requires
        side.open is None,
        !side.closing,
        headers.kind == 1,
        headers.stream > 0,
        headers.flags == 5,
        stream_at(side.streams, headers.stream, 0) is None,
        after_block(side.table, headers.payload, 0) == Some(table),
    ensures
        after_frame(side, headers) == Some(
            SideView {
                streams: side.streams.push(
                    StreamView { id: headers.stream, body: Seq::empty(), ended: true },
                ),
                table,
                ..side
            },
        ),
{
}

/// After the end of a connection was announced nothing more may come on its streams.
pub proof fn closed_connections_carry_nothing(side: SideView, last: FrameView, frame: FrameView)
    requires
        side.open is None,
        last.kind == 7,
        frame.kind == 0 || frame.kind == 1,
    ensures
        after_frame(side, last) is Some,
        after_frame(after_frame(side, last)->0, frame) is None,
{
}

/// What a stream carries is paired with what the stream of the same number carries the other way.
pub proof fn streams_are_paired_by_number(
    client: Seq<StreamView>,
    server: Seq<StreamView>,
    i: int,
    k: int,
)
    requires
        0 <= i < client.len(),
        0 <= k < server.len(),
        client[i].id == server[k].id,
        forall|j: int| 0 <= j < k ==> (#[trigger] server[j]).id != server[k].id,
    ensures
        bodies(client, server).len() == client.len(),
        bodies(client, server)[i] == (client[i].body, server[k].body),
{
    stream_is_at(server, client[i].id, 0, k);
}

proof fn stream_is_at(streams: Seq<StreamView>, id: int, from: int, k: int)
    requires
        0 <= from <= k < streams.len(),
        streams[k].id == id,
        forall|j: int| from <= j < k ==> (#[trigger] streams[j]).id != id,
    ensures
        stream_at(streams, id, from) == Some(k),
    decreases k - from,
{
    if from < k {
        assert(streams[from].id != id);
        stream_is_at(streams, id, from + 1, k);
    }
}

} // verus!
