//! Transactions over HTTP/2.
use crate::bytes::{ascii, ascii_bytes, occurs_at, starts_with};
use crate::capture::hpack::{after_block, is_short, new_table, Table, TableView};
use crate::capture::http::{http2_views, Http2Transaction};
use crate::capture::packet::{be32, read_be32};
use vstd::prelude::*;

verus! {

/// What a client sends first.
pub open spec fn preface() -> Seq<u8> {
    ascii("PRI * HTTP/2.0\r\n\r\nSM\r\n\r\n"@)
}

/// A frame.
#[verifier::ext_equal]
pub struct FrameView {
    pub kind: u8,
    pub flags: u8,
    pub stream: int,
    pub payload: Seq<u8>,
}

/// The number that three bytes denote, the most significant first.
pub open spec fn be24(data: Seq<u8>, at: int) -> int {
    data[at] * 0x1_0000 + data[at + 1] * 0x100 + data[at + 2]
}

/// The frame at a position, and the position behind it; nothing where it is cut off.
pub open spec fn frame_at(data: Seq<u8>, at: int) -> Option<(FrameView, int)> {
    if at + 9 > data.len() || at + 9 + be24(data, at) > data.len() {
        None
    } else {
        let end = at + 9 + be24(data, at);
        Some(
            (
                FrameView {
                    kind: data[at + 3],
                    flags: data[at + 4],
                    stream: be32(data, at + 5) % 0x8000_0000,
                    payload: data.subrange(at + 9, end),
                },
                end,
            ),
        )
    }
}

/// A flag is set.
pub open spec fn has_flag(flags: u8, flag: int) -> bool {
    (flags as int / flag) % 2 == 1
}

/// One direction of a stream.
#[verifier::ext_equal]
pub struct StreamView {
    pub id: int,
    pub body: Seq<u8>,
    pub ended: bool,
}

/// A header block of which some parts are still to come.
#[verifier::ext_equal]
pub struct OpenView {
    pub id: int,
    /// Nothing follows the block on its stream.
    pub ends: bool,
    pub block: Seq<u8>,
}

/// One direction of a connection: its streams in the order in which they were opened, the header
/// block that is not whole yet, what its header blocks may refer to, and whether its end was
/// announced.
#[verifier::ext_equal]
pub struct SideView {
    pub streams: Seq<StreamView>,
    pub open: Option<OpenView>,
    pub table: TableView,
    pub closing: bool,
}

/// A direction before any frame.
pub open spec fn new_side() -> SideView {
    SideView { streams: Seq::empty(), open: None, table: new_table(), closing: false }
}

/// The first stream at or after `from` with a number.
pub open spec fn stream_at(streams: Seq<StreamView>, id: int, from: int) -> Option<int>
    decreases streams.len() - from,
{
    if from >= streams.len() {
        None
    } else if streams[from].id == id {
        Some(from)
    } else {
        stream_at(streams, id, from + 1)
    }
}

/// A payload without its padding, where it has some.
pub open spec fn unpadded(payload: Seq<u8>, padded: bool) -> Option<Seq<u8>> {
    if !padded {
        Some(payload)
    } else if payload.len() == 0 || 1 + payload[0] > payload.len() {
        None
    } else {
        Some(payload.subrange(1, payload.len() - payload[0]))
    }
}

/// The part of a header block in a frame, without padding and priority.
pub open spec fn block_part(frame: FrameView) -> Option<Seq<u8>> {
    match unpadded(frame.payload, has_flag(frame.flags, 8)) {
        None => None,
        Some(part) => if !has_flag(frame.flags, 32) {
            Some(part)
        } else if part.len() < 5 {
            None
        } else {
            Some(part.subrange(5, part.len() as int))
        },
    }
}

/// A direction with more bytes on a stream; nothing where the stream is not open.
pub open spec fn with_data(side: SideView, id: int, data: Seq<u8>, ends: bool) -> Option<SideView> {
    match stream_at(side.streams, id, 0) {
        Some(i) if !side.streams[i].ended => Some(
            SideView {
                streams: side.streams.update(
                    i,
                    StreamView { id, body: side.streams[i].body + data, ended: ends },
                ),
                ..side
            },
        ),
        _ => None,
    }
}

/// A direction with a whole header block on a stream: it opens the stream, or goes on in it.
/// Nothing where the block cannot be read or the stream has ended.
pub open spec fn with_block(side: SideView, id: int, block: Seq<u8>, ends: bool) -> Option<SideView> {
    match after_block(side.table, block, 0) {
        None => None,
        Some(table) => match stream_at(side.streams, id, 0) {
            None => Some(
                SideView {
                    streams: side.streams.push(StreamView { id, body: Seq::empty(), ended: ends }),
                    table,
                    ..side
                },
            ),
            Some(i) => if side.streams[i].ended {
                None
            } else {
                Some(
                    SideView {
                        streams: side.streams.update(
                            i,
                            StreamView { ended: ends, ..side.streams[i] },
                        ),
                        table,
                        ..side
                    },
                )
            },
        },
    }
}

/// A direction after the next part of a header block.
pub open spec fn with_part(side: SideView, open: OpenView, last: bool) -> Option<SideView> {
    if last {
        with_block(SideView { open: None, ..side }, open.id, open.block, open.ends)
    } else {
        Some(SideView { open: Some(open), ..side })
    }
}

/// A direction after a frame. There is nothing to replay where a stream was reset or pushed, a
/// header block is interrupted, or streams go on after the end of the connection was announced.
pub open spec fn after_frame(side: SideView, frame: FrameView) -> Option<SideView> {
    let id = frame.stream;
    let whole = has_flag(frame.flags, 4);
    match side.open {
        Some(open) => if frame.kind == 9 && id == open.id {
            with_part(side, OpenView { block: open.block + frame.payload, ..open }, whole)
        } else {
            None
        },
        None => if frame.kind == 0 {
            match unpadded(frame.payload, has_flag(frame.flags, 8)) {
                Some(data) if !side.closing => with_data(side, id, data, has_flag(frame.flags, 1)),
                _ => None,
            }
        } else if frame.kind == 1 {
            match block_part(frame) {
                Some(block) if !side.closing && id > 0 => with_part(
                    side,
                    OpenView { id, ends: has_flag(frame.flags, 1), block },
                    whole,
                ),
                _ => None,
            }
        } else if frame.kind == 3 || frame.kind == 5 || frame.kind == 9 {
            None
        } else if frame.kind == 7 {
            Some(SideView { closing: true, ..side })
        } else {
            Some(side)
        },
    }
}

/// A direction after the frames from a position on; nothing where one is cut off.
pub open spec fn after_frames(side: SideView, data: Seq<u8>, at: int) -> Option<SideView>
    decreases data.len() - at,
{
    if at >= data.len() {
        Some(side)
    } else {
        match frame_at(data, at) {
            Some((frame, next)) if at < next <= data.len() => match after_frame(side, frame) {
                Some(more) => after_frames(more, data, next),
                None => None,
            },
            _ => None,
        }
    }
}

/// Every stream of a direction has ended.
pub open spec fn is_done(side: SideView) -> bool {
    &&& side.open is None
    &&& forall|i: int| 0 <= i < side.streams.len() ==> (#[trigger] side.streams[i]).ended
}

/// Every stream of the client is one of the server too.
pub open spec fn are_answered(client: Seq<StreamView>, server: Seq<StreamView>) -> bool {
    forall|i: int|
        0 <= i < client.len() ==> stream_at(server, (#[trigger] client[i]).id, 0) is Some
}

/// What each stream carries from the client and from the server.
pub open spec fn bodies(client: Seq<StreamView>, server: Seq<StreamView>) -> Seq<
    (Seq<u8>, Seq<u8>),
> {
    Seq::new(
        client.len(),
        |i: int| (client[i].body, server[stream_at(server, client[i].id, 0)->0].body),
    )
}

/// What the requests and responses of a connection carry, in the order in which the client opened
/// the streams. There is nothing unless the client starts as HTTP/2 does, both directions consist
/// of whole frames that can be followed, and every stream has a whole request and a whole response.
#[verifier::opaque]
pub open spec fn http2_transactions(client: Seq<u8>, server: Seq<u8>) -> Option<
    Seq<(Seq<u8>, Seq<u8>)>,
> {
    if !occurs_at(client, preface(), 0) {
        None
    } else {
        let requests = after_frames(
            new_side(),
            client.subrange(preface().len() as int, client.len() as int),
            0,
        );
        match (requests, after_frames(new_side(), server, 0)) {
            (Some(c), Some(s)) => if is_done(c) && is_done(s) && 0 < c.streams.len()
                == s.streams.len() && are_answered(c.streams, s.streams) {
                Some(bodies(c.streams, s.streams))
            } else {
                None
            },
            _ => None,
        }
    }
}

/// No two streams have one number.
pub open spec fn are_distinct(streams: Seq<StreamView>) -> bool {
    forall|i: int, j: int|
        0 <= i < j < streams.len() ==> (#[trigger] streams[i]).id != (#[trigger] streams[j]).id
}

/// A direction after two frames.
pub open spec fn after_both(side: SideView, first: FrameView, second: FrameView) -> Option<
    SideView,
> {
    match after_frame(side, first) {
        Some(more) => after_frame(more, second),
        None => None,
    }
}

proof fn stream_at_finds(streams: Seq<StreamView>, id: int, from: int)
    requires
        0 <= from,
    ensures
        match stream_at(streams, id, from) {
            Some(i) => from <= i < streams.len() && streams[i].id == id,
            None => forall|j: int| from <= j < streams.len() ==> (#[trigger] streams[j]).id != id,
        },
    decreases streams.len() - from,
{
    if from < streams.len() && streams[from].id != id {
        stream_at_finds(streams, id, from + 1);
    }
}

proof fn same_numbers_same_place(a: Seq<StreamView>, b: Seq<StreamView>, id: int, from: int)
    requires
        0 <= from,
        a.len() == b.len(),
        forall|j: int| 0 <= j < a.len() ==> (#[trigger] a[j]).id == (#[trigger] b[j]).id,
    ensures
        stream_at(a, id, from) == stream_at(b, id, from),
    decreases a.len() - from,
{
    if from < a.len() && a[from].id != id {
        same_numbers_same_place(a, b, id, from + 1);
    }
}

/// The streams that a direction has are told apart by their numbers, whatever frames come.
pub proof fn streams_stay_distinct(side: SideView, data: Seq<u8>, at: int)
    requires
        0 <= at,
        are_distinct(side.streams),
    ensures
        match after_frames(side, data, at) {
            Some(more) => are_distinct(more.streams),
            None => true,
        },
    decreases data.len() - at,
{
    if at < data.len() {
        match frame_at(data, at) {
            Some((frame, next)) if at < next <= data.len() => {
                stream_at_finds(side.streams, frame.stream, 0);
                match side.open {
                    Some(open) => {
                        stream_at_finds(side.streams, open.id, 0);
                    },
                    None => {},
                }
                match after_frame(side, frame) {
                    Some(more) => {
                        streams_stay_distinct(more, data, next);
                    },
                    None => {},
                }
            },
            _ => {},
        }
    }
}

/// Frames of streams may come interleaved: two that carry data of different streams lead to the
/// same either way round.
pub proof fn data_of_streams_may_interleave(side: SideView, first: FrameView, second: FrameView)
    requires
        first.kind == 0,
        second.kind == 0,
        first.stream != second.stream,
    ensures
        after_both(side, first, second) == after_both(side, second, first),
{
    let (a, b) = (first.stream, second.stream);
    stream_at_finds(side.streams, a, 0);
    stream_at_finds(side.streams, b, 0);
    match after_frame(side, first) {
        Some(more) => {
            same_numbers_same_place(side.streams, more.streams, b, 0);
        },
        None => {},
    }
    match after_frame(side, second) {
        Some(more) => {
            same_numbers_same_place(side.streams, more.streams, a, 0);
        },
        None => {},
    }
    match (after_both(side, first, second), after_both(side, second, first)) {
        (Some(x), Some(y)) => {
            assert(x.streams =~= y.streams);
        },
        _ => {},
    }
}

/// A body may be cut up at will: a part that does not end the stream and a second part are worth
/// both in one.
pub proof fn data_may_be_split(side: SideView, id: int, first: Seq<u8>, second: Seq<u8>, ends: bool)
    ensures
        match with_data(side, id, first, false) {
            Some(more) => with_data(more, id, second, ends),
            None => None,
        } == with_data(side, id, first + second, ends),
{
    stream_at_finds(side.streams, id, 0);
    match with_data(side, id, first, false) {
        Some(more) => {
            same_numbers_same_place(side.streams, more.streams, id, 0);
            match (with_data(more, id, second, ends), with_data(side, id, first + second, ends)) {
                (Some(x), Some(y)) => {
                    let i = stream_at(side.streams, id, 0)->0;
                    assert(x.streams[i].body =~= y.streams[i].body);
                    assert(x.streams =~= y.streams);
                },
                _ => {},
            }
        },
        None => {},
    }
}

/// A header block may be cut up at will: its start and a frame with the rest of it are worth both
/// in one.
pub proof fn header_blocks_may_be_split(side: SideView, open: OpenView, frame: FrameView)
    requires
        frame.kind == 9,
        frame.stream == open.id,
        side.open is None,
    ensures
        match with_part(side, open, false) {
            Some(more) => after_frame(more, frame),
            None => None,
        } == with_part(
            side,
            OpenView { block: open.block + frame.payload, ..open },
            has_flag(frame.flags, 4),
        ),
{
}

/// Frames that carry neither headers nor data of a stream, and reset or push none, change nothing
/// of what is read.
pub proof fn other_frames_are_passed_over(side: SideView, frame: FrameView)
    requires
        side.open is None,
        frame.kind == 2 || frame.kind == 4 || frame.kind == 6 || frame.kind == 8 || frame.kind > 9,
    ensures
        after_frame(side, frame) == Some(side),
{
}

/// A reset or pushed stream leaves nothing to replay.
pub proof fn reset_and_pushed_streams_are_refused(side: SideView, frame: FrameView)
    requires
        frame.kind == 3 || frame.kind == 5,
    ensures
        after_frame(side, frame) is None,
{
}

/// What is read has at least one transaction, and only from a client that starts as HTTP/2 does.
pub proof fn readings_are_of_http2(client: Seq<u8>, server: Seq<u8>)
    requires
        http2_transactions(client, server) is Some,
    ensures
        occurs_at(client, preface(), 0),
        http2_transactions(client, server)->0.len() > 0,
{
    reveal(http2_transactions);
}

/// One direction of a stream.
struct Stream {
    id: u32,
    body: Vec<u8>,
    ended: bool,
}

impl View for Stream {
    type V = StreamView;

    closed spec fn view(&self) -> StreamView {
        StreamView { id: self.id as int, body: self.body@, ended: self.ended }
    }
}

/// A header block of which some parts are still to come.
struct Open {
    id: u32,
    ends: bool,
    block: Vec<u8>,
}

impl View for Open {
    type V = OpenView;

    closed spec fn view(&self) -> OpenView {
        OpenView { id: self.id as int, ends: self.ends, block: self.block@ }
    }
}

/// One direction of a connection.
struct Side {
    streams: Vec<Stream>,
    open: Option<Open>,
    table: Table,
    closing: bool,
}

/// What streams are.
spec fn stream_views(list: Seq<Stream>) -> Seq<StreamView> {
    list.map_values(|s: Stream| s@)
}

impl View for Side {
    type V = SideView;

    closed spec fn view(&self) -> SideView {
        SideView {
            streams: stream_views(self.streams@),
            open: match self.open {
                Some(open) => Some(open@),
                None => None,
            },
            table: self.table@,
            closing: self.closing,
        }
    }
}

/// Whether a flag is set.
fn flag_is_set(flags: u8, flag: u8) -> (r: bool)
    requires
        flag > 0,
    ensures
        r == has_flag(flags, flag as int),
{
    (flags / flag) % 2 == 1
}

/// A payload without its padding.
fn without_padding(payload: &[u8], padded: bool) -> (r: Option<&[u8]>)
    ensures
        match r {
            Some(part) => unpadded(payload@, padded) == Some(part@),
            None => unpadded(payload@, padded) is None,
        },
{
    let size: usize = payload.len();
    if !padded {
        return Some(payload);
    }
    if size == 0 || payload[0] as usize > size - 1 {
        return None;
    }
    let end: usize = size - payload[0] as usize;
    Some(&payload[1..end])
}

/// The part of a header block in a frame.
fn read_part(flags: u8, payload: &[u8], Ghost(frame): Ghost<FrameView>) -> (r: Option<&[u8]>)
    requires
        frame.flags == flags,
        frame.payload == payload@,
    ensures
        match r {
            Some(part) => block_part(frame) == Some(part@),
            None => block_part(frame) is None,
        },
{
    match without_padding(payload, flag_is_set(flags, 8)) {
        None => None,
        Some(part) => {
            let size: usize = part.len();
            if !flag_is_set(flags, 32) {
                Some(part)
            } else if size < 5 {
                None
            } else {
                Some(&part[5..size])
            }
        },
    }
}

/// A copy of bytes behind others.
fn extend(list: &mut Vec<u8>, data: &[u8])
    ensures
        final(list)@ == old(list)@ + data@,
{
    list.extend_from_slice(data);
    assert(list@ =~= old(list)@ + data@);
}

impl Side {
    fn new() -> (r: Side)
        ensures
            r@ == new_side(),
            is_short(r.table),
    {
        let r = Side { streams: Vec::new(), open: None, table: Table::default(), closing: false };
        assert(r@.streams =~= Seq::empty());
        r
    }

    /// The first stream with a number.
    fn find(&self, id: u32) -> (r: Option<usize>)
        ensures
            match r {
                Some(i) => stream_at(self@.streams, id as int, 0) == Some(i as int) && i
                    < self.streams@.len() && self.streams@[i as int].id == id,
                None => stream_at(self@.streams, id as int, 0) is None,
            },
    {
        let mut i: usize = 0;
        while i < self.streams.len()
            invariant
                i <= self.streams@.len(),
                stream_at(self@.streams, id as int, 0) == stream_at(
                    self@.streams,
                    id as int,
                    i as int,
                ),
            decreases self.streams@.len() - i,
        {
            assert(self@.streams[i as int] == self.streams@[i as int]@);
            if self.streams[i].id == id {
                return Some(i);
            }
            i += 1;
        }
        None
    }

    /// Takes bytes on a stream.
    fn take_data(&mut self, id: u32, data: &[u8], ends: bool) -> (r: bool)
        requires
            is_short(old(self).table),
        ensures
            r == (with_data(old(self)@, id as int, data@, ends) is Some),
            r ==> final(self)@ == with_data(old(self)@, id as int, data@, ends)->0,
            is_short(final(self).table),
    {
        match self.find(id) {
            None => false,
            Some(i) => {
                let ghost before = self@;
                let ghost list = self.streams@;
                assert(before.streams[i as int] == list[i as int]@);
                if self.streams[i].ended {
                    return false;
                }
                let mut body: Vec<u8> = Vec::new();
                extend(&mut body, self.streams[i].body.as_slice());
                extend(&mut body, data);
                assert(body@ =~= list[i as int].body@ + data@);
                self.streams[i] = Stream { id, body, ended: ends };
                assert(self@.streams =~= before.streams.update(
                    i as int,
                    StreamView {
                        id: id as int,
                        body: before.streams[i as int].body + data@,
                        ended: ends,
                    },
                ));
                true
            },
        }
    }

    /// Takes a whole header block.
    fn take_block(&mut self, id: u32, block: &[u8], ends: bool) -> (r: bool)
        requires
            is_short(old(self).table),
        ensures
            r == (with_block(old(self)@, id as int, block@, ends) is Some),
            r ==> final(self)@ == with_block(old(self)@, id as int, block@, ends)->0,
            is_short(final(self).table),
    {
        let ghost before = self@;
        let ghost list = self.streams@;
        if !self.table.take_block(block) {
            return false;
        }
        assert(self@.streams == before.streams);
        match self.find(id) {
            None => {
                let stream = Stream { id, body: Vec::new(), ended: ends };
                assert(stream@.body =~= Seq::empty());
                self.streams.push(stream);
                assert(self@.streams =~= before.streams.push(stream@));
                true
            },
            Some(i) => {
                assert(before.streams[i as int] == list[i as int]@);
                if self.streams[i].ended {
                    return false;
                }
                self.streams[i].ended = ends;
                assert(self@.streams =~= before.streams.update(
                    i as int,
                    StreamView { ended: ends, ..before.streams[i as int] },
                ));
                true
            },
        }
    }

    /// Takes the next part of a header block.
    fn take_part(&mut self, open: Open, last: bool) -> (r: bool)
        requires
            is_short(old(self).table),
        ensures
            r == (with_part(old(self)@, open@, last) is Some),
            r ==> final(self)@ == with_part(old(self)@, open@, last)->0,
            is_short(final(self).table),
    {
        if last {
            self.open = None;
            self.take_block(open.id, open.block.as_slice(), open.ends)
        } else {
            self.open = Some(open);
            true
        }
    }

    /// Takes a frame.
    fn take_frame(
        &mut self,
        kind: u8,
        flags: u8,
        id: u32,
        payload: &[u8],
        Ghost(frame): Ghost<FrameView>,
    ) -> (r: bool)
        requires
            is_short(old(self).table),
            frame == (FrameView { kind, flags, stream: id as int, payload: payload@ }),
        ensures
            r == (after_frame(old(self)@, frame) is Some),
            r ==> final(self)@ == after_frame(old(self)@, frame)->0,
            is_short(final(self).table),
    {
        let whole: bool = flag_is_set(flags, 4);
        let ends: bool = flag_is_set(flags, 1);
        if let Some(open) = &self.open {
            if kind != 9 || id != open.id {
                return false;
            }
            let mut block: Vec<u8> = Vec::new();
            extend(&mut block, open.block.as_slice());
            extend(&mut block, payload);
            let part = Open { id, ends: open.ends, block };
            assert(part@.block =~= open@.block + payload@);
            return self.take_part(part, whole);
        }
        if kind == 0 {
            match without_padding(payload, flag_is_set(flags, 8)) {
                Some(data) => if self.closing {
                    false
                } else {
                    self.take_data(id, data, ends)
                },
                None => false,
            }
        } else if kind == 1 {
            match read_part(flags, payload, Ghost(frame)) {
                Some(part) => {
                    if self.closing || id == 0 {
                        return false;
                    }
                    let mut block: Vec<u8> = Vec::new();
                    extend(&mut block, part);
                    assert(block@ =~= part@);
                    self.take_part(Open { id, ends, block }, whole)
                },
                None => false,
            }
        } else if kind == 3 || kind == 5 || kind == 9 {
            false
        } else {
            if kind == 7 {
                self.closing = true;
            }
            true
        }
    }

    /// Whether every stream has ended.
    fn done(&self) -> (r: bool)
        ensures
            r == is_done(self@),
    {
        if self.open.is_some() {
            return false;
        }
        let mut i: usize = 0;
        while i < self.streams.len()
            invariant
                i <= self.streams@.len(),
                forall|j: int| 0 <= j < i ==> (#[trigger] self@.streams[j]).ended,
            decreases self.streams@.len() - i,
        {
            assert(self@.streams[i as int] == self.streams@[i as int]@);
            if !self.streams[i].ended {
                return false;
            }
            i += 1;
        }
        true
    }
}

/// Follows the frames of a direction.
fn follow(data: &[u8]) -> (r: Option<Side>)
    ensures
        match r {
            Some(side) => after_frames(new_side(), data@, 0) == Some(side@),
            None => after_frames(new_side(), data@, 0) is None,
        },
{
    let size: usize = data.len();
    let mut side = Side::new();
    let mut at: usize = 0;
    while at < size
        invariant
            size == data@.len(),
            at <= size,
            is_short(side.table),
            after_frames(new_side(), data@, 0) == after_frames(side@, data@, at as int),
        decreases size - at,
    {
        if size - at < 9 {
            return None;
        }
        let length: usize = data[at] as usize * 0x1_0000 + data[at + 1] as usize * 0x100
            + data[at + 2] as usize;
        if length > size - at - 9 {
            return None;
        }
        let end: usize = at + 9 + length;
        let id: u32 = read_be32(data, at + 5) % 0x8000_0000;
        let payload: &[u8] = &data[at + 9..end];
        let ghost frame = FrameView {
            kind: data@[at + 3],
            flags: data@[at + 4],
            stream: id as int,
            payload: payload@,
        };
        assert(frame_at(data@, at as int) == Some((frame, end as int)));
        if !side.take_frame(data[at + 3], data[at + 4], id, payload, Ghost(frame)) {
            return None;
        }
        at = end;
    }
    Some(side)
}

/// Whether a client starts as HTTP/2 does.
pub fn starts_as_http2(client: &[u8]) -> (r: bool)
    ensures
        r == occurs_at(client@, preface(), 0),
{
    proof {
        reveal_strlit("PRI * HTTP/2.0\r\n\r\nSM\r\n\r\n");
    }
    starts_with(client, ascii_bytes("PRI * HTTP/2.0\r\n\r\nSM\r\n\r\n"))
}

/// What each stream of the client carries, and what answers it; nothing where one has no answer.
fn pair_streams(requests: &Side, responses: &Side) -> (r: Option<Vec<Http2Transaction>>)
    ensures
        match r {
            Some(list) => are_answered(requests@.streams, responses@.streams) && http2_views(list@)
                == bodies(requests@.streams, responses@.streams),
            None => !are_answered(requests@.streams, responses@.streams),
        },
{
    let ghost c = requests@.streams;
    let ghost s = responses@.streams;
    let mut list: Vec<Http2Transaction> = Vec::new();
    let mut i: usize = 0;
    while i < requests.streams.len()
        invariant
            c == requests@.streams,
            s == responses@.streams,
            i <= requests.streams@.len(),
            list@.len() == i,
            forall|j: int| 0 <= j < i ==> stream_at(s, (#[trigger] c[j]).id, 0) is Some,
            forall|j: int|
                0 <= j < i ==> (#[trigger] list@[j])@ == (
                    c[j].body,
                    s[stream_at(s, c[j].id, 0)->0].body,
                ),
        decreases requests.streams@.len() - i,
    {
        assert(c[i as int] == requests.streams@[i as int]@);
        let k: usize = match responses.find(requests.streams[i].id) {
            Some(k) => k,
            None => {
                return None;
            },
        };
        assert(s[k as int] == responses.streams@[k as int]@);
        list.push(
            Http2Transaction {
                request_body: vstd::slice::slice_to_vec(requests.streams[i].body.as_slice()),
                response_body: vstd::slice::slice_to_vec(responses.streams[k].body.as_slice()),
            },
        );
        i += 1;
    }
    assert(http2_views(list@) =~= bodies(c, s));
    Some(list)
}

/// What the requests and responses of a connection carry.
pub fn extract_http2_transactions(client: &[u8], server: &[u8]) -> (r: Option<
    Vec<Http2Transaction>,
>)
    ensures
        match r {
            Some(list) => http2_transactions(client@, server@) == Some(http2_views(list@)),
            None => http2_transactions(client@, server@) is None,
        },
{
    proof {
        reveal(http2_transactions);
    }
    if !starts_as_http2(client) {
        return None;
    }
    proof {
        reveal_strlit("PRI * HTTP/2.0\r\n\r\nSM\r\n\r\n");
    }
    assert(preface().len() == 24);
    let size: usize = client.len();
    let requests = match follow(&client[24..size]) {
        Some(side) => side,
        None => {
            return None;
        },
    };
    let responses = match follow(server) {
        Some(side) => side,
        None => {
            return None;
        },
    };
    let many: usize = requests.streams.len();
    if !requests.done() || !responses.done() || many == 0 || many != responses.streams.len() {
        return None;
    }
    pair_streams(&requests, &responses)
}

} // verus!
