//! Framing of queries and replies on the wire: every message is preceded by a
//! twelve-byte header that holds the query token (eight bytes, little endian)
//! and the payload length (four bytes, little endian).

use vstd::prelude::*;
use vstd::bytes::*;
use vstd::pervasive::VecAdditionalExecFns;

verus! {

/// The magic number that opens a connection (protocol version 1.0).
pub const VERSION_1_0: u32 = 0x34c2bdc3;

/// The length of a message header.
pub const HEADER_LEN: usize = 12;

/// The header that `buf_from_token_len` writes for a token and a length.
pub open spec fn header_bytes(token: u64, len: usize) -> Seq<u8> {
    spec_u64_to_le_bytes(token) + spec_u32_to_le_bytes(len as u32)
}

/// Reads the token and the payload length out of a message header.
pub fn buf_to_token_len(buf: &[u8]) -> (res: (u64, usize))
    requires
        buf@.len() >= 12,
    ensures
        res.0 == spec_u64_from_le_bytes(buf@.subrange(0, 8)),
        res.1 == spec_u32_from_le_bytes(buf@.subrange(8, 12)),
{
    let token = u64_from_le_bytes(&buf[0..8]);
    let len = u32_from_le_bytes(&buf[8..12]);
    (token, len as usize)
}

/// Writes the header for a message with the given token and payload length.
/// The length is truncated to 32 bits, as the wire format holds no more.
pub fn buf_from_token_len(token: u64, len: usize) -> (buf: [u8; 12])
    ensures
        buf@ == header_bytes(token, len),
{
    let t = u64_to_le_bytes(token);
    let l = u32_to_le_bytes(len as u32);
    proof { lemma_auto_spec_u64_to_from_le_bytes(); lemma_auto_spec_u32_to_from_le_bytes(); }
    let buf = [t[0], t[1], t[2], t[3], t[4], t[5], t[6], t[7], l[0], l[1], l[2], l[3]];
    assert(buf@ =~= header_bytes(token, len));
    buf
}

/// Reading back a header gives the token and the length that it was written
/// with, for every length that fits in the four bytes of the header.
pub proof fn lemma_header_roundtrip(token: u64, len: usize)
    requires
        len <= u32::MAX,
    ensures
        spec_u64_from_le_bytes(header_bytes(token, len).subrange(0, 8)) == token,
        spec_u32_from_le_bytes(header_bytes(token, len).subrange(8, 12)) == len,
{
    lemma_auto_spec_u64_to_from_le_bytes();
    lemma_auto_spec_u32_to_from_le_bytes();
    let h = header_bytes(token, len);
    assert(h.subrange(0, 8) =~= spec_u64_to_le_bytes(token));
    assert(h.subrange(8, 12) =~= spec_u32_to_le_bytes(len as u32));
}

/// Where reading a reply stands.
/// The bytes of a message on the wire: its header, then its payload.
pub open spec fn frame_bytes(token: u64, payload: Seq<u8>) -> Seq<u8> {
    header_bytes(token, payload.len() as usize) + payload
}

/// A message read back from the wire is the one that was written: its first
/// twelve bytes give the token and the payload length, and that many bytes
/// after them are the payload, for every payload that the four length bytes
/// can measure.
pub proof fn lemma_frame_roundtrip(token: u64, payload: Seq<u8>)
    requires
        payload.len() <= u32::MAX,
    ensures
        ({
            let f = frame_bytes(token, payload);
            let len = spec_u32_from_le_bytes(f.subrange(8, 12));
            &&& f.len() == 12 + payload.len()
            &&& spec_u64_from_le_bytes(f.subrange(0, 8)) == token
            &&& len == payload.len()
            &&& f.subrange(12, 12 + len) == payload
        }),
{
    lemma_auto_spec_u64_to_from_le_bytes();
    lemma_auto_spec_u32_to_from_le_bytes();
    let f = frame_bytes(token, payload);
    let h = header_bytes(token, payload.len() as usize);
    assert(h.len() == 12);
    lemma_header_roundtrip(token, payload.len() as usize);
    assert(f.subrange(0, 8) =~= h.subrange(0, 8));
    assert(f.subrange(8, 12) =~= h.subrange(8, 12));
    assert(f.subrange(12, 12 + payload.len() as int) =~= payload);
}

#[derive(Clone, Debug)]
pub enum ReadState {
    /// No reply is being read.
    Ready,
    /// The header is being read into the buffer; this many bytes are missing.
    TokenLen(Vec<u8>, usize),
    /// The payload of the reply with this token is being read into the
    /// buffer; this many bytes are missing.
    Payload(Vec<u8>, u64, usize),
}

/// Where writing a query stands.
#[derive(Clone, Debug)]
pub enum WriteState {
    /// No query is being written.
    Ready,
    /// The header is being written; this many of its bytes are still to go.
    TokenLen([u8; 12], usize),
    /// The payload is being written; this many of its bytes are still to go.
    WritePayload(usize),
}

/// The next thing to do to write a query.
#[derive(Clone, Debug)]
pub enum SendAction {
    /// Write the header from this position on.
    WriteHeader([u8; 12], usize),
    /// Write the payload from this position on.
    WritePayload(usize),
    /// The query is written.
    Done,
}

/// The next thing to do to read a reply.
#[derive(Clone, Debug)]
pub enum RecvAction {
    /// Read at most this many bytes and hand them to `on_read`.
    Read(usize),
    /// The reply with this token and payload is read.
    Done(u64, Vec<u8>),
}

/// The progress of reading a frame, by the contents of the buffers.
pub enum FrameRead {
    Ready,
    /// The header's twelve bytes so far and how many are still to come.
    Header(Seq<u8>, nat),
    /// The payload's bytes so far, the token and how many are still to come.
    Payload(Seq<u8>, u64, nat),
}

/// What a read step asks for, by contents.
pub enum RecvStep {
    Read(nat),
    Done(u64, Seq<u8>),
}

/// The progress of writing a frame, by contents.
pub enum FrameWrite {
    Ready,
    /// The header and how many of its bytes are still to go out.
    Header(Seq<u8>, nat),
    /// How many payload bytes are still to go out.
    Payload(nat),
}

/// What a write step asks for, by contents.
pub enum SendStep {
    /// Write the header from this offset on.
    WriteHeader(Seq<u8>, nat),
    /// Write the payload from this offset on.
    WritePayload(nat),
    Done,
}

/// The progress that a write state stands for.
pub open spec fn write_view(st: WriteState) -> FrameWrite {
    match st {
        WriteState::Ready => FrameWrite::Ready,
        WriteState::TokenLen(buf, rem) => FrameWrite::Header(buf@, rem as nat),
        WriteState::WritePayload(rem) => FrameWrite::Payload(rem as nat),
    }
}

/// What a write action stands for.
pub open spec fn send_action_view(a: SendAction) -> SendStep {
    match a {
        SendAction::WriteHeader(buf, from) => SendStep::WriteHeader(buf@, from as nat),
        SendAction::WritePayload(from) => SendStep::WritePayload(from as nat),
        SendAction::Done => SendStep::Done,
    }
}

/// The write step for a frame with this token and payload length: what it
/// asks for and the progress after it.
pub open spec fn send_model(w: FrameWrite, token: u64, len: usize) -> (SendStep, FrameWrite) {
    match w {
        FrameWrite::Ready => (
            SendStep::WriteHeader(header_bytes(token, len), 0),
            FrameWrite::Header(header_bytes(token, len), 12),
        ),
        FrameWrite::Header(buf, rem) => if rem > 0 {
            (SendStep::WriteHeader(buf, (12 - rem) as nat), w)
        } else if len > 0 {
            (SendStep::WritePayload(0), FrameWrite::Payload(len as nat))
        } else {
            (SendStep::Done, FrameWrite::Ready)
        },
        FrameWrite::Payload(rem) => if rem > 0 {
            (SendStep::WritePayload((len - rem) as nat), w)
        } else {
            (SendStep::Done, FrameWrite::Ready)
        },
    }
}

/// The progress after `n` bytes went out.
pub open spec fn wrote(w: FrameWrite, n: nat) -> FrameWrite {
    match w {
        FrameWrite::Ready => FrameWrite::Ready,
        FrameWrite::Header(buf, rem) => FrameWrite::Header(buf, (rem - n) as nat),
        FrameWrite::Payload(rem) => FrameWrite::Payload((rem - n) as nat),
    }
}

/// The lesser of two numbers.
pub open spec fn min2(a: nat, b: nat) -> nat {
    if a <= b {
        a
    } else {
        b
    }
}

/// Writing a frame to a stream: step after step, each write takes
/// `sizes[k]` bytes, or fewer where fewer are offered, until the frame is
/// out. It gives the bytes that went out, in order, and the progress after;
/// nothing where the writes run out or one would take no byte.
pub open spec fn run_send(w: FrameWrite, token: u64, payload: Seq<u8>, sizes: Seq<nat>) -> Option<(Seq<u8>, FrameWrite)>
    decreases sizes.len(),
{
    let len = payload.len() as usize;
    let (step, next) = send_model(w, token, len);
    match step {
        SendStep::Done => Some((Seq::empty(), next)),
        SendStep::WriteHeader(buf, from) => if sizes.len() == 0 {
            None
        } else {
            let n = min2(sizes[0], (12 - from) as nat);
            if n == 0 {
                None
            } else {
                match run_send(wrote(next, n), token, payload, sizes.drop_first()) {
                    Some((out, after)) => Some((buf.subrange(from as int, (from + n) as int) + out, after)),
                    None => None,
                }
            }
        },
        SendStep::WritePayload(from) => if sizes.len() == 0 {
            None
        } else {
            let n = min2(sizes[0], (len - from) as nat);
            if n == 0 {
                None
            } else {
                match run_send(wrote(next, n), token, payload, sizes.drop_first()) {
                    Some((out, after)) => Some((payload.subrange(from as int, (from + n) as int) + out, after)),
                    None => None,
                }
            }
        },
    }
}

/// Writing a frame puts out exactly its header and then its payload, each
/// byte once and in order, however many bytes each write takes: from the
/// ready state, with writes of any sizes of at least one byte, the bytes
/// that go out are the frame's, and writing ends ready for the next frame.
pub proof fn lemma_frame_write_any_chunking(token: u64, payload: Seq<u8>, sizes: Seq<nat>)
    requires
        payload.len() <= u32::MAX,
        sizes.len() >= frame_bytes(token, payload).len(),
        forall|k: int| 0 <= k < sizes.len() ==> #[trigger] sizes[k] >= 1,
    ensures
        run_send(FrameWrite::Ready, token, payload, sizes) == Some((frame_bytes(token, payload), FrameWrite::Ready)),
{
    let h = header_bytes(token, payload.len() as usize);
    lemma_frame_roundtrip(token, payload);
    assert(h.len() == 12);
    lemma_write_header(token, payload, h, 12, sizes);
    assert(h.skip(0) =~= h);
}

proof fn lemma_write_header(token: u64, payload: Seq<u8>, h: Seq<u8>, rem: nat, sizes: Seq<nat>)
    requires
        payload.len() <= u32::MAX,
        h.len() == 12,
        rem <= 12,
        sizes.len() >= rem + payload.len(),
        forall|k: int| 0 <= k < sizes.len() ==> #[trigger] sizes[k] >= 1,
    ensures
        run_send(FrameWrite::Header(h, rem), token, payload, sizes) == Some((h.skip(12 - rem) + payload, FrameWrite::Ready)),
    decreases rem,
{
    let len = payload.len() as usize;
    if rem > 0 {
        assert(sizes[0] >= 1);
        let n = min2(sizes[0], rem);
        lemma_write_header(token, payload, h, (rem - n) as nat, sizes.drop_first());
        assert(h.subrange(12 - rem, 12 - rem + n) + h.skip(12 - (rem - n)) =~= h.skip(12 - rem));
    } else if len > 0 {
        lemma_write_payload(token, payload, len as nat, sizes);
        assert(payload.skip(0) =~= payload);
        assert(h.skip(12) =~= Seq::<u8>::empty());
    } else {
        assert(h.skip(12) =~= Seq::<u8>::empty());
        assert(payload =~= Seq::<u8>::empty());
    }
}

proof fn lemma_write_payload(token: u64, payload: Seq<u8>, rem: nat, sizes: Seq<nat>)
    requires
        payload.len() <= u32::MAX,
        rem <= payload.len(),
        sizes.len() >= rem,
        forall|k: int| 0 <= k < sizes.len() ==> #[trigger] sizes[k] >= 1,
    ensures
        run_send(FrameWrite::Payload(rem), token, payload, sizes) == Some((payload.skip(payload.len() - rem), FrameWrite::Ready)),
    decreases rem,
{
    let l = payload.len() as int;
    if rem > 0 {
        assert(sizes[0] >= 1);
        let n = min2(sizes[0], rem);
        lemma_write_payload(token, payload, (rem - n) as nat, sizes.drop_first());
        assert(payload.subrange(l - rem, l - rem + n) + payload.skip(l - (rem - n)) =~= payload.skip(l - rem));
    } else {
        assert(payload.skip(l) =~= Seq::<u8>::empty());
    }
}

/// Reading a frame gives back the token and payload that were written,
/// however the stream hands out its bytes: from the ready state, with reads
/// of any sizes of at least one byte, it takes exactly the frame's bytes
/// (nothing of what follows) and ends ready for the next frame.
pub proof fn lemma_frame_read_any_chunking(token: u64, payload: Seq<u8>, rest: Seq<u8>, sizes: Seq<nat>)
    requires
        payload.len() <= u32::MAX,
        sizes.len() >= frame_bytes(token, payload).len(),
        forall|k: int| 0 <= k < sizes.len() ==> #[trigger] sizes[k] >= 1,
    ensures
        run_recv(FrameRead::Ready, frame_bytes(token, payload) + rest, sizes) == Some(
            (token, payload, frame_bytes(token, payload).len(), FrameRead::Ready),
        ),
{
    let f = frame_bytes(token, payload);
    lemma_frame_roundtrip(token, payload);
    let input = f + rest;
    assert(input.skip(0) =~= input);
    assert(zeros(12).subrange(0, 0) =~= f.subrange(0, 0));
    lemma_read_header(token, payload, rest, zeros(12), 12, input, sizes);
}

proof fn lemma_read_header(token: u64, payload: Seq<u8>, rest: Seq<u8>, buf: Seq<u8>, rem: nat, input: Seq<u8>, sizes: Seq<nat>)
    requires
        payload.len() <= u32::MAX,
        buf.len() == 12,
        rem <= 12,
        buf.subrange(0, 12 - rem) == frame_bytes(token, payload).subrange(0, 12 - rem),
        input == (frame_bytes(token, payload) + rest).skip(12 - rem),
        sizes.len() >= frame_bytes(token, payload).len() - (12 - rem),
        forall|k: int| 0 <= k < sizes.len() ==> #[trigger] sizes[k] >= 1,
    ensures
        run_recv(FrameRead::Header(buf, rem), input, sizes) == Some(
            (token, payload, (frame_bytes(token, payload).len() - (12 - rem)) as nat, FrameRead::Ready),
        ),
    decreases rem,
{
    let f = frame_bytes(token, payload);
    lemma_frame_roundtrip(token, payload);
    let v = FrameRead::Header(buf, rem);
    if rem > 0 {
        assert(sizes[0] >= 1);
        let n = min3(sizes[0], rem, input.len());
        assert(n >= 1);
        let data = input.take(n as int);
        let nb = buf.subrange(0, 12 - rem) + data + buf.subrange(12 - rem + n, 12);
        assert(data =~= f.subrange(12 - rem, 12 - rem + n));
        assert(nb.subrange(0, 12 - (rem - n)) =~= f.subrange(0, 12 - (rem - n)));
        assert(input.skip(n as int) =~= (f + rest).skip(12 - (rem - n)));
        assert(feed(v, data) == FrameRead::Header(nb, (rem - n) as nat));
        lemma_read_header(token, payload, rest, nb, (rem - n) as nat, input.skip(n as int), sizes.drop_first());
    } else {
        assert(buf =~= f.subrange(0, 12));
        assert(buf.subrange(0, 8) =~= f.subrange(0, 8));
        assert(buf.subrange(8, 12) =~= f.subrange(8, 12));
        let len = spec_u32_from_le_bytes(buf.subrange(8, 12));
        assert(len == payload.len());
        assert(input =~= payload + rest);
        if len > 0 {
            let p0 = FrameRead::Payload(zeros(len as nat), token, len as nat);
            assert(recv_model(p0) == (RecvStep::Read(len as nat), p0));
            assert(zeros(len as nat).subrange(0, 0) =~= payload.subrange(0, 0));
            assert(input =~= payload.skip(0) + rest);
            lemma_read_payload(token, payload, rest, zeros(len as nat), len as nat, input, sizes);
        } else {
            assert(payload =~= Seq::<u8>::empty());
        }
    }
}

proof fn lemma_read_payload(token: u64, payload: Seq<u8>, rest: Seq<u8>, buf: Seq<u8>, rem: nat, input: Seq<u8>, sizes: Seq<nat>)
    requires
        buf.len() == payload.len(),
        rem <= payload.len(),
        buf.subrange(0, payload.len() - rem) == payload.subrange(0, payload.len() - rem),
        input == payload.skip(payload.len() - rem) + rest,
        sizes.len() >= rem,
        forall|k: int| 0 <= k < sizes.len() ==> #[trigger] sizes[k] >= 1,
    ensures
        run_recv(FrameRead::Payload(buf, token, rem), input, sizes) == Some((token, payload, rem, FrameRead::Ready)),
    decreases rem,
{
    let l = payload.len() as int;
    let v = FrameRead::Payload(buf, token, rem);
    if rem > 0 {
        assert(sizes[0] >= 1);
        let n = min3(sizes[0], rem, input.len());
        assert(n >= 1);
        let data = input.take(n as int);
        let nb = buf.subrange(0, l - rem) + data + buf.subrange(l - rem + n, l);
        assert(data =~= payload.subrange(l - rem, l - rem + n));
        assert(nb.subrange(0, l - (rem - n)) =~= payload.subrange(0, l - (rem - n)));
        assert(input.skip(n as int) =~= payload.skip(l - (rem - n)) + rest);
        assert(feed(v, data) == FrameRead::Payload(nb, token, (rem - n) as nat));
        lemma_read_payload(token, payload, rest, nb, (rem - n) as nat, input.skip(n as int), sizes.drop_first());
    } else {
        assert(buf.subrange(0, l) =~= buf);
        assert(payload.subrange(0, l) =~= payload);
        assert(buf =~= payload);
    }
}

/// The progress that a read state stands for.
pub open spec fn read_view(st: ReadState) -> FrameRead {
    match st {
        ReadState::Ready => FrameRead::Ready,
        ReadState::TokenLen(buf, rem) => FrameRead::Header(buf@, rem as nat),
        ReadState::Payload(buf, token, rem) => FrameRead::Payload(buf@, token, rem as nat),
    }
}

/// What a read action stands for.
pub open spec fn recv_action_view(a: RecvAction) -> RecvStep {
    match a {
        RecvAction::Read(n) => RecvStep::Read(n as nat),
        RecvAction::Done(token, buf) => RecvStep::Done(token, buf@),
    }
}

/// The read step: what it asks for and the progress after it.
pub open spec fn recv_model(v: FrameRead) -> (RecvStep, FrameRead) {
    match v {
        FrameRead::Ready => (RecvStep::Read(12), FrameRead::Header(zeros(12), 12)),
        FrameRead::Header(buf, rem) => if rem > 0 {
            (RecvStep::Read(rem), v)
        } else {
            let token = spec_u64_from_le_bytes(buf.subrange(0, 8));
            let len = spec_u32_from_le_bytes(buf.subrange(8, 12));
            if len > 0 {
                (RecvStep::Read(len as nat), FrameRead::Payload(zeros(len as nat), token, len as nat))
            } else {
                (RecvStep::Done(token, Seq::empty()), FrameRead::Ready)
            }
        },
        FrameRead::Payload(buf, token, rem) => if rem > 0 {
            (RecvStep::Read(rem), v)
        } else {
            (RecvStep::Done(token, buf), FrameRead::Ready)
        },
    }
}

/// The progress after the bytes `data` arrived.
pub open spec fn feed(v: FrameRead, data: Seq<u8>) -> FrameRead {
    match v {
        FrameRead::Ready => FrameRead::Ready,
        FrameRead::Header(buf, rem) => FrameRead::Header(
            buf.subrange(0, 12 - rem) + data + buf.subrange(12 - rem + data.len(), 12),
            (rem - data.len()) as nat,
        ),
        FrameRead::Payload(buf, token, rem) => FrameRead::Payload(
            buf.subrange(0, buf.len() - rem) + data + buf.subrange(buf.len() - rem + data.len(), buf.len() as int),
            token,
            (rem - data.len()) as nat,
        ),
    }
}

/// `n` zero bytes.
pub open spec fn zeros(n: nat) -> Seq<u8> {
    Seq::new(n, |i: int| 0u8)
}

/// The least of three numbers.
pub open spec fn min3(a: nat, b: nat, c: nat) -> nat {
    if a <= b && a <= c {
        a
    } else if b <= c {
        b
    } else {
        c
    }
}

/// Reading from a stream that holds `input`: step after step, each read
/// gets `sizes[k]` bytes, or fewer where fewer are asked for or left, until
/// a reply is complete. It gives the reply's token and payload, how many
/// bytes were taken and the progress after; nothing where the reads run out
/// or one would get no byte.
pub open spec fn run_recv(v: FrameRead, input: Seq<u8>, sizes: Seq<nat>) -> Option<(u64, Seq<u8>, nat, FrameRead)>
    decreases sizes.len(),
{
    let (step, next) = recv_model(v);
    match step {
        RecvStep::Done(token, payload) => Some((token, payload, 0nat, next)),
        RecvStep::Read(want) => if sizes.len() == 0 {
            None
        } else {
            let n = min3(sizes[0], want, input.len());
            if n == 0 {
                None
            } else {
                match run_recv(feed(next, input.take(n as int)), input.skip(n as int), sizes.drop_first()) {
                    Some((token, payload, taken, w)) => Some((token, payload, taken + n, w)),
                    None => None,
                }
            }
        },
    }
}

/// The framing state of an asynchronous stream: how far the current query
/// has been written and the current reply has been read. Reads and writes
/// may stop at any point and go on later.
pub struct AsyncStream {
    read: ReadState,
    write: WriteState,
}

impl AsyncStream {
    /// Where reading stands.
    pub closed spec fn read_state(&self) -> ReadState {
        self.read
    }

    /// Where writing stands.
    pub closed spec fn write_state(&self) -> WriteState {
        self.write
    }

    /// The states hold consistent counts: no more bytes missing than the
    /// buffer or the header has room for.
    pub open spec fn wf(&self) -> bool {
        &&& match self.read_state() {
            ReadState::Ready => true,
            ReadState::TokenLen(buf, rem) => buf@.len() == 12 && rem <= 12,
            ReadState::Payload(buf, _, rem) => rem <= buf@.len(),
        }
        &&& match self.write_state() {
            WriteState::TokenLen(_, rem) => rem <= 12,
            _ => true,
        }
    }

    /// A stream with nothing in flight.
    pub fn new() -> (s: Self)
        ensures
            s.wf(),
            s.read_state() is Ready,
            s.write_state() is Ready,
    {
        AsyncStream { read: ReadState::Ready, write: WriteState::Ready }
    }

    /// The next write for the query with this token and payload length. A
    /// new query starts with its header; once the header is out the payload
    /// follows; once both are out the query is done and writing is ready for
    /// the next.
    pub fn send_step(&mut self, token: u64, len: usize) -> (a: SendAction)
        requires
            old(self).wf(),
            old(self).write_state() matches WriteState::WritePayload(rem) ==> rem <= len,
        ensures
            final(self).wf(),
            send_model(write_view(old(self).write_state()), token, len) == (send_action_view(a), write_view(final(self).write_state())),
            final(self).read_state() == old(self).read_state(),
            ({
                match old(self).write_state() {
                    WriteState::Ready => a is WriteHeader && a->WriteHeader_1 == 0
                        && a->WriteHeader_0@ == header_bytes(token, len)
                        && final(self).write_state() == WriteState::TokenLen(a->WriteHeader_0, 12),
                    WriteState::TokenLen(buf, rem) => if rem > 0 {
                        a == SendAction::WriteHeader(buf, (12 - rem) as usize) && final(self).write_state() == old(self).write_state()
                    } else if len > 0 {
                        a == SendAction::WritePayload(0) && final(self).write_state() == WriteState::WritePayload(len)
                    } else {
                        a is Done && final(self).write_state() is Ready
                    },
                    WriteState::WritePayload(rem) => if rem > 0 {
                        a == SendAction::WritePayload((len - rem) as usize) && final(self).write_state() == old(self).write_state()
                    } else {
                        a is Done && final(self).write_state() is Ready
                    },
                }
            }),
    {
        match self.write {
            WriteState::Ready => {
                let buf = buf_from_token_len(token, len);
                self.write = WriteState::TokenLen(buf, 12);
                SendAction::WriteHeader(buf, 0)
            },
            WriteState::TokenLen(buf, rem) => {
                if rem > 0 {
                    SendAction::WriteHeader(buf, 12 - rem)
                } else if len > 0 {
                    self.write = WriteState::WritePayload(len);
                    SendAction::WritePayload(0)
                } else {
                    self.write = WriteState::Ready;
                    SendAction::Done
                }
            },
            WriteState::WritePayload(rem) => {
                if rem > 0 {
                    SendAction::WritePayload(len - rem)
                } else {
                    self.write = WriteState::Ready;
                    SendAction::Done
                }
            },
        }
    }

    /// Takes the number of bytes that the last write put out.
    pub fn on_written(&mut self, written: usize)
        requires
            old(self).wf(),
            old(self).write_state() matches WriteState::TokenLen(_, rem) ==> written <= rem,
            old(self).write_state() matches WriteState::WritePayload(rem) ==> written <= rem,
        ensures
            final(self).wf(),
            write_view(final(self).write_state()) == wrote(write_view(old(self).write_state()), written as nat),
            final(self).read_state() == old(self).read_state(),
            final(self).write_state() == match old(self).write_state() {
                WriteState::TokenLen(buf, rem) => WriteState::TokenLen(buf, (rem - written) as usize),
                WriteState::WritePayload(rem) => WriteState::WritePayload((rem - written) as usize),
                WriteState::Ready => WriteState::Ready,
            },
    {
        match self.write {
            WriteState::TokenLen(buf, rem) => {
                self.write = WriteState::TokenLen(buf, rem - written);
            },
            WriteState::WritePayload(rem) => {
                self.write = WriteState::WritePayload(rem - written);
            },
            WriteState::Ready => {},
        }
    }

    /// The next read. A new reply starts with its twelve-byte header; once
    /// the header is in, the payload of the length that it names follows;
    /// once both are in, the reply is handed back and reading is ready for
    /// the next.
    pub fn recv_step(&mut self) -> (a: RecvAction)
        requires
            old(self).wf(),
        ensures
            final(self).wf(),
            recv_model(read_view(old(self).read_state())) == (recv_action_view(a), read_view(final(self).read_state())),
            final(self).write_state() == old(self).write_state(),
            ({
                match old(self).read_state() {
                    ReadState::Ready => a == RecvAction::Read(12)
                        && final(self).read_state() is TokenLen
                        && final(self).read_state()->TokenLen_1 == 12
                        && final(self).read_state()->TokenLen_0@ == Seq::new(12, |i: int| 0u8),
                    ReadState::TokenLen(buf, rem) => if rem > 0 {
                        a == RecvAction::Read(rem) && final(self).read_state() == old(self).read_state()
                    } else {
                        let token = spec_u64_from_le_bytes(buf@.subrange(0, 8));
                        let len = spec_u32_from_le_bytes(buf@.subrange(8, 12)) as usize;
                        if len > 0 {
                            a == RecvAction::Read(len) && final(self).read_state() is Payload
                                && final(self).read_state()->Payload_0@ == Seq::new(len as nat, |i: int| 0u8)
                                && final(self).read_state()->Payload_1 == token
                                && final(self).read_state()->Payload_2 == len
                        } else {
                            a is Done && a->Done_0 == token && a->Done_1@.len() == 0
                                && final(self).read_state() is Ready
                        }
                    },
                    ReadState::Payload(buf, token, rem) => if rem > 0 {
                        a == RecvAction::Read(rem) && final(self).read_state() == old(self).read_state()
                    } else {
                        a == RecvAction::Done(token, buf) && final(self).read_state() is Ready
                    },
                }
            }),
    {
        let mut st = ReadState::Ready;
        std::mem::swap(&mut st, &mut self.read);
        match st {
            ReadState::Ready => {
                self.read = ReadState::TokenLen(vec![0u8; 12], 12);
                proof { assert(self.read->TokenLen_0@ =~= zeros(12)); }
                RecvAction::Read(12)
            },
            ReadState::TokenLen(buf, rem) => {
                if rem > 0 {
                    self.read = ReadState::TokenLen(buf, rem);
                    RecvAction::Read(rem)
                } else {
                    let (token, len) = buf_to_token_len(buf.as_slice());
                    if len > 0 {
                        self.read = ReadState::Payload(vec![0u8; len], token, len);
                        proof { assert(self.read->Payload_0@ =~= zeros(len as nat)); }
                        RecvAction::Read(len)
                    } else {
                        RecvAction::Done(token, Vec::new())
                    }
                }
            },
            ReadState::Payload(buf, token, rem) => {
                if rem > 0 {
                    self.read = ReadState::Payload(buf, token, rem);
                    RecvAction::Read(rem)
                } else {
                    RecvAction::Done(token, buf)
                }
            },
        }
    }

    /// Takes the bytes that the last read brought: they fill the buffer at
    /// the first missing position.
    pub fn on_read(&mut self, data: &[u8])
        requires
            old(self).wf(),
            old(self).read_state() matches ReadState::TokenLen(_, rem) ==> data@.len() <= rem,
            old(self).read_state() matches ReadState::Payload(_, _, rem) ==> data@.len() <= rem,
        ensures
            read_view(final(self).read_state()) == feed(read_view(old(self).read_state()), data@),
            final(self).wf(),
            final(self).write_state() == old(self).write_state(),
            match old(self).read_state() {
                ReadState::Ready => final(self).read_state() is Ready,
                ReadState::TokenLen(buf, rem) => final(self).read_state() is TokenLen
                    && final(self).read_state()->TokenLen_1 == rem - data@.len()
                    && final(self).read_state()->TokenLen_0@ == buf@.subrange(0, 12 - rem) + data@ + buf@.subrange(12 - rem + data@.len(), 12),
                ReadState::Payload(buf, token, rem) => final(self).read_state() is Payload
                    && final(self).read_state()->Payload_1 == token
                    && final(self).read_state()->Payload_2 == rem - data@.len()
                    && final(self).read_state()->Payload_0@ == buf@.subrange(0, buf@.len() - rem) + data@ + buf@.subrange(
                        buf@.len() - rem + data@.len(),
                        buf@.len() as int,
                    ),
            },
    {
        let mut st = ReadState::Ready;
        std::mem::swap(&mut st, &mut self.read);
        match st {
            ReadState::Ready => {},
            ReadState::TokenLen(mut buf, rem) => {
                let start = buf.len() - rem;
                fill_at(&mut buf, start, data);
                self.read = ReadState::TokenLen(buf, rem - data.len());
            },
            ReadState::Payload(mut buf, token, rem) => {
                let start = buf.len() - rem;
                fill_at(&mut buf, start, data);
                self.read = ReadState::Payload(buf, token, rem - data.len());
            },
        }
    }
}

/// Copies `data` into `buf` from position `start` on.
fn fill_at(buf: &mut Vec<u8>, start: usize, data: &[u8])
    requires
        start + data@.len() <= old(buf)@.len(),
    ensures
        final(buf)@ == old(buf)@.subrange(0, start as int) + data@ + old(buf)@.subrange(
            start + data@.len(),
            old(buf)@.len() as int,
        ),
{
    let n = buf.len();
    let mut j: usize = 0;
    while j < data.len()
        invariant
            n == buf@.len(),
            start + data@.len() <= buf@.len(),
            buf@.len() == old(buf)@.len(),
            j <= data@.len(),
            forall|t: int| 0 <= t < start ==> buf@[t] == old(buf)@[t],
            forall|t: int| 0 <= t < j ==> buf@[start + t] == data@[t],
            forall|t: int| start + j <= t < buf@.len() ==> buf@[t] == old(buf)@[t],
        decreases data@.len() - j,
    {
        buf.set(start + j, data[j]);
        j += 1;
    }
    assert(buf@ =~= old(buf)@.subrange(0, start as int) + data@ + old(buf)@.subrange(
        start + data@.len(),
        old(buf)@.len() as int,
    ));
}

} // verus!
