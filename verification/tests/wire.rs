use rethink_driver::wire::{
    buf_from_token_len, buf_to_token_len, AsyncStream, RecvAction, SendAction, VERSION_1_0,
};

#[test]
fn header_layout() {
    let buf = buf_from_token_len(0x0102030405060708, 0x0a0b0c0d);
    assert_eq!(buf, [8, 7, 6, 5, 4, 3, 2, 1, 0x0d, 0x0c, 0x0b, 0x0a]);
    assert_eq!(buf_to_token_len(&buf), (0x0102030405060708, 0x0a0b0c0d));
    assert_eq!(VERSION_1_0.to_le_bytes(), [0xc3, 0xbd, 0xc2, 0x34]);
}

#[test]
fn header_roundtrip_and_truncation() {
    for (t, l) in [(0u64, 0usize), (u64::MAX, u32::MAX as usize), (42, 17)] {
        assert_eq!(buf_to_token_len(&buf_from_token_len(t, l)), (t, l));
    }
    // the length field holds 32 bits only
    assert_eq!(buf_to_token_len(&buf_from_token_len(1, (1usize << 32) + 5)), (1, 5));
}

#[test]
fn async_stream_writes_header_then_payload() {
    let mut s = AsyncStream::new();
    let payload = b"[1,[14,[\"test\"]]]";
    let mut out: Vec<u8> = Vec::new();
    loop {
        match s.send_step(7, payload.len()) {
            SendAction::WriteHeader(buf, from) => {
                // write at most five bytes at a time
                let n = (12 - from).min(5);
                out.extend_from_slice(&buf[from..from + n]);
                s.on_written(n);
            },
            SendAction::WritePayload(from) => {
                let n = (payload.len() - from).min(5);
                out.extend_from_slice(&payload[from..from + n]);
                s.on_written(n);
            },
            SendAction::Done => break,
        }
    }
    let mut expected = buf_from_token_len(7, payload.len()).to_vec();
    expected.extend_from_slice(payload);
    assert_eq!(out, expected);
    // the next query starts afresh
    assert!(matches!(s.send_step(8, 0), SendAction::WriteHeader(_, 0)));
}

#[test]
fn async_stream_empty_payload() {
    let mut s = AsyncStream::new();
    assert!(matches!(s.send_step(1, 0), SendAction::WriteHeader(_, 0)));
    s.on_written(12);
    assert!(matches!(s.send_step(1, 0), SendAction::Done));
}

#[test]
fn async_stream_reads_header_then_payload() {
    let mut s = AsyncStream::new();
    let mut input = buf_from_token_len(99, 4).to_vec();
    input.extend_from_slice(b"abcd");
    input.extend_from_slice(&buf_from_token_len(100, 0));
    let mut pos = 0;
    let mut replies = Vec::new();
    while replies.len() < 2 {
        match s.recv_step() {
            RecvAction::Read(want) => {
                let n = want.min(3);
                s.on_read(&input[pos..pos + n]);
                pos += n;
            },
            RecvAction::Done(token, payload) => replies.push((token, payload)),
        }
    }
    assert_eq!(replies, vec![(99, b"abcd".to_vec()), (100, Vec::new())]);
}

#[test]
fn frame_written_is_read_back() {
    let payload = b"{\"t\":1,\"r\":[42]}";
    let mut writer = AsyncStream::new();
    let mut wire: Vec<u8> = Vec::new();
    loop {
        match writer.send_step(0x1234_5678_9abc, payload.len()) {
            SendAction::WriteHeader(buf, from) => {
                wire.extend_from_slice(&buf[from..]);
                writer.on_written(12 - from);
            },
            SendAction::WritePayload(from) => {
                wire.extend_from_slice(&payload[from..]);
                writer.on_written(payload.len() - from);
            },
            SendAction::Done => break,
        }
    }
    let mut reader = AsyncStream::new();
    let mut pos = 0;
    let reply = loop {
        match reader.recv_step() {
            RecvAction::Read(want) => {
                let n = want.min(2);
                reader.on_read(&wire[pos..pos + n]);
                pos += n;
            },
            RecvAction::Done(token, buf) => break (token, buf),
        }
    };
    assert_eq!(pos, wire.len());
    assert_eq!(reply, (0x1234_5678_9abc, payload.to_vec()));
}

#[test]
fn frame_read_takes_only_its_bytes_whatever_the_chunks() {
    let payload = b"[1,2,3]";
    let mut wire = buf_from_token_len(5, payload.len()).to_vec();
    wire.extend_from_slice(payload);
    let frame_len = wire.len();
    wire.extend_from_slice(b"next frame");
    for sizes in [vec![1usize], vec![12, 7], vec![5, 1, 100], vec![3, 20]] {
        let mut reader = AsyncStream::new();
        let mut pos = 0;
        let mut k = 0;
        let reply = loop {
            match reader.recv_step() {
                RecvAction::Read(want) => {
                    let n = sizes[k % sizes.len()].min(want).min(wire.len() - pos);
                    reader.on_read(&wire[pos..pos + n]);
                    pos += n;
                    k += 1;
                },
                RecvAction::Done(token, buf) => break (token, buf),
            }
        };
        assert_eq!(reply, (5, payload.to_vec()));
        assert_eq!(pos, frame_len);
    }
}
