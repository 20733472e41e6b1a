use websocket_client_async::WebSocketReader;

fn reader_with(bytes: &[u8]) -> WebSocketReader {
    let mut r = WebSocketReader::new();
    assert!(r.fill_chunk(bytes) || bytes.is_empty());
    r
}

#[test]
fn new_reader_has_nothing_pending() {
    let r = WebSocketReader::new();
    assert!(r.fill_buf().is_none());
}

#[test]
fn write_remaining_smaller_than_buffer() {
    let mut r = reader_with(&[1, 2, 3]);
    let mut buf = [9u8; 5];
    assert_eq!(r.write_remaining(&mut buf), 3);
    assert_eq!(buf, [1, 2, 3, 9, 9]);
    assert!(r.fill_buf().is_none());
}

#[test]
fn write_remaining_equal_to_buffer() {
    let mut r = reader_with(&[4, 5, 6]);
    let mut buf = [0u8; 3];
    assert_eq!(r.write_remaining(&mut buf), 3);
    assert_eq!(buf, [4, 5, 6]);
    assert!(r.fill_buf().is_none());
}

#[test]
fn write_remaining_larger_than_buffer_keeps_rest() {
    let mut r = reader_with(&[1, 2, 3, 4, 5]);
    let mut buf = [0u8; 2];
    assert_eq!(r.write_remaining(&mut buf), 2);
    assert_eq!(buf, [1, 2]);
    assert_eq!(r.fill_buf(), Some(&[3u8, 4, 5][..]));
}

#[test]
fn write_remaining_into_empty_buffer() {
    let mut r = reader_with(&[7]);
    let mut buf: [u8; 0] = [];
    assert_eq!(r.write_remaining(&mut buf), 0);
    assert_eq!(r.fill_buf(), Some(&[7u8][..]));
}

#[test]
fn read_buffered_waits_when_nothing_pending() {
    let mut r = WebSocketReader::new();
    let mut buf = [5u8; 4];
    assert_eq!(r.read_buffered(&mut buf), None);
    assert_eq!(buf, [5, 5, 5, 5]);
}

#[test]
fn read_buffered_serves_pending_bytes() {
    let mut r = reader_with(&[10, 11, 12]);
    let mut buf = [0u8; 2];
    assert_eq!(r.read_buffered(&mut buf), Some(2));
    assert_eq!(buf, [10, 11]);
    assert_eq!(r.read_buffered(&mut buf), Some(1));
    assert_eq!(buf, [12, 11]);
    assert_eq!(r.read_buffered(&mut buf), None);
}

#[test]
fn read_chunk_equal_length() {
    let mut r = WebSocketReader::new();
    let mut buf = [0u8; 3];
    assert_eq!(r.read_chunk(&[1, 2, 3], &mut buf), 3);
    assert_eq!(buf, [1, 2, 3]);
    assert!(r.fill_buf().is_none());
}

#[test]
fn read_chunk_shorter_than_buffer() {
    let mut r = WebSocketReader::new();
    let mut buf = [0u8; 4];
    assert_eq!(r.read_chunk(&[8, 9], &mut buf), 2);
    assert_eq!(buf, [8, 9, 0, 0]);
    assert!(r.fill_buf().is_none());
}

#[test]
fn read_chunk_longer_than_buffer_keeps_rest() {
    let mut r = WebSocketReader::new();
    let mut buf = [0u8; 2];
    assert_eq!(r.read_chunk(&[1, 2, 3, 4], &mut buf), 2);
    assert_eq!(buf, [1, 2]);
    assert_eq!(r.fill_buf(), Some(&[3u8, 4][..]));
}

#[test]
fn read_chunk_behind_pending_bytes() {
    let mut r = reader_with(&[1]);
    let mut buf = [0u8; 2];
    assert_eq!(r.read_chunk(&[2, 3], &mut buf), 2);
    assert_eq!(buf, [1, 2]);
    assert_eq!(r.fill_buf(), Some(&[3u8][..]));
}

#[test]
fn empty_message_fills_nothing() {
    let mut r = WebSocketReader::new();
    assert!(!r.fill_chunk(&[]));
    assert!(r.fill_buf().is_none());
}

#[test]
fn fill_chunk_appends_in_order() {
    let mut r = WebSocketReader::new();
    assert!(r.fill_chunk(&[0, 1, 2]));
    assert!(r.fill_chunk(&[3, 255]));
    assert_eq!(r.fill_buf(), Some(&[0u8, 1, 2, 3, 255][..]));
}

#[test]
fn consume_part_and_all() {
    let mut r = reader_with(&[1, 2, 3, 4]);
    r.consume(1);
    assert_eq!(r.fill_buf(), Some(&[2u8, 3, 4][..]));
    r.consume(0);
    assert_eq!(r.fill_buf(), Some(&[2u8, 3, 4][..]));
    r.consume(3);
    assert!(r.fill_buf().is_none());
}

#[test]
fn stream_keeps_order_over_reads() {
    // Messages [0,1,2,3,4,255] and [5,6] read through buffers of 4 bytes.
    let mut r = WebSocketReader::new();
    let mut out = Vec::new();
    let mut buf = [0u8; 4];
    let n = r.read_chunk(&[0, 1, 2, 3, 4, 255], &mut buf);
    out.extend_from_slice(&buf[..n]);
    let n = r.read_buffered(&mut buf).unwrap();
    out.extend_from_slice(&buf[..n]);
    assert_eq!(r.read_buffered(&mut buf), None);
    let n = r.read_chunk(&[5, 6], &mut buf);
    out.extend_from_slice(&buf[..n]);
    assert_eq!(out, vec![0, 1, 2, 3, 4, 255, 5, 6]);
}

#[test]
fn fill_and_consume_match_read() {
    let mut a = reader_with(&[1, 2, 3, 4, 5]);
    let mut b = reader_with(&[1, 2, 3, 4, 5]);
    let mut buf = [0u8; 3];
    let n = a.write_remaining(&mut buf);
    assert_eq!(&b.fill_buf().unwrap()[..n], &buf[..n]);
    b.consume(n);
    assert_eq!(a.fill_buf(), b.fill_buf());
}

/// Reads up to and including `delim` the way a buffered `read_until` does: look at the
/// pending bytes, take them up to the delimiter, consume what was taken, and take in the
/// next message whenever nothing is pending.
fn read_until(
    r: &mut WebSocketReader,
    incoming: &mut std::collections::VecDeque<Vec<u8>>,
    delim: u8,
    out: &mut Vec<u8>,
) -> usize {
    let mut read = 0;
    loop {
        if r.fill_buf().is_none() {
            let msg = incoming.pop_front().expect("a message to read");
            if !r.fill_chunk(&msg) {
                continue;
            }
        }
        let available = r.fill_buf().unwrap();
        let (done, used) = match available.iter().position(|b| *b == delim) {
            Some(i) => {
                out.extend_from_slice(&available[..=i]);
                (true, i + 1)
            }
            None => {
                out.extend_from_slice(available);
                (false, available.len())
            }
        };
        r.consume(used);
        read += used;
        if done {
            return read;
        }
    }
}

#[test]
fn read_until_returns_messages_in_order() {
    let mut incoming: std::collections::VecDeque<Vec<u8>> =
        (0..=254u8).map(|i| vec![0, 1, 2, 3, i, 255]).collect();
    let mut r = WebSocketReader::new();
    let mut buf = Vec::new();
    for i in 0..=254u8 {
        assert_eq!(read_until(&mut r, &mut incoming, 255, &mut buf), 6);
        assert_eq!(buf, vec![0, 1, 2, 3, i, 255]);
        buf.clear();
    }
    assert!(r.fill_buf().is_none());
}

#[test]
fn read_until_across_split_and_joined_messages() {
    let mut incoming: std::collections::VecDeque<Vec<u8>> =
        vec![vec![1, 2], vec![], vec![3, 255, 4], vec![255]].into_iter().collect();
    let mut r = WebSocketReader::new();
    let mut buf = Vec::new();
    assert_eq!(read_until(&mut r, &mut incoming, 255, &mut buf), 4);
    assert_eq!(buf, vec![1, 2, 3, 255]);
    buf.clear();
    assert_eq!(read_until(&mut r, &mut incoming, 255, &mut buf), 2);
    assert_eq!(buf, vec![4, 255]);
}
