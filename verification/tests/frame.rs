use hat::frame::{frame, LineBuffer};

fn feed(buffer: &mut LineBuffer, bytes: &[u8]) -> Vec<Vec<u8>> {
    buffer.feed(bytes)
}

#[test]
fn line_is_ended_by_a_line_feed() {
    assert_eq!(frame("MSG hello"), "MSG hello\n");
    assert_eq!(frame(""), "\n");
}

#[test]
fn lines_are_cut_out_of_the_stream() {
    let mut buffer = LineBuffer::new();
    assert_eq!(feed(&mut buffer, b"one\ntwo\nthr"), vec![b"one".to_vec(), b"two".to_vec()]);
    assert_eq!(feed(&mut buffer, b""), Vec::<Vec<u8>>::new());
    assert_eq!(feed(&mut buffer, b"ee\n\n"), vec![b"three".to_vec(), b"".to_vec()]);
    assert_eq!(feed(&mut buffer, b"\r\n"), vec![b"\r".to_vec()]);
}

#[test]
fn pieces_do_not_matter() {
    let stream = "MSG alice 中文 消息\nSYS 😀\nrest".as_bytes();
    let whole = LineBuffer::new().feed(stream);
    for size in 1..stream.len() {
        let mut buffer = LineBuffer::new();
        let mut lines = Vec::new();
        for piece in stream.chunks(size) {
            lines.extend(buffer.feed(piece));
        }
        assert_eq!(lines, whole, "pieces of {size}");
    }
}

#[test]
fn line_is_received_as_it_was_sent() {
    let mut buffer = LineBuffer::new();
    for line in ["hello", "", "中文", "a b  c\t"] {
        assert_eq!(buffer.feed(frame(line).as_bytes()), vec![line.as_bytes().to_vec()]);
    }
}
