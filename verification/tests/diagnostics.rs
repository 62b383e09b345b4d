use lsp_client::diagnostics::DiagnosticBuffer;

#[test]
fn push_returns_the_line_at_its_end() {
    let mut buffer = DiagnosticBuffer::new();
    assert_eq!(None, buffer.push(b'h'));
    assert_eq!(None, buffer.push(b'i'));
    assert_eq!(Some(b"hi\n".to_vec()), buffer.push(b'\n'));
    assert_eq!(Some(b"\n".to_vec()), buffer.push(b'\n'));
    assert_eq!(None, buffer.push(b'\r'));
}

#[test]
fn feed_cuts_after_each_line_feed() {
    let mut buffer = DiagnosticBuffer::new();
    assert_eq!(
        vec![b"warning: a\n".to_vec(), b"\n".to_vec(), b"error: b\r\n".to_vec()],
        buffer.feed(b"warning: a\n\nerror: b\r\npart")
    );
    assert!(buffer.feed(b"ial").is_empty());
    assert_eq!(vec![b"partial line\n".to_vec()], buffer.feed(b" line\n"));
    assert!(buffer.feed(b"").is_empty());
}

#[test]
fn feed_byte_by_byte_yields_the_same_lines() {
    let text = b"one\ntwo \xe2\x82\xac\n\nthree";
    let mut whole = DiagnosticBuffer::new();
    let expected = whole.feed(text);
    let mut bytewise = DiagnosticBuffer::new();
    let mut lines = Vec::new();
    for byte in text.iter() {
        lines.extend(bytewise.feed(&[*byte]));
    }
    assert_eq!(3, expected.len());
    assert_eq!(expected, lines);
}
