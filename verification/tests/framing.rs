use lsp_client::jsonrpc::{add_header, add_jsonrpc_header, get_jsonrpc_content_length, scan_header};
use lsp_client::wire::HeaderScan;

fn complete(scan: HeaderScan) -> Option<(usize, usize)> {
    match scan {
        HeaderScan::Complete { body_start, length } => Some((body_start, length)),
        _ => None,
    }
}

#[test]
fn test_add_jsonrpc_header() {
    assert_eq!("Content-Length: 1\r\n\r\na", add_jsonrpc_header("a"));
}

#[test]
fn header_of_an_empty_message() {
    assert_eq!("Content-Length: 0\r\n\r\n", add_jsonrpc_header(""));
    assert_eq!(b"Content-Length: 0\r\n\r\n".to_vec(), add_header(b""));
}

#[test]
fn header_counts_bytes_not_characters() {
    let body = "{\"s\":\"\u{20ac}\"}";
    assert_eq!(9, body.chars().count());
    assert_eq!(11, body.len());
    assert_eq!(format!("Content-Length: 11\r\n\r\n{}", body), add_jsonrpc_header(body));
    assert_eq!(
        format!("Content-Length: 11\r\n\r\n{}", body).into_bytes(),
        add_header(body.as_bytes())
    );
}

#[test]
fn header_with_several_digits() {
    let body = vec![b'x'; 1205];
    let framed = add_header(&body);
    assert!(framed.starts_with(b"Content-Length: 1205\r\n\r\n"));
    assert_eq!(24 + 1205, framed.len());
    assert_eq!(Some(1205), get_jsonrpc_content_length(&framed));
}

#[test]
fn content_length_of_a_complete_header() {
    assert_eq!(Some(2), get_jsonrpc_content_length(b"Content-Length: 2\r\n\r\n{}"));
    assert_eq!(Some(2), get_jsonrpc_content_length(b"Content-Length: 2\r\n\r\n"));
    assert_eq!(Some(7), get_jsonrpc_content_length(b"Content-Length: 007\r\n\r\n"));
}

#[test]
fn content_length_waits_for_the_whole_header() {
    let header = b"Content-Length: 42\r\n\r\n";
    for cut in 0..header.len() {
        assert_eq!(None, get_jsonrpc_content_length(&header[..cut]), "cut at {}", cut);
    }
    assert_eq!(Some(42), get_jsonrpc_content_length(header));
}

#[test]
fn content_type_line_is_skipped() {
    let header = b"Content-Length: 5\r\nContent-Type: application/vscode-jsonrpc; charset=utf-8\r\n\r\n";
    assert_eq!(Some((header.len(), 5)), complete(scan_header(header)));
    for cut in 0..header.len() {
        assert!(matches!(scan_header(&header[..cut]), HeaderScan::NeedMore), "cut at {}", cut);
    }
}

#[test]
fn scan_finds_the_key_behind_other_bytes() {
    let buf = b"noise\nContent-Length: 3\r\n\r\nabc";
    assert_eq!(Some((27, 3)), complete(scan_header(buf)));
}

#[test]
fn scan_without_the_key_needs_more() {
    assert!(matches!(scan_header(b""), HeaderScan::NeedMore));
    assert!(matches!(scan_header(b"Content-Type: x\r\n\r\n"), HeaderScan::NeedMore));
    assert!(matches!(scan_header(b"Content-Length:"), HeaderScan::NeedMore));
}

#[test]
fn malformed_headers() {
    assert!(matches!(scan_header(b"Content-Length: \r\n\r\n"), HeaderScan::Malformed));
    assert!(matches!(scan_header(b"Content-Length: abc\r\n\r\n"), HeaderScan::Malformed));
    assert!(matches!(scan_header(b"Content-Length: 12x"), HeaderScan::Malformed));
    assert!(matches!(scan_header(b"Content-Length: 12\n\n"), HeaderScan::Malformed));
    assert!(matches!(scan_header(b"Content-Length: 12\r\nFoo: bar\r\n\r\n"), HeaderScan::Malformed));
    assert!(matches!(scan_header(b"Content-Length: 12\r\n\rx"), HeaderScan::Malformed));
    assert!(matches!(
        scan_header(b"Content-Length: 12\r\nContent-Type: a\rb\r\n\r\n"),
        HeaderScan::Malformed
    ));
    assert_eq!(None, get_jsonrpc_content_length(b"Content-Length: abc\r\n\r\n"));
}

#[test]
fn length_too_large_to_address_is_malformed() {
    let buf = b"Content-Length: 99999999999999999999999999999999\r\n\r\n";
    assert!(matches!(scan_header(buf), HeaderScan::Malformed));
    let buf = format!("Content-Length: {}\r\n\r\n", usize::MAX);
    assert!(matches!(scan_header(buf.as_bytes()), HeaderScan::Malformed));
    let buf = b"Content-Length: 99999999999999999999999999999999";
    assert!(matches!(scan_header(buf), HeaderScan::NeedMore));
}
