//! The wire format, as a mathematical description.
//!
//! A frame is a header followed by a body:
//!
//! ```text
//! Content-Length: <decimal digits>\r\n
//! [Content-Type: <bytes other than \r>\r\n]
//! \r\n
//! <body, exactly Content-Length bytes>
//! ```
//!
//! [`header_scan`] says what a receiver makes of the bytes it holds so far,
//! and [`frame`] what a sender emits. The lemmas at the end relate the two.

use vstd::prelude::*;

verus! {

/// Carriage return.
pub const CR: u8 = 13;

/// Line feed.
pub const LF: u8 = 10;

/// The bytes of `Content-Length: `.
pub open spec fn length_key() -> Seq<u8> {
    seq![67u8, 111, 110, 116, 101, 110, 116, 45, 76, 101, 110, 103, 116, 104, 58, 32]
}

/// The bytes of `Content-Type: `.
pub open spec fn type_key() -> Seq<u8> {
    seq![67u8, 111, 110, 116, 101, 110, 116, 45, 84, 121, 112, 101, 58, 32]
}

/// The bytes of one line break, `\r\n`.
pub open spec fn line_break() -> Seq<u8> {
    seq![CR, LF]
}

/// Whether a byte is one of the digits `0` to `9`.
pub open spec fn is_digit(b: u8) -> bool {
    48 <= b <= 57
}

/// The number that a run of decimal digits denotes.
pub open spec fn decimal_value(digits: Seq<u8>) -> nat
    decreases digits.len(),
{
    if digits.len() == 0 {
        0
    } else {
        decimal_value(digits.drop_last()) * 10 + (digits.last() - 48) as nat
    }
}

/// The decimal digits of a number, without leading zeros.
pub open spec fn decimal_digits(n: nat) -> Seq<u8>
    decreases n,
{
    if n < 10 {
        seq![(48 + n) as u8]
    } else {
        decimal_digits(n / 10).push((48 + n % 10) as u8)
    }
}

/// The header that announces a body of `length` bytes.
pub open spec fn header(length: nat) -> Seq<u8> {
    length_key() + decimal_digits(length) + line_break() + line_break()
}

/// The header that announces a body of `length` bytes and names its content
/// type.
pub open spec fn typed_header(length: nat, content_type: Seq<u8>) -> Seq<u8> {
    length_key() + decimal_digits(length) + line_break() + type_key() + content_type
        + line_break() + line_break()
}

/// One frame: the header with the body's length in bytes, then the body.
pub open spec fn frame(body: Seq<u8>) -> Seq<u8> {
    header(body.len()) + body
}

/// How a literal compares with the bytes found at a position.
#[derive(Debug, Clone, Copy, PartialEq, Eq)]
pub enum Match {
    /// The literal stands there in full.
    Full,
    /// The buffer ends inside the literal, and agrees with it so far.
    Partial,
    /// A byte differs.
    Mismatch,
}

/// Compares `lit` with the bytes of `buf` from `at` on.
pub open spec fn match_at(buf: Seq<u8>, at: int, lit: Seq<u8>) -> Match {
    if at + lit.len() <= buf.len() {
        if buf.subrange(at, at + lit.len()) == lit {
            Match::Full
        } else {
            Match::Mismatch
        }
    } else if buf.subrange(at, buf.len() as int) == lit.subrange(0, buf.len() - at) {
        Match::Partial
    } else {
        Match::Mismatch
    }
}

/// The first position at or after `from` where `Content-Length: ` stands in
/// full.
pub open spec fn find_key(buf: Seq<u8>, from: int) -> Option<int>
    decreases buf.len() - from,
{
    if from < 0 || from + length_key().len() > buf.len() {
        None
    } else if buf.subrange(from, from + length_key().len()) == length_key() {
        Some(from)
    } else {
        find_key(buf, from + 1)
    }
}

/// The end of the run of digits that starts at `from`.
pub open spec fn digits_end(buf: Seq<u8>, from: int) -> int
    decreases buf.len() - from,
{
    if from < 0 || from >= buf.len() || !is_digit(buf[from]) {
        from
    } else {
        digits_end(buf, from + 1)
    }
}

/// The position of the first carriage return at or after `from`, or the end
/// of the buffer.
pub open spec fn line_end(buf: Seq<u8>, from: int) -> int
    decreases buf.len() - from,
{
    if from < 0 || from >= buf.len() || buf[from] == CR {
        from
    } else {
        line_end(buf, from + 1)
    }
}

/// What a receiver makes of the bytes it holds.
#[derive(Debug, Clone, Copy, PartialEq, Eq)]
pub enum HeaderScan {
    /// No header is complete yet; more bytes may complete one.
    NeedMore,
    /// The bytes after `Content-Length: ` are no header, whatever follows.
    Malformed,
    /// A header is complete. The body starts at `body_start` and has
    /// `length` bytes.
    Complete { body_start: usize, length: usize },
}

/// Scans for `Content-Length: ` and reads the header that it begins.
pub open spec fn header_scan(buf: Seq<u8>) -> HeaderScan {
    match find_key(buf, 0) {
        None => HeaderScan::NeedMore,
        Some(key) => scan_length(buf, key + length_key().len()),
    }
}

/// Reads the digits at `from` and the rest of the header.
pub open spec fn scan_length(buf: Seq<u8>, from: int) -> HeaderScan {
    let end = digits_end(buf, from);
    if end == buf.len() {
        HeaderScan::NeedMore
    } else if end == from {
        HeaderScan::Malformed
    } else {
        match match_at(buf, end, line_break()) {
            Match::Partial => HeaderScan::NeedMore,
            Match::Mismatch => HeaderScan::Malformed,
            Match::Full => scan_type_line(buf, end + 2, decimal_value(buf.subrange(from, end))),
        }
    }
}

/// Skips the `Content-Type` line if one stands at `from`, and reads the
/// blank line.
pub open spec fn scan_type_line(buf: Seq<u8>, from: int, length: nat) -> HeaderScan {
    if from == buf.len() {
        HeaderScan::NeedMore
    } else if buf[from] == CR {
        scan_blank_line(buf, from, length)
    } else {
        match match_at(buf, from, type_key()) {
            Match::Partial => HeaderScan::NeedMore,
            Match::Mismatch => HeaderScan::Malformed,
            Match::Full => {
                let end = line_end(buf, from + type_key().len());
                match match_at(buf, end, line_break()) {
                    Match::Partial => HeaderScan::NeedMore,
                    Match::Mismatch => HeaderScan::Malformed,
                    Match::Full => scan_blank_line(buf, end + 2, length),
                }
            },
        }
    }
}

/// Reads the blank line that ends the header. A frame that would end past
/// the largest addressable position is malformed.
pub open spec fn scan_blank_line(buf: Seq<u8>, from: int, length: nat) -> HeaderScan {
    match match_at(buf, from, line_break()) {
        Match::Partial => HeaderScan::NeedMore,
        Match::Mismatch => HeaderScan::Malformed,
        Match::Full => if from + 2 + length <= usize::MAX {
            HeaderScan::Complete { body_start: (from + 2) as usize, length: length as usize }
        } else {
            HeaderScan::Malformed
        },
    }
}

/// What a receiver makes of the bytes it holds, body included.
#[derive(Debug, Clone, Copy, PartialEq, Eq)]
pub enum FrameScan {
    /// No frame is complete yet.
    NeedMore,
    /// The header is malformed.
    Malformed,
    /// A frame is complete. Its body is `buf[body_start..end]`, and the next
    /// frame starts at `end`.
    Complete { body_start: usize, end: usize },
}

/// Reads the header, and checks that the body it announces has arrived in
/// full.
pub open spec fn frame_scan(buf: Seq<u8>) -> FrameScan {
    match header_scan(buf) {
        HeaderScan::NeedMore => FrameScan::NeedMore,
        HeaderScan::Malformed => FrameScan::Malformed,
        HeaderScan::Complete { body_start, length } => if body_start + length <= buf.len() {
            FrameScan::Complete { body_start, end: (body_start + length) as usize }
        } else {
            FrameScan::NeedMore
        },
    }
}

/// The digits of a number are digits, there is at least one of them, and
/// they denote that number.
pub proof fn lemma_decimal_digits(n: nat)
    ensures
        decimal_digits(n).len() >= 1,
        forall|i: int| 0 <= i < decimal_digits(n).len() ==> is_digit(#[trigger] decimal_digits(n)[i]),
        decimal_value(decimal_digits(n)) == n,
    decreases n,
{
    if n < 10 {
        let d = decimal_digits(n);
        assert(d.drop_last() =~= Seq::<u8>::empty());
        assert(decimal_value(d.drop_last()) == 0);
    } else {
        lemma_decimal_digits(n / 10);
        let d = decimal_digits(n);
        assert(d.drop_last() =~= decimal_digits(n / 10));
    }
}

/// A run of digits that ends before a byte that is no digit, or with the
/// buffer, ends there.
pub proof fn lemma_digits_end(buf: Seq<u8>, from: int, end: int)
    requires
        0 <= from <= end <= buf.len(),
        forall|i: int| from <= i < end ==> is_digit(#[trigger] buf[i]),
        end < buf.len() ==> !is_digit(buf[end]),
    ensures
        digits_end(buf, from) == end,
    decreases end - from,
{
    if from < end {
        lemma_digits_end(buf, from + 1, end);
    }
}

/// A stretch without a carriage return that ends before one, or with the
/// buffer, ends there.
pub proof fn lemma_line_end(buf: Seq<u8>, from: int, end: int)
    requires
        0 <= from <= end <= buf.len(),
        forall|i: int| from <= i < end ==> #[trigger] buf[i] != CR,
        end < buf.len() ==> buf[end] == CR,
    ensures
        line_end(buf, from) == end,
    decreases end - from,
{
    if from < end {
        lemma_line_end(buf, from + 1, end);
    }
}

/// A receiver that holds a header, followed by anything, reads that header:
/// the body starts right after it and has the length announced.
pub proof fn lemma_header_is_read(length: nat, rest: Seq<u8>)
    requires
        header(length).len() + length <= usize::MAX,
    ensures
        header_scan(header(length) + rest) == (HeaderScan::Complete {
            body_start: header(length).len() as usize,
            length: length as usize,
        }),
{
    let buf = header(length) + rest;
    let digits = decimal_digits(length);
    let end = 16 + digits.len() as int;
    lemma_decimal_digits(length);
    assert(buf.subrange(0, 16) =~= length_key());
    assert forall|i: int| 16 <= i < end implies is_digit(#[trigger] buf[i]) by {
        assert(buf[i] == digits[i - 16]);
    }
    assert(buf[end] == CR);
    lemma_digits_end(buf, 16, end);
    assert(buf.subrange(16, end) =~= digits);
    assert(buf.subrange(end, end + 2) =~= line_break());
    assert(buf[end + 2] == CR);
    assert(buf.subrange(end + 2, end + 4) =~= line_break());
    assert(header(length).len() == end + 4);
}

/// A header that names a content type is read like one that names none: the
/// line is skipped.
pub proof fn lemma_typed_header_is_read(length: nat, content_type: Seq<u8>, rest: Seq<u8>)
    requires
        forall|i: int| 0 <= i < content_type.len() ==> content_type[i] != CR,
        typed_header(length, content_type).len() + length <= usize::MAX,
    ensures
        header_scan(typed_header(length, content_type) + rest) == (HeaderScan::Complete {
            body_start: typed_header(length, content_type).len() as usize,
            length: length as usize,
        }),
{
    let buf = typed_header(length, content_type) + rest;
    let digits = decimal_digits(length);
    let end = 16 + digits.len() as int;
    let line = end + 2 + 14;
    let stop = line + content_type.len() as int;
    lemma_decimal_digits(length);
    assert(buf.subrange(0, 16) =~= length_key());
    assert forall|i: int| 16 <= i < end implies is_digit(#[trigger] buf[i]) by {
        assert(buf[i] == digits[i - 16]);
    }
    assert(buf[end] == CR);
    lemma_digits_end(buf, 16, end);
    assert(buf.subrange(16, end) =~= digits);
    assert(buf.subrange(end, end + 2) =~= line_break());
    assert(buf[end + 2] == 67);
    assert(buf.subrange(end + 2, line) =~= type_key());
    assert forall|i: int| line <= i < stop implies #[trigger] buf[i] != CR by {
        assert(buf[i] == content_type[i - line]);
    }
    assert(buf[stop] == CR);
    lemma_line_end(buf, line, stop);
    assert(buf.subrange(stop, stop + 2) =~= line_break());
    assert(buf.subrange(stop + 2, stop + 4) =~= line_break());
    assert(typed_header(length, content_type).len() == stop + 4);
}

/// What a sender frames, a receiver reads back: from a frame, followed by
/// anything, the scan cuts out the body that was framed, and stops where the
/// frame ends.
pub proof fn lemma_frame_is_read(body: Seq<u8>, rest: Seq<u8>)
    requires
        frame(body).len() <= usize::MAX,
    ensures
        frame_scan(frame(body) + rest) == (FrameScan::Complete {
            body_start: header(body.len()).len() as usize,
            end: frame(body).len() as usize,
        }),
        (frame(body) + rest).subrange(header(body.len()).len() as int, frame(body).len() as int)
            == body,
{
    lemma_header_is_read(body.len(), body + rest);
    assert(header(body.len()) + (body + rest) =~= frame(body) + rest);
    assert((frame(body) + rest).subrange(
        header(body.len()).len() as int,
        frame(body).len() as int,
    ) =~= body);
}

/// Bytes that arrive later do not move the place where the key was found.
pub proof fn lemma_find_key_stable(buf: Seq<u8>, ext: Seq<u8>, from: int)
    requires
        find_key(buf, from) is Some,
    ensures
        find_key(buf + ext, from) == find_key(buf, from),
    decreases buf.len() - from,
{
    assert((buf + ext).subrange(from, from + 16) =~= buf.subrange(from, from + 16));
    if buf.subrange(from, from + 16) != length_key() {
        lemma_find_key_stable(buf, ext, from + 1);
    }
}

/// Bytes that arrive later do not move the end of a run of digits that has
/// ended.
pub proof fn lemma_digits_end_stable(buf: Seq<u8>, ext: Seq<u8>, from: int)
    requires
        0 <= from,
        digits_end(buf, from) < buf.len(),
    ensures
        digits_end(buf + ext, from) == digits_end(buf, from),
    decreases buf.len() - from,
{
    assert((buf + ext)[from] == buf[from]);
    if is_digit(buf[from]) {
        lemma_digits_end_stable(buf, ext, from + 1);
    }
}

/// Bytes that arrive later do not move a carriage return that was found.
pub proof fn lemma_line_end_stable(buf: Seq<u8>, ext: Seq<u8>, from: int)
    requires
        0 <= from,
        line_end(buf, from) < buf.len(),
    ensures
        line_end(buf + ext, from) == line_end(buf, from),
    decreases buf.len() - from,
{
    assert((buf + ext)[from] == buf[from]);
    if buf[from] != CR {
        lemma_line_end_stable(buf, ext, from + 1);
    }
}

/// Bytes that arrive later do not change a comparison that was decided.
pub proof fn lemma_match_stable(buf: Seq<u8>, ext: Seq<u8>, at: int, lit: Seq<u8>)
    requires
        0 <= at <= buf.len(),
        !(match_at(buf, at, lit) is Partial),
    ensures
        match_at(buf + ext, at, lit) == match_at(buf, at, lit),
{
    let long = buf + ext;
    if at + lit.len() <= buf.len() {
        assert(long.subrange(at, at + lit.len()) =~= buf.subrange(at, at + lit.len()));
    } else {
        let seen = buf.len() - at;
        if at + lit.len() <= long.len() {
            if long.subrange(at, at + lit.len()) == lit {
                assert forall|i: int| 0 <= i < seen implies buf.subrange(at, buf.len() as int)[i]
                    == lit.subrange(0, seen)[i] by {
                    assert(long.subrange(at, at + lit.len())[i] == lit[i]);
                }
                assert(buf.subrange(at, buf.len() as int) =~= lit.subrange(0, seen));
            }
        } else {
            if long.subrange(at, long.len() as int) == lit.subrange(0, long.len() - at) {
                assert forall|i: int| 0 <= i < seen implies buf.subrange(at, buf.len() as int)[i]
                    == lit.subrange(0, seen)[i] by {
                    assert(long.subrange(at, long.len() as int)[i] == lit.subrange(
                        0,
                        long.len() - at,
                    )[i]);
                }
                assert(buf.subrange(at, buf.len() as int) =~= lit.subrange(0, seen));
            }
        }
    }
}

proof fn lemma_blank_line_stable(buf: Seq<u8>, ext: Seq<u8>, from: int, length: nat)
    requires
        0 <= from <= buf.len(),
        !(scan_blank_line(buf, from, length) is NeedMore),
    ensures
        scan_blank_line(buf + ext, from, length) == scan_blank_line(buf, from, length),
{
    lemma_match_stable(buf, ext, from, line_break());
}

proof fn lemma_type_line_stable(buf: Seq<u8>, ext: Seq<u8>, from: int, length: nat)
    requires
        0 <= from <= buf.len(),
        !(scan_type_line(buf, from, length) is NeedMore),
    ensures
        scan_type_line(buf + ext, from, length) == scan_type_line(buf, from, length),
{
    assert((buf + ext)[from] == buf[from]);
    if buf[from] == CR {
        lemma_blank_line_stable(buf, ext, from, length);
    } else {
        lemma_match_stable(buf, ext, from, type_key());
        if match_at(buf, from, type_key()) is Full {
            let end = line_end(buf, from + 14);
            lemma_line_end_bounds(buf, from + 14);
            if end == buf.len() {
                assert(buf.subrange(end, buf.len() as int) =~= line_break().subrange(0, 0));
            }
            lemma_line_end_stable(buf, ext, from + 14);
            lemma_match_stable(buf, ext, end, line_break());
            if match_at(buf, end, line_break()) is Full {
                lemma_blank_line_stable(buf, ext, end + 2, length);
            }
        }
    }
}

/// A run of digits ends between its start and the end of the buffer.
pub proof fn lemma_digits_end_bounds(buf: Seq<u8>, from: int)
    requires
        0 <= from <= buf.len(),
    ensures
        from <= digits_end(buf, from) <= buf.len(),
    decreases buf.len() - from,
{
    if from < buf.len() && is_digit(buf[from]) {
        lemma_digits_end_bounds(buf, from + 1);
    }
}

/// A line ends between its start and the end of the buffer.
pub proof fn lemma_line_end_bounds(buf: Seq<u8>, from: int)
    requires
        0 <= from <= buf.len(),
    ensures
        from <= line_end(buf, from) <= buf.len(),
    decreases buf.len() - from,
{
    if from < buf.len() && buf[from] != CR {
        lemma_line_end_bounds(buf, from + 1);
    }
}

/// Where the key is found, it stands in full inside the buffer.
pub proof fn lemma_find_key_bounds(buf: Seq<u8>, from: int)
    requires
        find_key(buf, from) is Some,
    ensures
        from <= find_key(buf, from)->0,
        find_key(buf, from)->0 + 16 <= buf.len(),
    decreases buf.len() - from,
{
    if buf.subrange(from, from + 16) != length_key() {
        lemma_find_key_bounds(buf, from + 1);
    }
}

/// Once a scan has found a header, or found the header malformed, bytes that
/// arrive later do not change what it finds.
pub proof fn lemma_header_scan_stable(buf: Seq<u8>, ext: Seq<u8>)
    requires
        !(header_scan(buf) is NeedMore),
    ensures
        header_scan(buf + ext) == header_scan(buf),
{
    lemma_find_key_stable(buf, ext, 0);
    lemma_find_key_bounds(buf, 0);
    let from = find_key(buf, 0)->0 + 16;
    let end = digits_end(buf, from);
    lemma_digits_end_bounds(buf, from);
    lemma_digits_end_stable(buf, ext, from);
    if end != from {
        lemma_match_stable(buf, ext, end, line_break());
        assert((buf + ext).subrange(from, end) =~= buf.subrange(from, end));
        if match_at(buf, end, line_break()) is Full {
            lemma_type_line_stable(buf, ext, end + 2, decimal_value(buf.subrange(from, end)));
        }
    }
}

/// Once a scan has found a frame, or found the header malformed, bytes that
/// arrive later do not change what it finds: a frame ends where its header
/// said, whatever follows it.
pub proof fn lemma_frame_scan_stable(buf: Seq<u8>, ext: Seq<u8>)
    requires
        !(frame_scan(buf) is NeedMore),
    ensures
        frame_scan(buf + ext) == frame_scan(buf),
{
    lemma_header_scan_stable(buf, ext);
}

/// A complete header lies inside the buffer, and is not empty.
pub proof fn lemma_header_scan_bounds(buf: Seq<u8>)
    requires
        header_scan(buf) is Complete,
    ensures
        16 < header_scan(buf)->body_start <= buf.len(),
        header_scan(buf)->body_start + header_scan(buf)->length <= usize::MAX,
{
    lemma_find_key_bounds(buf, 0);
    let from = find_key(buf, 0)->0 + 16;
    lemma_digits_end_bounds(buf, from);
    let end = digits_end(buf, from);
    if match_at(buf, end + 2, type_key()) is Full {
        lemma_line_end_bounds(buf, end + 2 + 14);
    }
}

/// A complete frame lies inside the buffer, and is not empty.
pub proof fn lemma_frame_scan_bounds(buf: Seq<u8>)
    requires
        frame_scan(buf) is Complete,
    ensures
        16 < frame_scan(buf)->body_start <= frame_scan(buf)->end <= buf.len(),
{
    lemma_header_scan_bounds(buf);
}

} // verus!
