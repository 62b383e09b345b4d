//! Reading and writing frame headers.

use vstd::prelude::*;
use vstd::string::StringExecFns;
use vstd::utf8::{encode_utf8, is_ascii_chars, is_ascii_chars_encode_utf8};
use crate::wire::{
    decimal_digits, decimal_value, digits_end, find_key, frame, header_scan, length_key,
    line_break, line_end, match_at, scan_blank_line, scan_type_line, type_key, HeaderScan, Match,
    CR, LF,
};

verus! {

/// The bytes of `Content-Length: `.
fn length_key_bytes() -> (key: [u8; 16])
    ensures
        key@ == length_key(),
{
    let key: [u8; 16] = [67, 111, 110, 116, 101, 110, 116, 45, 76, 101, 110, 103, 116, 104, 58, 32];
    assert(key@ =~= length_key());
    key
}

/// The bytes of `Content-Type: `.
fn type_key_bytes() -> (key: [u8; 14])
    ensures
        key@ == type_key(),
{
    let key: [u8; 14] = [67, 111, 110, 116, 101, 110, 116, 45, 84, 121, 112, 101, 58, 32];
    assert(key@ =~= type_key());
    key
}

/// The bytes of `\r\n`.
fn line_break_bytes() -> (brk: [u8; 2])
    ensures
        brk@ == line_break(),
{
    let brk: [u8; 2] = [CR, LF];
    assert(brk@ =~= line_break());
    brk
}

/// Compares `lit` with the bytes of `buf` from `at` on.
fn match_literal(buf: &[u8], at: usize, lit: &[u8]) -> (m: Match)
    requires
        at <= buf.len(),
    ensures
        m == match_at(buf@, at as int, lit@),
{
    let avail: usize = buf.len() - at;
    let mut i: usize = 0;
    while i < lit.len() && i < avail
        invariant
            at <= buf.len(),
            avail == buf.len() - at,
            i <= lit.len(),
            i <= avail,
            forall|j: int| 0 <= j < i ==> buf@[at + j] == lit@[j],
        decreases lit.len() - i,
    {
        if buf[at + i] != lit[i] {
            proof {
                if at + lit.len() <= buf.len() {
                    assert(buf@.subrange(at as int, at + lit.len())[i as int] != lit@[i as int]);
                } else {
                    assert(buf@.subrange(at as int, buf.len() as int)[i as int] != lit@.subrange(
                        0,
                        buf.len() - at,
                    )[i as int]);
                }
            }
            return Match::Mismatch;
        }
        i += 1;
    }
    if i == lit.len() {
        assert(buf@.subrange(at as int, at + lit.len()) =~= lit@);
        Match::Full
    } else {
        assert(buf@.subrange(at as int, buf.len() as int) =~= lit@.subrange(0, buf.len() - at));
        Match::Partial
    }
}

/// Finds the first place where `Content-Length: ` stands in full.
fn find_length_key(buf: &[u8]) -> (found: Option<usize>)
    ensures
        match found {
            Some(key) => find_key(buf@, 0) == Some(key as int) && key + 16 <= buf.len(),
            None => find_key(buf@, 0) is None,
        },
{
    let key = length_key_bytes();
    let mut i: usize = 0;
    while buf.len() - i >= 16
        invariant
            i <= buf.len(),
            key@ == length_key(),
            find_key(buf@, 0) == find_key(buf@, i as int),
        decreases buf.len() - i,
    {
        match match_literal(buf, i, key.as_slice()) {
            Match::Full => {
                return Some(i);
            },
            _ => {},
        }
        i += 1;
    }
    None
}

/// Reads the run of digits at `from`: where it ends, and the number it
/// denotes unless that number is too large for a `usize`.
fn read_digits(buf: &[u8], from: usize) -> (run: (usize, Option<usize>))
    requires
        from <= buf.len(),
    ensures
        run.0 == digits_end(buf@, from as int),
        from <= run.0 <= buf.len(),
        match run.1 {
            Some(value) => value == decimal_value(buf@.subrange(from as int, run.0 as int)),
            None => decimal_value(buf@.subrange(from as int, run.0 as int)) > usize::MAX,
        },
{
    let mut end: usize = from;
    let mut value: Option<usize> = Some(0);
    assert(buf@.subrange(from as int, from as int) =~= Seq::<u8>::empty());
    while end < buf.len() && 48 <= buf[end] && buf[end] <= 57
        invariant
            from <= end <= buf.len(),
            digits_end(buf@, from as int) == digits_end(buf@, end as int),
            match value {
                Some(v) => v == decimal_value(buf@.subrange(from as int, end as int)),
                None => decimal_value(buf@.subrange(from as int, end as int)) > usize::MAX,
            },
        decreases buf.len() - end,
    {
        let digit: usize = (buf[end] - 48) as usize;
        assert(buf@.subrange(from as int, end + 1).drop_last() =~= buf@.subrange(
            from as int,
            end as int,
        ));
        value =
        match value {
            Some(v) => match v.checked_mul(10) {
                Some(tens) => tens.checked_add(digit),
                None => None,
            },
            None => None,
        };
        end += 1;
    }
    (end, value)
}

/// Finds the first carriage return at or after `from`.
fn find_line_end(buf: &[u8], from: usize) -> (end: usize)
    requires
        from <= buf.len(),
    ensures
        end == line_end(buf@, from as int),
        from <= end <= buf.len(),
{
    let mut end: usize = from;
    while end < buf.len() && buf[end] != CR
        invariant
            from <= end <= buf.len(),
            line_end(buf@, from as int) == line_end(buf@, end as int),
        decreases buf.len() - end,
    {
        end += 1;
    }
    end
}

/// Reads the blank line at `from`, which ends the header.
fn read_blank_line(buf: &[u8], from: usize, length: Option<usize>) -> (scan: HeaderScan)
    requires
        from <= buf.len(),
    ensures
        forall|n: nat|
            (match length {
                Some(value) => n == value,
                None => n > usize::MAX,
            }) ==> scan == scan_blank_line(buf@, from as int, n),
{
    let brk = line_break_bytes();
    match match_literal(buf, from, brk.as_slice()) {
        Match::Partial => HeaderScan::NeedMore,
        Match::Mismatch => HeaderScan::Malformed,
        Match::Full => match length {
            Some(value) => match (from + 2).checked_add(value) {
                Some(_) => HeaderScan::Complete { body_start: from + 2, length: value },
                None => HeaderScan::Malformed,
            },
            None => HeaderScan::Malformed,
        },
    }
}

/// Skips the `Content-Type` line if one stands at `from`, and reads the
/// blank line.
fn read_type_line(buf: &[u8], from: usize, length: Option<usize>) -> (scan: HeaderScan)
    requires
        from <= buf.len(),
    ensures
        forall|n: nat|
            (match length {
                Some(value) => n == value,
                None => n > usize::MAX,
            }) ==> scan == scan_type_line(buf@, from as int, n),
{
    if from == buf.len() {
        HeaderScan::NeedMore
    } else if buf[from] == CR {
        read_blank_line(buf, from, length)
    } else {
        let key = type_key_bytes();
        match match_literal(buf, from, key.as_slice()) {
            Match::Partial => HeaderScan::NeedMore,
            Match::Mismatch => HeaderScan::Malformed,
            Match::Full => {
                let end = find_line_end(buf, from + 14);
                let brk = line_break_bytes();
                match match_literal(buf, end, brk.as_slice()) {
                    Match::Partial => HeaderScan::NeedMore,
                    Match::Mismatch => HeaderScan::Malformed,
                    Match::Full => read_blank_line(buf, end + 2, length),
                }
            },
        }
    }
}

/// Scans the buffer for `Content-Length: ` and reads the header that it
/// begins.
pub fn scan_header(buf: &[u8]) -> (scan: HeaderScan)
    ensures
        scan == header_scan(buf@),
{
    match find_length_key(buf) {
        None => HeaderScan::NeedMore,
        Some(key) => {
            let (end, length) = read_digits(buf, key + 16);
            if end == buf.len() {
                HeaderScan::NeedMore
            } else if end == key + 16 {
                HeaderScan::Malformed
            } else {
                let brk = line_break_bytes();
                match match_literal(buf, end, brk.as_slice()) {
                    Match::Partial => HeaderScan::NeedMore,
                    Match::Mismatch => HeaderScan::Malformed,
                    Match::Full => read_type_line(buf, end + 2, length),
                }
            }
        },
    }
}

/// The length that the first header in the buffer announces, once that
/// header is complete; `None` while it is not, and where it is malformed.
pub fn get_jsonrpc_content_length(buf: &[u8]) -> (length: Option<usize>)
    ensures
        length == match header_scan(buf@) {
            HeaderScan::Complete { body_start, length } => Some(length),
            _ => None,
        },
{
    match scan_header(buf) {
        HeaderScan::Complete { body_start, length } => Some(length),
        _ => None,
    }
}

/// Appends the decimal digits of `n`.
fn push_decimal(out: &mut Vec<u8>, n: usize)
    ensures
        final(out)@ == old(out)@ + decimal_digits(n as nat),
    decreases n,
{
    if n >= 10 {
        push_decimal(out, n / 10);
    }
    out.push(48 + (n % 10) as u8);
    assert(final(out)@ =~= old(out)@ + decimal_digits(n as nat));
}

/// Puts the header in front of a body: the frame that carries it.
pub fn add_header(body: &[u8]) -> (framed: Vec<u8>)
    ensures
        framed@ == frame(body@),
{
    let key = length_key_bytes();
    let brk = line_break_bytes();
    let mut framed: Vec<u8> = Vec::new();
    framed.extend_from_slice(key.as_slice());
    push_decimal(&mut framed, body.len());
    framed.extend_from_slice(brk.as_slice());
    framed.extend_from_slice(brk.as_slice());
    framed.extend_from_slice(body);
    assert(framed@ =~= frame(body@));
    framed
}

/// The encoding of a text is the encoding of its parts, one after the other.
proof fn lemma_encode_concat(a: Seq<char>, b: Seq<char>)
    ensures
        encode_utf8(a + b) == encode_utf8(a) + encode_utf8(b),
    decreases a.len(),
{
    if a.len() == 0 {
        assert(a + b =~= b);
        assert(encode_utf8(a) + encode_utf8(b) =~= encode_utf8(b));
    } else {
        lemma_encode_concat(a.drop_first(), b);
        assert((a + b).drop_first() =~= a.drop_first() + b);
        assert(encode_utf8(a + b) =~= encode_utf8(a) + encode_utf8(b));
    }
}

/// The text of one decimal digit.
fn digit_text(digit: usize) -> (text: &'static str)
    requires
        digit < 10,
    ensures
        encode_utf8(text@) == seq![(48 + digit) as u8],
{
    proof {
        reveal_strlit("0");
        reveal_strlit("1");
        reveal_strlit("2");
        reveal_strlit("3");
        reveal_strlit("4");
        reveal_strlit("5");
        reveal_strlit("6");
        reveal_strlit("7");
        reveal_strlit("8");
        reveal_strlit("9");
    }
    let text = if digit == 0 {
        "0"
    } else if digit == 1 {
        "1"
    } else if digit == 2 {
        "2"
    } else if digit == 3 {
        "3"
    } else if digit == 4 {
        "4"
    } else if digit == 5 {
        "5"
    } else if digit == 6 {
        "6"
    } else if digit == 7 {
        "7"
    } else if digit == 8 {
        "8"
    } else {
        "9"
    };
    proof {
        assert(is_ascii_chars(text@));
        is_ascii_chars_encode_utf8(text@);
        assert(encode_utf8(text@) =~= seq![(48 + digit) as u8]);
    }
    text
}

/// Appends the decimal digits of `n` to a text.
fn append_decimal(out: &mut String, n: usize)
    ensures
        encode_utf8(final(out)@) == encode_utf8(old(out)@) + decimal_digits(n as nat),
    decreases n,
{
    if n >= 10 {
        append_decimal(out, n / 10);
    }
    let ghost before = out@;
    let text = digit_text(n % 10);
    out.append(text);
    proof {
        lemma_encode_concat(before, text@);
        assert(encode_utf8(final(out)@) =~= encode_utf8(old(out)@) + decimal_digits(n as nat));
    }
}

/// Puts the header in front of a message. The length that the header
/// announces is the number of bytes of the message in UTF-8, so the bytes of
/// the result are the frame that carries the bytes of the message.
pub fn add_jsonrpc_header(msg: &str) -> (framed: String)
    ensures
        encode_utf8(framed@) == frame(encode_utf8(msg@)),
{
    let key = "Content-Length: ";
    let brk = "\r\n\r\n";
    let mut framed = String::from_str(key);
    proof {
        reveal_strlit("Content-Length: ");
        assert(is_ascii_chars(key@));
        is_ascii_chars_encode_utf8(key@);
        assert(encode_utf8(key@) =~= length_key());
    }
    append_decimal(&mut framed, msg.as_bytes().len());
    let ghost with_length = framed@;
    framed.append(brk);
    let ghost with_break = framed@;
    framed.append(msg);
    proof {
        reveal_strlit("\r\n\r\n");
        assert(is_ascii_chars(brk@));
        is_ascii_chars_encode_utf8(brk@);
        assert(encode_utf8(brk@) =~= line_break() + line_break());
        lemma_encode_concat(with_length, brk@);
        lemma_encode_concat(with_break, msg@);
        assert(encode_utf8(framed@) =~= frame(encode_utf8(msg@)));
    }
    framed
}

} // verus!
