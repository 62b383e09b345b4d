//! The diagnostic path: bytes from the peer's diagnostic stream, gathered
//! into lines.
//!
//! This path shares nothing with the table of pending requests, so a stall
//! or a failure here cannot delay a response.

use vstd::prelude::*;
use crate::wire::LF;

verus! {

/// What a buffer of diagnostic bytes yields when it is read to the end.
pub struct Lines {
    /// The complete lines, each with its line feed, in order.
    pub lines: Seq<Seq<u8>>,
    /// The bytes after the last line feed.
    pub rest: Seq<u8>,
}

/// Cuts a run of bytes after each line feed. `partial` holds the bytes of
/// the line that is open where the run starts.
pub open spec fn split_lines(partial: Seq<u8>, bytes: Seq<u8>) -> Lines
    decreases bytes.len(),
{
    if bytes.len() == 0 {
        Lines { lines: Seq::empty(), rest: partial }
    } else if bytes[0] == LF {
        let tail = split_lines(Seq::empty(), bytes.drop_first());
        Lines { lines: seq![partial.push(LF)] + tail.lines, rest: tail.rest }
    } else {
        split_lines(partial.push(bytes[0]), bytes.drop_first())
    }
}

/// The receiving end of the peer's diagnostic stream: the bytes of the line
/// that is not yet complete.
pub struct DiagnosticBuffer {
    line: Vec<u8>,
}

impl DiagnosticBuffer {
    /// The bytes of the line that is open.
    pub closed spec fn partial(&self) -> Seq<u8> {
        self.line@
    }

    /// The receiving end of a stream from which nothing has arrived.
    pub fn new() -> (buffer: Self)
        ensures
            buffer.partial() == Seq::<u8>::empty(),
    {
        DiagnosticBuffer { line: Vec::new() }
    }

    /// Takes one byte. A line feed completes the line, which is returned
    /// with it; any other byte is kept.
    pub fn push(&mut self, byte: u8) -> (line: Option<Vec<u8>>)
        ensures
            match line {
                Some(done) => byte == LF && done@ == old(self).partial().push(LF)
                    && final(self).partial() == Seq::<u8>::empty(),
                None => byte != LF && final(self).partial() == old(self).partial().push(byte),
            },
    {
        self.line.push(byte);
        if byte == LF {
            let mut done: Vec<u8> = Vec::new();
            core::mem::swap(&mut self.line, &mut done);
            Some(done)
        } else {
            None
        }
    }

    /// Takes the bytes that a read returned, and returns the lines that
    /// they complete, in order.
    pub fn feed(&mut self, bytes: &[u8]) -> (lines: Vec<Vec<u8>>)
        ensures
            lines@.len() == split_lines(old(self).partial(), bytes@).lines.len(),
            forall|i: int|
                0 <= i < lines@.len() ==> (#[trigger] lines@[i])@ == split_lines(
                    old(self).partial(),
                    bytes@,
                ).lines[i],
            final(self).partial() == split_lines(old(self).partial(), bytes@).rest,
    {
        let mut lines: Vec<Vec<u8>> = Vec::new();
        let mut i: usize = 0;
        let ghost all = split_lines(old(self).partial(), bytes@);
        assert(bytes@.skip(0) =~= bytes@);
        while i < bytes.len()
            invariant
                i <= bytes.len(),
                all == split_lines(old(self).partial(), bytes@),
                all.lines.len() == lines@.len() + split_lines(
                    self.partial(),
                    bytes@.skip(i as int),
                ).lines.len(),
                forall|k: int| 0 <= k < lines@.len() ==> (#[trigger] lines@[k])@ == all.lines[k],
                forall|k: int|
                    lines@.len() <= k < all.lines.len() ==> all.lines[k] == split_lines(
                        self.partial(),
                        bytes@.skip(i as int),
                    ).lines[k - lines@.len()],
                all.rest == split_lines(self.partial(), bytes@.skip(i as int)).rest,
            decreases bytes.len() - i,
        {
            let ghost before = self.partial();
            let ghost count = lines@.len();
            assert(bytes@.skip(i as int).drop_first() =~= bytes@.skip(i + 1));
            assert(bytes@.skip(i as int)[0] == bytes@[i as int]);
            match self.push(bytes[i]) {
                Some(done) => {
                    lines.push(done);
                    proof {
                        let here = split_lines(before, bytes@.skip(i as int));
                        let tail = split_lines(Seq::empty(), bytes@.skip(i + 1));
                        assert(here.lines =~= seq![before.push(LF)] + tail.lines);
                        assert(all.lines[count as int] == here.lines[0]);
                        assert forall|k: int|
                            lines@.len() <= k < all.lines.len() implies all.lines[k]
                            == tail.lines[k - lines@.len()] by {
                            assert(all.lines[k] == here.lines[k - count]);
                        }
                    }
                },
                None => {},
            }
            i += 1;
        }
        lines
    }
}

} // verus!
