//! Text output over a serial line: the byte-writer capability, the
//! translation of line ends, and the console that logs through a line.

use vstd::prelude::*;
use vstd::string::*;

use crate::bootabi::BootInfo;

verus! {

/// A serial line that takes one byte at a time.
pub trait SerialWriter {
    /// Every byte written to the line so far, oldest first.
    spec fn sent(&self) -> Seq<u8>;

    /// Writes `b` to the line.
    fn write_byte(&mut self, b: u8)
        ensures
            final(self).sent() == old(self).sent().push(b),
    ;
}

/// A sink for log text.
pub trait LogSink {
    /// Every byte that reached the sink so far, oldest first.
    spec fn logged(&self) -> Seq<u8>;

    /// Writes `s` to the sink, each line feed preceded by a carriage return.
    fn write_str(&mut self, s: &str)
        ensures
            final(self).logged() == old(self).logged() + crlf(s.spec_bytes()),
    ;
}

/// The bytes of a text as a serial line wants them: every line feed is
/// preceded by a carriage return.
pub open spec fn crlf(bytes: Seq<u8>) -> Seq<u8>
    decreases bytes.len(),
{
    if bytes.len() == 0 {
        Seq::empty()
    } else if bytes.last() == 0x0a {
        crlf(bytes.drop_last()).push(0x0d).push(0x0a)
    } else {
        crlf(bytes.drop_last()).push(bytes.last())
    }
}

/// Writes `s` to the line `w`, each line feed preceded by a carriage return.
pub fn write_str<W: SerialWriter>(w: &mut W, s: &str)
    ensures
        final(w).sent() == old(w).sent() + crlf(s.spec_bytes()),
{
    let bytes = s.as_bytes();
    let mut i: usize = 0;
    assert(bytes@.take(0) =~= Seq::<u8>::empty());
    assert(w.sent() =~= old(w).sent() + crlf(bytes@.take(0)));
    while i < bytes.len()
        invariant
            i <= bytes@.len(),
            bytes@ == s.spec_bytes(),
            w.sent() == old(w).sent() + crlf(bytes@.take(i as int)),
        decreases bytes@.len() - i,
    {
        let b = bytes[i];
        proof {
            let next = bytes@.take(i + 1);
            assert(next.drop_last() =~= bytes@.take(i as int));
            assert(next.last() == b);
        }
        let ghost before = w.sent();
        if b == 0x0a {
            w.write_byte(0x0d);
        }
        w.write_byte(b);
        proof {
            let done = crlf(bytes@.take(i as int));
            if b == 0x0a {
                assert(w.sent() =~= old(w).sent() + done.push(0x0d).push(0x0a));
            } else {
                assert(w.sent() =~= old(w).sent() + done.push(b));
            }
        }
        i = i + 1;
    }
    assert(bytes@.take(i as int) =~= bytes@);
}

/// The console on a serial line.
pub struct Serial<W: SerialWriter> {
    pub line: W,
}

impl<W: SerialWriter> Serial<W> {
    /// A console on the line `line`.
    pub fn new(line: W) -> (r: Serial<W>)
        ensures
            r.line == line,
    {
        Serial { line }
    }

    /// Prepares the line. The line is usable as the boot stage left it, so
    /// nothing is written.
    pub fn init(&mut self)
        ensures
            final(self).line == old(self).line,
    {
    }

    /// Writes `b` to the line as it is.
    pub fn write_raw(&mut self, b: u8)
        ensures
            final(self).line.sent() == old(self).line.sent().push(b),
    {
        self.line.write_byte(b);
    }
}

impl<W: SerialWriter> LogSink for Serial<W> {
    open spec fn logged(&self) -> Seq<u8> {
        self.line.sent()
    }

    fn write_str(&mut self, s: &str) {
        write_str(&mut self.line, s);
    }
}

/// Brings the console up and greets with the raw bytes of "OK" and a line
/// feed.
pub fn init<W: SerialWriter>(serial: &mut Serial<W>, _boot: &BootInfo)
    ensures
        final(serial).line.sent() == old(serial).line.sent().push(0x4f).push(0x4b).push(0x0a),
{
    serial.init();
    serial.write_raw(0x4f);
    serial.write_raw(0x4b);
    serial.write_raw(0x0a);
}

/// A serial line that keeps what is written to it.
pub struct SerialBuffer {
    pub bytes: Vec<u8>,
}

impl SerialBuffer {
    /// A line to which nothing was written.
    pub fn new() -> (r: SerialBuffer)
        ensures
            r.bytes@ == Seq::<u8>::empty(),
    {
        SerialBuffer { bytes: Vec::new() }
    }
}

impl SerialWriter for SerialBuffer {
    open spec fn sent(&self) -> Seq<u8> {
        self.bytes@
    }

    fn write_byte(&mut self, b: u8) {
        self.bytes.push(b);
    }
}

} // verus!
