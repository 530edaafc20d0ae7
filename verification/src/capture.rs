//! A text buffer that collects printed lines, so that what a command prints
//! can be read back.

use vstd::prelude::*;

use crate::text::push_char;

verus! {

/// Collected output text.
#[derive(Debug)]
pub struct Capture {
    buffer: String,
}

impl View for Capture {
    type V = Seq<char>;

    closed spec fn view(&self) -> Seq<char> {
        self.buffer@
    }
}

impl Capture {
    /// An empty buffer.
    pub fn new() -> (res: Capture)
        ensures
            res@ == Seq::<char>::empty(),
    {
        Capture { buffer: String::new() }
    }

    /// Appends `text` as it stands.
    pub fn push(&mut self, text: &str)
        ensures
            final(self)@ == old(self)@ + text@,
    {
        self.buffer.append(text);
    }

    /// Appends `line` and a newline, as a print of one line does.
    pub fn push_line(&mut self, line: &str)
        ensures
            final(self)@ == old(self)@ + line@ + seq!['\n'],
    {
        self.buffer.append(line);
        push_char(&mut self.buffer, '\n');
    }

    /// Everything collected so far; the buffer is left empty.
    pub fn take(&mut self) -> (res: String)
        ensures
            res@ == old(self)@,
            final(self)@ == Seq::<char>::empty(),
    {
        let mut out = String::new();
        std::mem::swap(&mut out, &mut self.buffer);
        out
    }

    /// Drops everything collected so far.
    pub fn clear(&mut self)
        ensures
            final(self)@ == Seq::<char>::empty(),
    {
        self.buffer = String::new();
    }
}

/// What `String::from_utf8_lossy` gives for `bytes`: the text they encode,
/// with each invalid sequence replaced by U+FFFD.
pub uninterp spec fn lossy_text(bytes: Seq<u8>) -> Seq<char>;

/// Calls `String::from_utf8_lossy`. The contract names the result, a
/// function of the bytes alone.
#[verifier::external_body]
fn decode_lossy(bytes: &[u8]) -> (res: String)
    ensures
        res@ == lossy_text(bytes@),
{
    String::from_utf8_lossy(bytes).into_owned()
}

/// An output stream whose bytes land in a [`Capture`] as text.
#[derive(Debug)]
pub struct CaptureWriter {
    capture: Capture,
}

impl View for CaptureWriter {
    type V = Seq<char>;

    closed spec fn view(&self) -> Seq<char> {
        self.capture@
    }
}

impl CaptureWriter {
    /// A writer into an empty capture.
    pub fn new() -> (res: CaptureWriter)
        ensures
            res@ == Seq::<char>::empty(),
    {
        CaptureWriter { capture: Capture::new() }
    }

    /// Appends the text of `buf`, decoded leniently, and reports the whole
    /// buffer written.
    pub fn write(&mut self, buf: &[u8]) -> (res: usize)
        ensures
            res == buf@.len(),
            final(self)@ == old(self)@ + lossy_text(buf@),
    {
        let text = decode_lossy(buf);
        self.capture.push(text.as_str());
        buf.len()
    }

    /// Nothing is buffered apart from the capture itself.
    pub fn flush(&mut self)
        ensures
            final(self)@ == old(self)@,
    {
    }

    /// The capture that was written into.
    pub fn into_capture(self) -> (res: Capture)
        ensures
            res@ == self@,
    {
        self.capture
    }
}

} // verus!
