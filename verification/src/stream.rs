//! Byte streams: the source that records are read from, the sink that they
//! are written to, and the rule that picks gzip framing from a file name.

use crate::error::{WriteError, WriteErrorView};
use crate::gzip::{gz_decode, gz_deflated, gz_encode, gz_inflated};
use crate::lines::{
    after_line, append_bytes, blank, first_line, is_blank, is_padding, is_single_line,
    lemma_first_line, lemma_line_len_is, lemma_line_then_rest, lemma_padded_line_then_rest,
    lemma_trimmed_is, line_len, line_terminated, LINE_BREAK,
};
use vstd::prelude::*;
use vstd::slice::{slice_subrange, slice_to_vec};
use vstd::string::StringSliceAdditionalSpecFns;

verus! {

/// The size of the buffer to put between a file and a stream, in bytes.
pub const BUFFER_CAPACITY: usize = 131072;

/// The byte that separates the components of a path.
pub const PATH_SEPARATOR: u8 = 47;

/// The extension that selects gzip framing, with its dot: `.gz`.
pub open spec fn compressed_suffix() -> Seq<u8> {
    seq![46u8, 103u8, 122u8]
}

/// A path names a gzip file where the extension of its file name is `gz`,
/// in lower case: the path ends in `.gz`, and the dot is not the first byte
/// of the file name.
pub open spec fn is_compressed_path(path: Seq<u8>) -> bool {
    let stem = path.len() - compressed_suffix().len();
    &&& stem > 0
    &&& path.skip(stem) == compressed_suffix()
    &&& path[stem - 1] != PATH_SEPARATOR
}

/// Whether `filename` selects gzip framing.
pub fn is_compressed(filename: &str) -> (b: bool)
    ensures
        b == is_compressed_path(filename.spec_bytes()),
{
    let bytes = filename.as_bytes();
    let n: usize = bytes.len();
    if n < 4 {
        return false;
    }
    assert(bytes@.skip(n - 3) =~= seq![bytes@[n - 3], bytes@[n - 2], bytes@[n - 1]]);
    bytes[n - 4] != PATH_SEPARATOR && bytes[n - 3] == 46u8 && bytes[n - 2] == 103u8 && bytes[n
        - 1] == 122u8
}

/// What a byte stream still has to give: the bytes not yet read, the number
/// of lines read so far, and the fault of its source, if it has one. The
/// bytes of a stream with a fault end in a read failure, not in the end of
/// the data.
pub struct StreamView {
    pub path: Seq<char>,
    pub rest: Seq<u8>,
    pub line: nat,
    pub fault: Option<Seq<char>>,
}

/// What reading one line from a stream gives.
pub enum LineStep {
    /// A line, without its line break.
    Line(Seq<u8>),
    /// The data ended before another line began.
    End,
    /// The source failed before the line was complete.
    Broken,
}

impl StreamView {
    /// The reason for which the source failed; empty where it did not.
    pub open spec fn cause(self) -> Seq<char> {
        match self.fault {
            Some(cause) => cause,
            None => Seq::empty(),
        }
    }

    /// The outcome of reading the next line. A last line without a line
    /// break counts as a line where the data ends cleanly; where the stream
    /// is broken, the failure comes before that line is complete.
    pub open spec fn line_step(self) -> LineStep {
        if self.rest.len() == 0 {
            if self.fault is Some {
                LineStep::Broken
            } else {
                LineStep::End
            }
        } else if self.fault is Some && !line_terminated(self.rest) {
            LineStep::Broken
        } else {
            LineStep::Line(first_line(self.rest))
        }
    }

    /// The stream behind its first line and the line break of that line,
    /// with the line counted.
    pub open spec fn behind_line(self) -> StreamView {
        StreamView { rest: after_line(self.rest), line: self.line + 1, ..self }
    }

    /// The stream after an attempt to read the next line: behind the line
    /// where there was one to read, unchanged otherwise.
    pub open spec fn after_read(self) -> StreamView {
        if self.line_step() is Line {
            self.behind_line()
        } else {
            self
        }
    }
}

/// A read that gives a line gives one without a line break, which begins
/// as the stream does, and moves forward in the same stream.
pub proof fn lemma_read_advances(s: StreamView)
    ensures
        s.line_step() matches LineStep::Line(line) ==> {
            &&& is_single_line(line)
            &&& line.len() > 0 ==> line[0] == s.rest[0]
            &&& s.behind_line().rest.len() < s.rest.len()
        },
{
    lemma_first_line(s.rest);
}

/// A stream that begins with a line and its line break gives that line, and
/// then stands behind the line break.
pub proof fn lemma_reads_line(line: Seq<u8>, tail: Seq<u8>, s: StreamView)
    requires
        is_single_line(line),
        s.rest == line.push(LINE_BREAK) + tail,
    ensures
        s.line_step() == LineStep::Line(line),
        s.behind_line() == (StreamView { rest: tail, line: s.line + 1, ..s }),
{
    lemma_line_then_rest(line, tail);
}

/// A stream that begins with a line, white space and a line break gives
/// the line without the white space, and then stands behind the line break.
/// So a line that ends in a carriage return and a line feed is read as one
/// that ends in a line feed.
pub proof fn lemma_reads_padded_line(line: Seq<u8>, pad: Seq<u8>, tail: Seq<u8>, s: StreamView)
    requires
        is_single_line(line),
        is_padding(pad),
        s.rest == (line + pad).push(LINE_BREAK) + tail,
    ensures
        s.line_step() == LineStep::Line(line),
        s.behind_line() == (StreamView { rest: tail, line: s.line + 1, ..s }),
{
    lemma_padded_line_then_rest(line, pad, tail);
}

/// The outcome of reading one line, as `LineStep` describes it.
#[derive(Debug, PartialEq, Eq)]
pub enum LineRead {
    Line(Vec<u8>),
    End,
    Broken,
}

impl View for LineRead {
    type V = LineStep;

    open spec fn view(&self) -> LineStep {
        match self {
            LineRead::Line(bytes) => LineStep::Line(bytes@),
            LineRead::End => LineStep::End,
            LineRead::Broken => LineStep::Broken,
        }
    }
}

/// A forward-only source of bytes that is read line by line.
#[derive(Debug)]
pub struct ByteStream {
    path: String,
    data: Vec<u8>,
    pos: usize,
    line: usize,
    fault: Option<String>,
}

impl View for ByteStream {
    type V = StreamView;

    closed spec fn view(&self) -> StreamView {
        StreamView {
            path: self.path@,
            rest: self.data@.skip(self.pos as int),
            line: self.line as nat,
            fault: match self.fault {
                Some(cause) => Some(cause@),
                None => None,
            },
        }
    }
}

impl ByteStream {
    #[verifier::type_invariant]
    spec fn inv(self) -> bool {
        self.line <= self.pos <= self.data.len()
    }

    /// A stream over `data` that was taken from `path`. Without a fault the
    /// data ends cleanly. With one, the source failed after `data`, and the
    /// stream reports that failure where a reader reaches the end of `data`.
    pub fn from_source(path: &str, data: Vec<u8>, fault: Option<String>) -> (stream: ByteStream)
        ensures
            stream@ == (StreamView {
                path: path@,
                rest: data@,
                line: 0,
                fault: match fault {
                    Some(cause) => Some(cause@),
                    None => None,
                },
            }),
    {
        assert(data@.skip(0) =~= data@);
        ByteStream { path: path.to_owned(), data, pos: 0, line: 0, fault }
    }

    /// A stream over bytes held in memory, which end cleanly.
    pub fn from_bytes(data: Vec<u8>) -> (stream: ByteStream)
        ensures
            stream@ == (StreamView { path: Seq::empty(), rest: data@, line: 0, fault: None }),
    {
        assert(data@.skip(0) =~= data@);
        ByteStream { path: String::new(), data, pos: 0, line: 0, fault: None }
    }

    /// The number of lines read so far.
    pub fn line_number(&self) -> (n: usize)
        ensures
            n == self@.line,
    {
        self.line
    }

    /// The path that the stream was taken from.
    pub fn path(&self) -> (p: &str)
        ensures
            p@ == self@.path,
    {
        self.path.as_str()
    }

    /// The bytes not yet read.
    pub fn remaining(&self) -> (bytes: &[u8])
        ensures
            bytes@ == self@.rest,
    {
        proof {
            use_type_invariant(self);
        }
        slice_subrange(self.data.as_slice(), self.pos, self.data.len())
    }

    /// Whether the source failed behind the bytes of the stream.
    pub fn is_broken(&self) -> (b: bool)
        ensures
            b == (self@.fault is Some),
    {
        self.fault.is_some()
    }

    /// The reason for which the source failed; empty where it did not.
    pub fn cause(&self) -> (cause: String)
        ensures
            cause@ == self@.cause(),
    {
        match &self.fault {
            Some(cause) => cause.clone(),
            None => String::new(),
        }
    }

    /// Whether the next byte to read is `marker`. Nothing is consumed.
    pub fn starts_with(&self, marker: u8) -> (b: bool)
        ensures
            b == (self@.rest.len() > 0 && self@.rest[0] == marker),
    {
        proof {
            use_type_invariant(self);
        }
        self.pos < self.data.len() && self.data[self.pos] == marker
    }

    /// Whether every byte has been read.
    pub fn at_end(&self) -> (b: bool)
        ensures
            b == (self@.rest.len() == 0),
    {
        proof {
            use_type_invariant(self);
        }
        self.pos >= self.data.len()
    }

    /// Where the first line of the bytes not yet read ends, and where what
    /// it holds ends.
    fn line_end(&self) -> (ends: (usize, usize))
        ensures
            self.pos <= ends.0 <= ends.1 <= self.data.len(),
            ends.1 - self.pos == line_len(self@.rest),
            self.data@.subrange(self.pos as int, ends.0 as int) == first_line(self@.rest),
    {
        proof {
            use_type_invariant(self);
        }
        let len: usize = self.data.len();
        let mut end: usize = self.pos;
        while end < len && self.data[end] != LINE_BREAK
            invariant
                self.pos <= end <= len,
                len == self.data.len(),
                forall|i: int| self.pos <= i < end ==> self.data[i] != LINE_BREAK,
            decreases len - end,
        {
            end += 1;
        }
        let ghost raw = self.data@.subrange(self.pos as int, end as int);
        proof {
            lemma_line_len_is(self@.rest, end - self.pos);
            assert(self@.rest.take(end - self.pos) =~= raw);
        }
        let mut held: usize = end;
        while held > self.pos && blank(self.data[held - 1])
            invariant
                self.pos <= held <= end <= self.data.len(),
                raw == self.data@.subrange(self.pos as int, end as int),
                forall|i: int| held - self.pos <= i < raw.len() ==> is_blank(raw[i]),
            decreases held,
        {
            held -= 1;
        }
        proof {
            lemma_trimmed_is(raw, held - self.pos);
            assert(raw.take(held - self.pos) =~= self.data@.subrange(
                self.pos as int,
                held as int,
            ));
        }
        (held, end)
    }

    /// The next line, without its line break. Nothing is consumed: the
    /// next read gives the same line.
    pub fn peek_line(&self) -> (r: LineRead)
        ensures
            r@ == self@.line_step(),
            r matches LineRead::Line(bytes) ==> is_single_line(bytes@),
    {
        proof {
            use_type_invariant(self);
            lemma_first_line(self@.rest);
        }
        let len: usize = self.data.len();
        if self.pos >= len {
            return if self.fault.is_some() {
                LineRead::Broken
            } else {
                LineRead::End
            };
        }
        let (held, end) = self.line_end();
        if end == len && self.fault.is_some() {
            return LineRead::Broken;
        }
        LineRead::Line(slice_to_vec(slice_subrange(self.data.as_slice(), self.pos, held)))
    }

    /// Reads the next line, without its line break, and moves past it.
    pub fn read_line(&mut self) -> (r: LineRead)
        ensures
            r@ == old(self)@.line_step(),
            final(self)@ == old(self)@.after_read(),
            r matches LineRead::Line(bytes) ==> is_single_line(bytes@),
    {
        proof {
            use_type_invariant(&*self);
            lemma_first_line(self@.rest);
        }
        let r = self.peek_line();
        if let LineRead::Line(_) = &r {
            let len: usize = self.data.len();
            let (_, end) = self.line_end();
            if end < len {
                self.pos = end + 1;
            } else {
                self.pos = end;
            }
            self.line = self.line + 1;
            assert(self.data@.skip(self.pos as int) =~= after_line(old(self)@.rest));
        }
        r
    }
}

/// The bytes that a stream opened on `path` gives for a file that holds
/// `contents`: the contents themselves, or what they decode to where the
/// path names a gzip file; where they do not decode, the decoder's error.
pub open spec fn opened(path: Seq<u8>, contents: Seq<u8>) -> Result<Seq<u8>, Seq<char>> {
    if is_compressed_path(path) {
        gz_inflated(contents)
    } else {
        Ok(contents)
    }
}

/// The stream for the file `path`, given what its contents gave: the bytes,
/// ending cleanly, or no byte at all and the fault.
pub open spec fn source(path: Seq<char>, bytes: Result<Seq<u8>, Seq<char>>) -> StreamView {
    match bytes {
        Ok(bytes) => StreamView { path, rest: bytes, line: 0, fault: None },
        Err(cause) => StreamView { path, rest: Seq::empty(), line: 0, fault: Some(cause) },
    }
}

/// Opens the contents of the file `filename` for reading. Where the name
/// selects gzip framing the contents are decoded. Contents that do not
/// decode give a stream without a byte, which fails when it is first read,
/// not here.
pub fn reader(filename: &str, contents: Vec<u8>) -> (stream: ByteStream)
    ensures
        stream@ == source(filename@, opened(filename.spec_bytes(), contents@)),
{
    if is_compressed(filename) {
        match gz_decode(contents.as_slice()) {
            Ok(bytes) => ByteStream::from_source(filename, bytes, None),
            Err(cause) => ByteStream::from_source(filename, Vec::new(), Some(cause)),
        }
    } else {
        ByteStream::from_source(filename, contents, None)
    }
}

/// What a sink holds: where it will be stored, whether it is stored as
/// gzip, and the bytes written so far.
pub struct SinkView {
    pub path: Seq<char>,
    pub compressed: bool,
    pub written: Seq<u8>,
}

impl SinkView {
    /// The sink after `bytes` were written to it.
    pub open spec fn write(self, bytes: Seq<u8>) -> SinkView {
        SinkView { written: self.written + bytes, ..self }
    }

    /// `file` is a faithful store of what was written: the bytes themselves,
    /// or a gzip stream that decodes to them.
    pub open spec fn stored_as(self, file: Seq<u8>) -> bool {
        if self.compressed {
            gz_inflated(file) == Ok::<Seq<u8>, Seq<char>>(self.written)
        } else {
            file == self.written
        }
    }

    /// What finishing the sink gives: the bytes written, or for a compressed
    /// sink what the encoder leaves for them, its failure included.
    pub open spec fn finished(self) -> Result<Seq<u8>, WriteErrorView> {
        if self.compressed {
            match gz_deflated(self.written) {
                Ok(file) => Ok(file),
                Err(cause) => Err(WriteErrorView { path: self.path, cause }),
            }
        } else {
            Ok(self.written)
        }
    }
}

/// A forward-only sink of bytes, which gathers what is written and hands out
/// the file contents when it is finished.
#[derive(Debug)]
pub struct ByteSink {
    path: String,
    compressed: bool,
    buf: Vec<u8>,
}

impl View for ByteSink {
    type V = SinkView;

    closed spec fn view(&self) -> SinkView {
        SinkView { path: self.path@, compressed: self.compressed, written: self.buf@ }
    }
}

impl ByteSink {
    /// Writes `bytes`.
    pub fn write_all(&mut self, bytes: &[u8])
        ensures
            final(self)@ == old(self)@.write(bytes@),
    {
        append_bytes(&mut self.buf, bytes);
    }

    /// Writes `line` and a line break.
    pub fn write_line(&mut self, line: &[u8])
        ensures
            final(self)@ == old(self)@.write(line@.push(LINE_BREAK)),
    {
        self.write_all(line);
        self.buf.push(LINE_BREAK);
        assert(self.buf@ =~= old(self).buf@ + line@.push(LINE_BREAK));
    }

    /// The bytes written so far.
    pub fn written(&self) -> (bytes: &[u8])
        ensures
            bytes@ == self@.written,
    {
        self.buf.as_slice()
    }

    /// The contents of the file for a sink on `path` that is stored as gzip,
    /// given what the encoder returned.
    pub fn framed(path: String, encoded: Result<Vec<u8>, String>) -> (r: Result<
        Vec<u8>,
        WriteError,
    >)
        ensures
            match encoded {
                Ok(file) => r == Ok::<Vec<u8>, WriteError>(file),
                Err(cause) => r == Err::<Vec<u8>, WriteError>(WriteError { path, cause }),
            },
    {
        match encoded {
            Ok(file) => Ok(file),
            Err(cause) => Err(WriteError { path, cause }),
        }
    }

    /// Ends the stream and hands out the contents of the file to store: the
    /// bytes written, or for a compressed sink the gzip stream that the
    /// encoder leaves for them, which decodes to them. It fails only where
    /// the encoder does.
    pub fn finish(self) -> (r: Result<Vec<u8>, WriteError>)
        ensures
            match self@.finished() {
                Ok(file) => r matches Ok(bytes) && bytes@ == file,
                Err(e) => r matches Err(error) && error@ == e,
            },
            r matches Ok(file) ==> self@.stored_as(file@),
    {
        if self.compressed {
            let encoded = gz_encode(self.buf.as_slice());
            ByteSink::framed(self.path, encoded)
        } else {
            Ok(self.buf)
        }
    }
}

/// Opens a sink for the file `filename`, compressed where the name selects
/// gzip framing. Nothing has been written to it.
pub fn writer(filename: &str) -> (sink: ByteSink)
    ensures
        sink@ == (SinkView {
            path: filename@,
            compressed: is_compressed_path(filename.spec_bytes()),
            written: Seq::empty(),
        }),
{
    ByteSink { path: filename.to_owned(), compressed: is_compressed(filename), buf: Vec::new() }
}

/// What a sink opened on a file name stored, a stream opened on the same
/// name reads back, byte for byte, whichever framing the name selects.
pub proof fn lemma_reads_back_what_was_written(filename: &str, data: Seq<u8>, file: Seq<u8>)
    requires
        (SinkView {
            path: filename@,
            compressed: is_compressed_path(filename.spec_bytes()),
            written: data,
        }).stored_as(file),
    ensures
        opened(filename.spec_bytes(), file) == Ok::<Seq<u8>, Seq<char>>(data),
        source(filename@, opened(filename.spec_bytes(), file)) == (StreamView {
            path: filename@,
            rest: data,
            line: 0,
            fault: None,
        }),
{
}

} // verus!
