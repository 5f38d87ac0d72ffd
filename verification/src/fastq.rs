//! The four-line record format: a header line that begins with `@`, the
//! sequence, a separator line that begins with `+`, and the quality line,
//! which is as long as the sequence.

use crate::error::{ParseError, ParseErrorView, WriteError};
use crate::fastq_laws::{lemma_fastq_encoding_push, lemma_fastq_step_advances};
use crate::lines::{begins_with, is_line, is_marked, is_single_line, LINE_BREAK};
use crate::pull::{
    all_records, broken, broken_at, drain, outcome, pull, pulls_left, reader_view, stream_after,
    Pull, PullView, ReaderView, Status, Step,
};
use crate::stream::{
    is_compressed_path, opened, reader, source, writer, ByteSink, ByteStream, LineRead, LineStep,
    SinkView, StreamView,
};
use vstd::prelude::*;
use vstd::slice::slice_to_vec;
use vstd::string::StringSliceAdditionalSpecFns;

verus! {

/// The first byte of a header line, `@`.
pub const FASTQ_MARKER: u8 = 64;

/// The first byte of a separator line, `+`.
pub const SEPARATOR_MARKER: u8 = 43;

/// A four-line record as contracts speak of it: its four lines, without
/// their line breaks.
pub struct FastqRecordView {
    pub header: Seq<u8>,
    pub sequence: Seq<u8>,
    pub separator: Seq<u8>,
    pub quality: Seq<u8>,
}

impl FastqRecordView {
    /// The header and the separator begin with their markers, each field is
    /// one line, and there is one quality byte for each sequence byte.
    pub open spec fn wf(self) -> bool {
        &&& is_marked(self.header, FASTQ_MARKER)
        &&& is_marked(self.separator, SEPARATOR_MARKER)
        &&& is_single_line(self.header)
        &&& is_single_line(self.sequence)
        &&& is_single_line(self.separator)
        &&& is_single_line(self.quality)
        &&& self.sequence.len() == self.quality.len()
    }

    /// The record as it is written: each field followed by a line break.
    pub open spec fn encoding(self) -> Seq<u8> {
        self.header.push(LINE_BREAK) + self.sequence.push(LINE_BREAK) + self.separator.push(
            LINE_BREAK,
        ) + self.quality.push(LINE_BREAK)
    }
}

/// A record of the four-line format. Every value is well formed.
#[derive(Debug, PartialEq, Eq)]
pub struct FastqRecord {
    header: Vec<u8>,
    sequence: Vec<u8>,
    separator: Vec<u8>,
    quality: Vec<u8>,
}

impl View for FastqRecord {
    type V = FastqRecordView;

    closed spec fn view(&self) -> FastqRecordView {
        FastqRecordView {
            header: self.header@,
            sequence: self.sequence@,
            separator: self.separator@,
            quality: self.quality@,
        }
    }
}

impl FastqRecord {
    #[verifier::type_invariant]
    spec fn inv(self) -> bool {
        self@.wf()
    }

    /// The record with the given lines, where they make a well-formed one.
    pub fn new(header: Vec<u8>, sequence: Vec<u8>, separator: Vec<u8>, quality: Vec<u8>) -> (r:
        Option<FastqRecord>)
        ensures
            r is Some == (FastqRecordView {
                header: header@,
                sequence: sequence@,
                separator: separator@,
                quality: quality@,
            }).wf(),
            r matches Some(record) ==> record@ == (FastqRecordView {
                header: header@,
                sequence: sequence@,
                separator: separator@,
                quality: quality@,
            }),
    {
        if begins_with(header.as_slice(), FASTQ_MARKER) && begins_with(
            separator.as_slice(),
            SEPARATOR_MARKER,
        ) && is_line(header.as_slice()) && is_line(sequence.as_slice()) && is_line(
            separator.as_slice(),
        ) && is_line(quality.as_slice()) && sequence.len() == quality.len() {
            Some(FastqRecord { header, sequence, separator, quality })
        } else {
            None
        }
    }

    /// The header line, marker included.
    pub fn header(&self) -> (bytes: &[u8])
        ensures
            bytes@ == self@.header,
            self@.wf(),
    {
        proof {
            use_type_invariant(self);
        }
        self.header.as_slice()
    }

    /// The sequence.
    pub fn sequence(&self) -> (bytes: &[u8])
        ensures
            bytes@ == self@.sequence,
            self@.wf(),
    {
        proof {
            use_type_invariant(self);
        }
        self.sequence.as_slice()
    }

    /// The separator line, marker included.
    pub fn separator(&self) -> (bytes: &[u8])
        ensures
            bytes@ == self@.separator,
            self@.wf(),
    {
        proof {
            use_type_invariant(self);
        }
        self.separator.as_slice()
    }

    /// The quality line.
    pub fn quality(&self) -> (bytes: &[u8])
        ensures
            bytes@ == self@.quality,
            self@.wf(),
    {
        proof {
            use_type_invariant(self);
        }
        self.quality.as_slice()
    }
}

impl Clone for FastqRecord {
    fn clone(&self) -> (copy: FastqRecord)
        ensures
            copy@ == self@,
    {
        proof {
            use_type_invariant(self);
        }
        FastqRecord {
            header: slice_to_vec(self.header.as_slice()),
            sequence: slice_to_vec(self.sequence.as_slice()),
            separator: slice_to_vec(self.separator.as_slice()),
            quality: slice_to_vec(self.quality.as_slice()),
        }
    }
}

/// One step of the format on the stream `s`. Four lines are read in turn.
/// A stream that ends before the first gives no record; one that ends
/// before the fourth is truncated. The first line must begin with `@`, the
/// third with `+`, and the second and fourth must be equally long. Each
/// failure counts the lines read up to it.
pub open spec fn fastq_step(s: StreamView) -> Step<FastqRecordView> {
    let s1 = s.behind_line();
    let s2 = s1.behind_line();
    let s3 = s2.behind_line();
    let s4 = s3.behind_line();
    match s.line_step() {
        LineStep::End => Step::End,
        LineStep::Broken => Step::Fail(broken_at(s), s),
        LineStep::Line(header) => if !is_marked(header, FASTQ_MARKER) {
            Step::Fail(ParseErrorView::Format { line: s1.line, record: None }, s1)
        } else {
            match s1.line_step() {
                LineStep::End => Step::Fail(
                    ParseErrorView::Truncated { line: s1.line, header },
                    s1,
                ),
                LineStep::Broken => Step::Fail(broken_at(s1), s1),
                LineStep::Line(sequence) => match s2.line_step() {
                    LineStep::End => Step::Fail(
                        ParseErrorView::Truncated { line: s2.line, header },
                        s2,
                    ),
                    LineStep::Broken => Step::Fail(broken_at(s2), s2),
                    LineStep::Line(separator) => if !is_marked(separator, SEPARATOR_MARKER) {
                        Step::Fail(
                            ParseErrorView::Format { line: s3.line, record: Some(header) },
                            s3,
                        )
                    } else {
                        match s3.line_step() {
                            LineStep::End => Step::Fail(
                                ParseErrorView::Truncated { line: s3.line, header },
                                s3,
                            ),
                            LineStep::Broken => Step::Fail(broken_at(s3), s3),
                            LineStep::Line(quality) => if sequence.len() != quality.len() {
                                Step::Fail(
                                    ParseErrorView::LengthMismatch {
                                        line: s4.line,
                                        header,
                                        sequence_len: sequence.len(),
                                        quality_len: quality.len(),
                                    },
                                    s4,
                                )
                            } else {
                                Step::Record(
                                    FastqRecordView { header, sequence, separator, quality },
                                    s4,
                                )
                            },
                        }
                    },
                },
            }
        },
    }
}

/// Parses the next record from `stream`.
pub fn parse_next(stream: &mut ByteStream) -> (r: Pull<FastqRecord>)
    ensures
        r@ == outcome(fastq_step(old(stream)@)),
        final(stream)@ == stream_after(fastq_step(old(stream)@), old(stream)@),
{
    let header = match stream.read_line() {
        LineRead::End => { return Pull::End; },
        LineRead::Broken => { return Pull::Failure(broken(stream)); },
        LineRead::Line(line) => line,
    };
    if !begins_with(header.as_slice(), FASTQ_MARKER) {
        return Pull::Failure(ParseError::Format { line: stream.line_number(), record: None });
    }
    let sequence = match stream.read_line() {
        LineRead::End => {
            return Pull::Failure(ParseError::Truncated { line: stream.line_number(), header });
        },
        LineRead::Broken => { return Pull::Failure(broken(stream)); },
        LineRead::Line(line) => line,
    };
    let separator = match stream.read_line() {
        LineRead::End => {
            return Pull::Failure(ParseError::Truncated { line: stream.line_number(), header });
        },
        LineRead::Broken => { return Pull::Failure(broken(stream)); },
        LineRead::Line(line) => line,
    };
    if !begins_with(separator.as_slice(), SEPARATOR_MARKER) {
        return Pull::Failure(
            ParseError::Format { line: stream.line_number(), record: Some(header) },
        );
    }
    let quality = match stream.read_line() {
        LineRead::End => {
            return Pull::Failure(ParseError::Truncated { line: stream.line_number(), header });
        },
        LineRead::Broken => { return Pull::Failure(broken(stream)); },
        LineRead::Line(line) => line,
    };
    if sequence.len() != quality.len() {
        return Pull::Failure(
            ParseError::LengthMismatch {
                line: stream.line_number(),
                header,
                sequence_len: sequence.len(),
                quality_len: quality.len(),
            },
        );
    }
    Pull::Record(FastqRecord { header, sequence, separator, quality })
}

/// Writes `record` to `sink`: its four lines in order, each with a line
/// break.
pub fn serialize(record: &FastqRecord, sink: &mut ByteSink)
    ensures
        final(sink)@ == old(sink)@.write(record@.encoding()),
{
    sink.write_line(record.header.as_slice());
    sink.write_line(record.sequence.as_slice());
    sink.write_line(record.separator.as_slice());
    sink.write_line(record.quality.as_slice());
    assert(sink@.written =~= old(sink)@.written + record@.encoding());
}

/// One pull from a reader of this format.
pub open spec fn fastq_pull(state: ReaderView) -> (PullView<FastqRecordView>, ReaderView) {
    pull(state, |s: StreamView| fastq_step(s))
}

/// Every record of the stream `s`, or the first failure.
pub open spec fn fastq_records(s: StreamView) -> Result<Seq<FastqRecordView>, ParseErrorView> {
    all_records(s, |s: StreamView| fastq_step(s))
}

/// Every record that a reader in `state` still gives, or the failure that
/// stops it.
pub open spec fn fastq_drain(state: ReaderView) -> Result<Seq<FastqRecordView>, ParseErrorView> {
    drain(state, |s: StreamView| fastq_step(s))
}

/// The views of `records`, in order.
pub open spec fn fastq_views(records: Seq<FastqRecord>) -> Seq<FastqRecordView> {
    records.map_values(|r: FastqRecord| r@)
}

/// A lazy, single-pass reader of the records of a stream.
#[derive(Debug)]
pub struct FastqReader {
    stream: ByteStream,
    status: Status,
}

impl View for FastqReader {
    type V = ReaderView;

    closed spec fn view(&self) -> ReaderView {
        reader_view(self.stream@, self.status)
    }
}

impl FastqReader {
    /// A reader at the start of `stream`.
    pub fn new(stream: ByteStream) -> (r: FastqReader)
        ensures
            r@ == ReaderView::Active(stream@),
    {
        FastqReader { stream, status: Status::Active }
    }

    /// Whether the reader has reached the end of its stream.
    pub fn is_exhausted(&self) -> (b: bool)
        ensures
            b == (self@ is Exhausted),
    {
        match &self.status {
            Status::Exhausted => true,
            _ => false,
        }
    }

    /// Whether the reader has stopped at a malformed record.
    pub fn has_failed(&self) -> (b: bool)
        ensures
            b == (self@ is Failed),
    {
        match &self.status {
            Status::Failed(_) => true,
            _ => false,
        }
    }

    /// Pulls the next record. At the end of the stream the reader is
    /// exhausted; at a malformed record it fails, keeps the failure and
    /// reports it again at every further pull.
    pub fn next_record(&mut self) -> (r: Pull<FastqRecord>)
        ensures
            (r@, final(self)@) == fastq_pull(old(self)@),
    {
        match &self.status {
            Status::Exhausted => Pull::End,
            Status::Failed(e) => Pull::Failure(e.clone()),
            Status::Active => {
                let r = parse_next(&mut self.stream);
                match &r {
                    Pull::Record(_) => {},
                    Pull::End => {
                        self.status = Status::Exhausted;
                    },
                    Pull::Failure(e) => {
                        self.status = Status::Failed(e.clone());
                    },
                }
                r
            },
        }
    }

    /// Pulls every record that is left. A failure ends the reading and is
    /// returned in place of the records.
    pub fn read_all(&mut self) -> (r: Result<Vec<FastqRecord>, ParseError>)
        ensures
            match fastq_drain(old(self)@) {
                Ok(records) => r matches Ok(v) && fastq_views(v@) == records && final(self)@
                    == ReaderView::Exhausted,
                Err(e) => r matches Err(x) && x@ == e && final(self)@ == ReaderView::Failed(e),
            },
    {
        let mut records: Vec<FastqRecord> = Vec::new();
        assert(fastq_views(records@) =~= Seq::empty());
        loop
            invariant
                fastq_drain(old(self)@) == match fastq_drain(self@) {
                    Ok(rest) => Ok::<Seq<FastqRecordView>, ParseErrorView>(
                        fastq_views(records@) + rest,
                    ),
                    Err(e) => Err(e),
                },
            decreases pulls_left(self@),
        {
            let ghost before = self@;
            let ghost seen = fastq_views(records@);
            proof {
                if let ReaderView::Active(s) = before {
                    lemma_fastq_step_advances(s);
                }
            }
            match self.next_record() {
                Pull::Record(record) => {
                    records.push(record);
                    proof {
                        assert(fastq_views(records@) =~= seen.push(record@));
                        if let Ok(rest) = fastq_drain(self@) {
                            assert(seen + (seq![record@] + rest) =~= seen.push(record@) + rest);
                        }
                    }
                },
                Pull::End => {
                    proof {
                        assert(seen + Seq::<FastqRecordView>::empty() =~= seen);
                    }
                    return Ok(records);
                },
                Pull::Failure(e) => {
                    return Err(e);
                },
            }
        }
    }
}

/// The records `records` as they are written, one after the other.
pub open spec fn fastq_encoding(records: Seq<FastqRecordView>) -> Seq<u8>
    decreases records.len(),
{
    if records.len() == 0 {
        Seq::empty()
    } else {
        records[0].encoding() + fastq_encoding(records.drop_first())
    }
}

/// A writer of records to a sink.
#[derive(Debug)]
pub struct FastqWriter {
    sink: ByteSink,
}

impl View for FastqWriter {
    type V = SinkView;

    closed spec fn view(&self) -> SinkView {
        self.sink@
    }
}

impl FastqWriter {
    /// A writer that appends to `sink`.
    pub fn new(sink: ByteSink) -> (w: FastqWriter)
        ensures
            w@ == sink@,
    {
        FastqWriter { sink }
    }

    /// Writes one record.
    pub fn write_record(&mut self, record: &FastqRecord)
        ensures
            final(self)@ == old(self)@.write(record@.encoding()),
    {
        serialize(record, &mut self.sink);
    }

    /// Writes `records` in order.
    pub fn write_all(&mut self, records: &[FastqRecord])
        ensures
            final(self)@ == old(self)@.write(fastq_encoding(fastq_views(records@))),
    {
        let n: usize = records.len();
        let mut i: usize = 0;
        assert(fastq_views(records@.take(0)) =~= Seq::empty());
        assert(old(self)@.written + Seq::<u8>::empty() =~= old(self)@.written);
        while i < n
            invariant
                i <= n,
                n == records@.len(),
                self@ == old(self)@.write(fastq_encoding(fastq_views(records@.take(i as int)))),
            decreases n - i,
        {
            let ghost done = fastq_views(records@.take(i as int));
            self.write_record(&records[i]);
            proof {
                lemma_fastq_encoding_push(done, records@[i as int]@);
                assert(fastq_views(records@.take(i + 1)) =~= done.push(records@[i as int]@));
                assert(old(self)@.written + fastq_encoding(done) + records@[i as int]@.encoding()
                    =~= old(self)@.written + (fastq_encoding(done)
                    + records@[i as int]@.encoding()));
            }
            i += 1;
        }
        assert(records@.take(n as int) =~= records@);
    }

    /// Ends the stream and hands out the contents of the file to store.
    pub fn finish(self) -> (r: Result<Vec<u8>, WriteError>)
        ensures
            match self@.finished() {
                Ok(file) => r matches Ok(bytes) && bytes@ == file,
                Err(e) => r matches Err(error) && error@ == e,
            },
            r matches Ok(file) ==> self@.stored_as(file@),
    {
        self.sink.finish()
    }
}

/// Opens a reader of this format on the contents of the file `filename`,
/// decoded where the name selects gzip framing. Contents that do not decode
/// give no record: the first pull fails.
pub fn fastq_reader(filename: &str, contents: Vec<u8>) -> (r: FastqReader)
    ensures
        r@ == ReaderView::Active(source(filename@, opened(filename.spec_bytes(), contents@))),
{
    FastqReader::new(reader(filename, contents))
}

/// Opens a writer of this format for the file `filename`, compressed where
/// the name selects gzip framing.
pub fn fastq_writer(filename: &str) -> (w: FastqWriter)
    ensures
        w@ == (SinkView {
            path: filename@,
            compressed: is_compressed_path(filename.spec_bytes()),
            written: Seq::empty(),
        }),
{
    FastqWriter::new(writer(filename))
}

} // verus!
