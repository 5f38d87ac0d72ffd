//! The two-field record format: a header line that begins with `>`, then
//! any number of body lines, which together make the sequence. The record
//! ends where the next header line begins, or with the stream.

use crate::error::{ParseError, ParseErrorView, WriteError};
use crate::fasta_laws::{lemma_fasta_encoding_push, lemma_fasta_step_advances};
use crate::lines::{append_bytes, begins_with, is_line, is_marked, is_single_line, LINE_BREAK};
use crate::pull::{
    all_records, broken, broken_at, drain, outcome, pull, pulls_left, reader_view, stream_after,
    Pull, PullView, ReaderView, Status, Step,
};
use crate::stream::{
    is_compressed_path, lemma_read_advances, opened, reader, source, writer, ByteSink, ByteStream,
    LineRead, LineStep, SinkView, StreamView,
};
use vstd::prelude::*;
use vstd::slice::slice_to_vec;
use vstd::string::StringSliceAdditionalSpecFns;

verus! {

/// The first byte of a header line, `>`.
pub const FASTA_MARKER: u8 = 62;

/// A two-field record as contracts speak of it: the header line, and the
/// body lines joined without their line breaks.
pub struct FastaRecordView {
    pub header: Seq<u8>,
    pub sequence: Seq<u8>,
}

impl FastaRecordView {
    /// The header begins with its marker, and neither field holds a line
    /// break. The sequence may be empty.
    pub open spec fn wf(self) -> bool {
        &&& is_marked(self.header, FASTA_MARKER)
        &&& is_single_line(self.header)
        &&& is_single_line(self.sequence)
    }

    /// The record as it is written: the header, a line break, the sequence
    /// on one line, a line break.
    pub open spec fn encoding(self) -> Seq<u8> {
        self.header.push(LINE_BREAK) + self.sequence.push(LINE_BREAK)
    }

    /// The sequence does not begin with the header marker. A line that
    /// begins with it always starts a record, so only such a sequence is
    /// read back as it was written.
    pub open spec fn is_plain(self) -> bool {
        !is_marked(self.sequence, FASTA_MARKER)
    }
}

/// A record of the two-field format. Every value is well formed.
#[derive(Debug, PartialEq, Eq)]
pub struct FastaRecord {
    header: Vec<u8>,
    sequence: Vec<u8>,
}

impl View for FastaRecord {
    type V = FastaRecordView;

    closed spec fn view(&self) -> FastaRecordView {
        FastaRecordView { header: self.header@, sequence: self.sequence@ }
    }
}

impl FastaRecord {
    #[verifier::type_invariant]
    spec fn inv(self) -> bool {
        self@.wf()
    }

    /// The record with the given header and sequence, where they make a
    /// well-formed one.
    pub fn new(header: Vec<u8>, sequence: Vec<u8>) -> (r: Option<FastaRecord>)
        ensures
            r is Some == (FastaRecordView { header: header@, sequence: sequence@ }).wf(),
            r matches Some(record) ==> record@ == (FastaRecordView {
                header: header@,
                sequence: sequence@,
            }),
    {
        if begins_with(header.as_slice(), FASTA_MARKER) && is_line(header.as_slice()) && is_line(
            sequence.as_slice(),
        ) {
            Some(FastaRecord { header, sequence })
        } else {
            None
        }
    }

    /// The header line, marker included.
    pub fn header(&self) -> (bytes: &[u8])
        ensures
            bytes@ == self@.header,
            self@.wf(),
    {
        proof {
            use_type_invariant(self);
        }
        self.header.as_slice()
    }

    /// The sequence.
    pub fn sequence(&self) -> (bytes: &[u8])
        ensures
            bytes@ == self@.sequence,
            self@.wf(),
    {
        proof {
            use_type_invariant(self);
        }
        self.sequence.as_slice()
    }
}

impl Clone for FastaRecord {
    fn clone(&self) -> (copy: FastaRecord)
        ensures
            copy@ == self@,
    {
        proof {
            use_type_invariant(self);
        }
        FastaRecord {
            header: slice_to_vec(self.header.as_slice()),
            sequence: slice_to_vec(self.sequence.as_slice()),
        }
    }
}

/// The body of the record under `header`, of which `sequence` has been
/// read, on the stream `s`. Lines are added to the sequence until the
/// stream ends or its next byte is the header marker. That byte stays in
/// the stream: it starts the next record.
pub open spec fn fasta_body(header: Seq<u8>, sequence: Seq<u8>, s: StreamView) -> Step<
    FastaRecordView,
>
    decreases s.rest.len(),
    via fasta_body_decreases
{
    if is_marked(s.rest, FASTA_MARKER) {
        Step::Record(FastaRecordView { header, sequence }, s)
    } else {
        match s.line_step() {
            LineStep::Line(line) => fasta_body(header, sequence + line, s.behind_line()),
            LineStep::End => Step::Record(FastaRecordView { header, sequence }, s),
            LineStep::Broken => Step::Fail(broken_at(s), s),
        }
    }
}

#[via_fn]
proof fn fasta_body_decreases(header: Seq<u8>, sequence: Seq<u8>, s: StreamView) {
    lemma_read_advances(s);
}

/// One step of the format on the stream `s`. A stream that ends where a
/// record would begin gives no record. Any other first line must begin with
/// `>`: nothing is skipped in search of a header. The body follows.
pub open spec fn fasta_step(s: StreamView) -> Step<FastaRecordView> {
    match s.line_step() {
        LineStep::End => Step::End,
        LineStep::Broken => Step::Fail(broken_at(s), s),
        LineStep::Line(header) => if is_marked(header, FASTA_MARKER) {
            fasta_body(header, Seq::empty(), s.behind_line())
        } else {
            Step::Fail(
                ParseErrorView::Format { line: s.behind_line().line, record: None },
                s.behind_line(),
            )
        },
    }
}

/// Parses the next record from `stream`.
pub fn parse_next(stream: &mut ByteStream) -> (r: Pull<FastaRecord>)
    ensures
        r@ == outcome(fasta_step(old(stream)@)),
        final(stream)@ == stream_after(fasta_step(old(stream)@), old(stream)@),
{
    let header = match stream.read_line() {
        LineRead::End => { return Pull::End; },
        LineRead::Broken => { return Pull::Failure(broken(stream)); },
        LineRead::Line(line) => line,
    };
    if !begins_with(header.as_slice(), FASTA_MARKER) {
        return Pull::Failure(ParseError::Format { line: stream.line_number(), record: None });
    }
    let mut sequence: Vec<u8> = Vec::new();
    loop
        invariant
            is_marked(header@, FASTA_MARKER),
            is_single_line(header@),
            is_single_line(sequence@),
            fasta_step(old(stream)@) == fasta_body(header@, sequence@, stream@),
        decreases stream@.rest.len(),
    {
        if stream.starts_with(FASTA_MARKER) {
            return Pull::Record(FastaRecord { header, sequence });
        }
        proof {
            lemma_read_advances(stream@);
        }
        match stream.read_line() {
            LineRead::Line(line) => {
                append_bytes(&mut sequence, line.as_slice());
            },
            LineRead::End => {
                return Pull::Record(FastaRecord { header, sequence });
            },
            LineRead::Broken => {
                return Pull::Failure(broken(stream));
            },
        }
    }
}

/// Writes `record` to `sink`: the header and the sequence, each on a line of
/// its own. The sequence is not wrapped.
pub fn serialize(record: &FastaRecord, sink: &mut ByteSink)
    ensures
        final(sink)@ == old(sink)@.write(record@.encoding()),
{
    sink.write_line(record.header.as_slice());
    sink.write_line(record.sequence.as_slice());
    assert(sink@.written =~= old(sink)@.written + record@.encoding());
}

/// One pull from a reader of this format.
pub open spec fn fasta_pull(state: ReaderView) -> (PullView<FastaRecordView>, ReaderView) {
    pull(state, |s: StreamView| fasta_step(s))
}

/// Every record of the stream `s`, or the first failure.
pub open spec fn fasta_records(s: StreamView) -> Result<Seq<FastaRecordView>, ParseErrorView> {
    all_records(s, |s: StreamView| fasta_step(s))
}

/// Every record that a reader in `state` still gives, or the failure that
/// stops it.
pub open spec fn fasta_drain(state: ReaderView) -> Result<Seq<FastaRecordView>, ParseErrorView> {
    drain(state, |s: StreamView| fasta_step(s))
}

/// The views of `records`, in order.
pub open spec fn fasta_views(records: Seq<FastaRecord>) -> Seq<FastaRecordView> {
    records.map_values(|r: FastaRecord| r@)
}

/// The records `records` as they are written, one after the other.
pub open spec fn fasta_encoding(records: Seq<FastaRecordView>) -> Seq<u8>
    decreases records.len(),
{
    if records.len() == 0 {
        Seq::empty()
    } else {
        records[0].encoding() + fasta_encoding(records.drop_first())
    }
}

/// A lazy, single-pass reader of the records of a stream.
#[derive(Debug)]
pub struct FastaReader {
    stream: ByteStream,
    status: Status,
}

impl View for FastaReader {
    type V = ReaderView;

    closed spec fn view(&self) -> ReaderView {
        reader_view(self.stream@, self.status)
    }
}

impl FastaReader {
    /// A reader at the start of `stream`.
    pub fn new(stream: ByteStream) -> (r: FastaReader)
        ensures
            r@ == ReaderView::Active(stream@),
    {
        FastaReader { stream, status: Status::Active }
    }

    /// Whether the reader has reached the end of its stream.
    pub fn is_exhausted(&self) -> (b: bool)
        ensures
            b == (self@ is Exhausted),
    {
        match &self.status {
            Status::Exhausted => true,
            _ => false,
        }
    }

    /// Whether the reader has stopped at a malformed record.
    pub fn has_failed(&self) -> (b: bool)
        ensures
            b == (self@ is Failed),
    {
        match &self.status {
            Status::Failed(_) => true,
            _ => false,
        }
    }

    /// Pulls the next record. At the end of the stream the reader is
    /// exhausted; at a malformed record it fails, keeps the failure and
    /// reports it again at every further pull.
    pub fn next_record(&mut self) -> (r: Pull<FastaRecord>)
        ensures
            (r@, final(self)@) == fasta_pull(old(self)@),
    {
        match &self.status {
            Status::Exhausted => Pull::End,
            Status::Failed(e) => Pull::Failure(e.clone()),
            Status::Active => {
                let r = parse_next(&mut self.stream);
                match &r {
                    Pull::Record(_) => {},
                    Pull::End => {
                        self.status = Status::Exhausted;
                    },
                    Pull::Failure(e) => {
                        self.status = Status::Failed(e.clone());
                    },
                }
                r
            },
        }
    }

    /// Pulls every record that is left. A failure ends the reading and is
    /// returned in place of the records.
    pub fn read_all(&mut self) -> (r: Result<Vec<FastaRecord>, ParseError>)
        ensures
            match fasta_drain(old(self)@) {
                Ok(records) => r matches Ok(v) && fasta_views(v@) == records && final(self)@
                    == ReaderView::Exhausted,
                Err(e) => r matches Err(x) && x@ == e && final(self)@ == ReaderView::Failed(e),
            },
    {
        let mut records: Vec<FastaRecord> = Vec::new();
        assert(fasta_views(records@) =~= Seq::empty());
        loop
            invariant
                fasta_drain(old(self)@) == match fasta_drain(self@) {
                    Ok(rest) => Ok::<Seq<FastaRecordView>, ParseErrorView>(
                        fasta_views(records@) + rest,
                    ),
                    Err(e) => Err(e),
                },
            decreases pulls_left(self@),
        {
            let ghost before = self@;
            let ghost seen = fasta_views(records@);
            proof {
                if let ReaderView::Active(s) = before {
                    lemma_fasta_step_advances(s);
                }
            }
            match self.next_record() {
                Pull::Record(record) => {
                    records.push(record);
                    proof {
                        assert(fasta_views(records@) =~= seen.push(record@));
                        if let Ok(rest) = fasta_drain(self@) {
                            assert(seen + (seq![record@] + rest) =~= seen.push(record@) + rest);
                        }
                    }
                },
                Pull::End => {
                    proof {
                        assert(seen + Seq::<FastaRecordView>::empty() =~= seen);
                    }
                    return Ok(records);
                },
                Pull::Failure(e) => {
                    return Err(e);
                },
            }
        }
    }
}

/// A writer of records to a sink.
#[derive(Debug)]
pub struct FastaWriter {
    sink: ByteSink,
}

impl View for FastaWriter {
    type V = SinkView;

    closed spec fn view(&self) -> SinkView {
        self.sink@
    }
}

impl FastaWriter {
    /// A writer that appends to `sink`.
    pub fn new(sink: ByteSink) -> (w: FastaWriter)
        ensures
            w@ == sink@,
    {
        FastaWriter { sink }
    }

    /// Writes one record.
    pub fn write_record(&mut self, record: &FastaRecord)
        ensures
            final(self)@ == old(self)@.write(record@.encoding()),
    {
        serialize(record, &mut self.sink);
    }

    /// Writes `records` in order.
    pub fn write_all(&mut self, records: &[FastaRecord])
        ensures
            final(self)@ == old(self)@.write(fasta_encoding(fasta_views(records@))),
    {
        let n: usize = records.len();
        let mut i: usize = 0;
        assert(fasta_views(records@.take(0)) =~= Seq::empty());
        assert(old(self)@.written + Seq::<u8>::empty() =~= old(self)@.written);
        while i < n
            invariant
                i <= n,
                n == records@.len(),
                self@ == old(self)@.write(fasta_encoding(fasta_views(records@.take(i as int)))),
            decreases n - i,
        {
            let ghost done = fasta_views(records@.take(i as int));
            self.write_record(&records[i]);
            proof {
                lemma_fasta_encoding_push(done, records@[i as int]@);
                assert(fasta_views(records@.take(i + 1)) =~= done.push(records@[i as int]@));
                assert(old(self)@.written + fasta_encoding(done) + records@[i as int]@.encoding()
                    =~= old(self)@.written + (fasta_encoding(done)
                    + records@[i as int]@.encoding()));
            }
            i += 1;
        }
        assert(records@.take(n as int) =~= records@);
    }

    /// Ends the stream and hands out the contents of the file to store.
    pub fn finish(self) -> (r: Result<Vec<u8>, WriteError>)
        ensures
            match self@.finished() {
                Ok(file) => r matches Ok(bytes) && bytes@ == file,
                Err(e) => r matches Err(error) && error@ == e,
            },
            r matches Ok(file) ==> self@.stored_as(file@),
    {
        self.sink.finish()
    }
}

/// Opens a reader of this format on the contents of the file `filename`,
/// decoded where the name selects gzip framing. Contents that do not decode
/// give no record: the first pull fails.
pub fn fasta_reader(filename: &str, contents: Vec<u8>) -> (r: FastaReader)
    ensures
        r@ == ReaderView::Active(source(filename@, opened(filename.spec_bytes(), contents@))),
{
    FastaReader::new(reader(filename, contents))
}

/// Opens a writer of this format for the file `filename`, compressed where
/// the name selects gzip framing.
pub fn fasta_writer(filename: &str) -> (w: FastaWriter)
    ensures
        w@ == (SinkView {
            path: filename@,
            compressed: is_compressed_path(filename.spec_bytes()),
            written: Seq::empty(),
        }),
{
    FastaWriter::new(writer(filename))
}

} // verus!
