//! What holds of the four-line format: how its reader ends, what a step
//! gives, and that records are read back as they were written.

use crate::error::ParseErrorView;
use crate::fastq::{
    fastq_encoding, fastq_pull, fastq_records, fastq_step, FastqRecordView, FASTQ_MARKER,
    SEPARATOR_MARKER,
};
use crate::lines::{broken_lines, is_marked, is_padding, is_single_line, LINE_BREAK};
use crate::pull::{PullView, ReaderView, Step};
use crate::stream::{
    is_compressed_path, lemma_read_advances, lemma_reads_line, lemma_reads_padded_line, opened,
    LineStep, SinkView, StreamView,
};
use vstd::prelude::*;
use vstd::string::StringSliceAdditionalSpecFns;

verus! {

/// An exhausted reader answers every pull with `End` and stays exhausted; a
/// failed one answers every pull with its failure and stays failed.
pub proof fn lemma_fastq_final_states(e: ParseErrorView)
    ensures
        fastq_pull(ReaderView::Exhausted) == (
            PullView::<FastqRecordView>::End,
            ReaderView::Exhausted,
        ),
        fastq_pull(ReaderView::Failed(e)) == (
            PullView::<FastqRecordView>::Failure(e),
            ReaderView::Failed(e),
        ),
{
}

/// A stream that is empty and ends cleanly holds no record: the first pull
/// exhausts the reader without a failure.
pub proof fn lemma_fastq_empty_input(s: StreamView)
    requires
        s.rest.len() == 0,
        s.fault is None,
    ensures
        fastq_pull(ReaderView::Active(s)) == (
            PullView::<FastqRecordView>::End,
            ReaderView::Exhausted,
        ),
        fastq_records(s) == Ok::<Seq<FastqRecordView>, ParseErrorView>(Seq::empty()),
{
}

/// A step that gives a record reads four lines, which are at least four
/// bytes, and leaves the rest of the stream as it was.
pub proof fn lemma_fastq_step_advances(s: StreamView)
    ensures
        fastq_step(s) matches Step::Record(_, rest) ==> {
            &&& rest.rest.len() + 4 <= s.rest.len()
            &&& rest.line == s.line + 4
            &&& rest.path == s.path
            &&& rest.fault == s.fault
        },
{
    let s1 = s.behind_line();
    let s2 = s1.behind_line();
    let s3 = s2.behind_line();
    lemma_read_advances(s);
    lemma_read_advances(s1);
    lemma_read_advances(s2);
    lemma_read_advances(s3);
}

/// Every record that a step gives is well formed.
pub proof fn lemma_fastq_step_wf(s: StreamView)
    ensures
        fastq_step(s) matches Step::Record(record, _) ==> record.wf(),
{
    let s1 = s.behind_line();
    let s2 = s1.behind_line();
    let s3 = s2.behind_line();
    lemma_read_advances(s);
    lemma_read_advances(s1);
    lemma_read_advances(s2);
    lemma_read_advances(s3);
}

/// Five runs of bytes joined from the left are the same bytes joined from
/// the right.
proof fn lemma_join_five(x: Seq<u8>, y: Seq<u8>, z: Seq<u8>, w: Seq<u8>, tail: Seq<u8>)
    ensures
        x + y + z + w + tail == x + (y + (z + (w + tail))),
{
    assert((x + y + z + w) + tail =~= (x + y + z) + (w + tail));
    assert((x + y + z) + (w + tail) =~= (x + y) + (z + (w + tail)));
    assert((x + y) + (z + (w + tail)) =~= x + (y + (z + (w + tail))));
}

/// A stream that begins with four lines, each with white space and its line
/// break behind it, gives those lines to four reads, and then stands behind
/// them.
proof fn lemma_reads_four_lines_in_turn(
    a: Seq<u8>,
    pa: Seq<u8>,
    b: Seq<u8>,
    pb: Seq<u8>,
    c: Seq<u8>,
    pc: Seq<u8>,
    d: Seq<u8>,
    pd: Seq<u8>,
    tail: Seq<u8>,
    s: StreamView,
)
    requires
        is_single_line(a),
        is_single_line(b),
        is_single_line(c),
        is_single_line(d),
        is_padding(pa),
        is_padding(pb),
        is_padding(pc),
        is_padding(pd),
        s.rest == (a + pa).push(LINE_BREAK) + ((b + pb).push(LINE_BREAK) + ((c + pc).push(
            LINE_BREAK,
        ) + ((d + pd).push(LINE_BREAK) + tail))),
    ensures
        s.line_step() == LineStep::Line(a),
        s.behind_line().line_step() == LineStep::Line(b),
        s.behind_line().behind_line().line_step() == LineStep::Line(c),
        s.behind_line().behind_line().behind_line().line_step() == LineStep::Line(d),
        s.behind_line().behind_line().behind_line().behind_line() == (StreamView {
            rest: tail,
            line: s.line + 4,
            ..s
        }),
{
    let after3 = (d + pd).push(LINE_BREAK) + tail;
    let after2 = (c + pc).push(LINE_BREAK) + after3;
    let after1 = (b + pb).push(LINE_BREAK) + after2;
    let s1 = StreamView { rest: after1, line: s.line + 1, ..s };
    let s2 = StreamView { rest: after2, line: s.line + 2, ..s };
    let s3 = StreamView { rest: after3, line: s.line + 3, ..s };
    lemma_reads_padded_line(a, pa, after1, s);
    lemma_reads_padded_line(b, pb, after2, s1);
    lemma_reads_padded_line(c, pc, after3, s2);
    lemma_reads_padded_line(d, pd, tail, s3);
}

/// The same of a stream whose four lines are written one after the other.
proof fn lemma_reads_four_padded_lines(
    a: Seq<u8>,
    pa: Seq<u8>,
    b: Seq<u8>,
    pb: Seq<u8>,
    c: Seq<u8>,
    pc: Seq<u8>,
    d: Seq<u8>,
    pd: Seq<u8>,
    tail: Seq<u8>,
    s: StreamView,
)
    requires
        is_single_line(a),
        is_single_line(b),
        is_single_line(c),
        is_single_line(d),
        is_padding(pa),
        is_padding(pb),
        is_padding(pc),
        is_padding(pd),
        s.rest == (a + pa).push(LINE_BREAK) + (b + pb).push(LINE_BREAK) + (c + pc).push(
            LINE_BREAK,
        ) + (d + pd).push(LINE_BREAK) + tail,
    ensures
        s.line_step() == LineStep::Line(a),
        s.behind_line().line_step() == LineStep::Line(b),
        s.behind_line().behind_line().line_step() == LineStep::Line(c),
        s.behind_line().behind_line().behind_line().line_step() == LineStep::Line(d),
        s.behind_line().behind_line().behind_line().behind_line() == (StreamView {
            rest: tail,
            line: s.line + 4,
            ..s
        }),
{
    lemma_join_five(
        (a + pa).push(LINE_BREAK),
        (b + pb).push(LINE_BREAK),
        (c + pc).push(LINE_BREAK),
        (d + pd).push(LINE_BREAK),
        tail,
    );
    lemma_reads_four_lines_in_turn(a, pa, b, pb, c, pc, d, pd, tail, s);
}

/// A stream that begins with four lines, each with its line break, gives
/// those lines to four reads, and then stands behind them.
proof fn lemma_reads_four_lines(
    a: Seq<u8>,
    b: Seq<u8>,
    c: Seq<u8>,
    d: Seq<u8>,
    tail: Seq<u8>,
    s: StreamView,
)
    requires
        is_single_line(a),
        is_single_line(b),
        is_single_line(c),
        is_single_line(d),
        s.rest == a.push(LINE_BREAK) + b.push(LINE_BREAK) + c.push(LINE_BREAK) + d.push(
            LINE_BREAK,
        ) + tail,
    ensures
        s.line_step() == LineStep::Line(a),
        s.behind_line().line_step() == LineStep::Line(b),
        s.behind_line().behind_line().line_step() == LineStep::Line(c),
        s.behind_line().behind_line().behind_line().line_step() == LineStep::Line(d),
        s.behind_line().behind_line().behind_line().behind_line() == (StreamView {
            rest: tail,
            line: s.line + 4,
            ..s
        }),
{
    let none = Seq::<u8>::empty();
    assert(a + none =~= a);
    assert(b + none =~= b);
    assert(c + none =~= c);
    assert(d + none =~= d);
    lemma_reads_four_padded_lines(a, none, b, none, c, none, d, none, tail, s);
}

/// Four reads that give four lines with the markers in place make a step
/// that gives the record of those lines, or a length mismatch where the
/// second and the fourth differ in length.
proof fn lemma_fastq_step_of_reads(
    header: Seq<u8>,
    sequence: Seq<u8>,
    separator: Seq<u8>,
    quality: Seq<u8>,
    s: StreamView,
)
    requires
        is_marked(header, FASTQ_MARKER),
        is_marked(separator, SEPARATOR_MARKER),
        s.line_step() == LineStep::Line(header),
        s.behind_line().line_step() == LineStep::Line(sequence),
        s.behind_line().behind_line().line_step() == LineStep::Line(separator),
        s.behind_line().behind_line().behind_line().line_step() == LineStep::Line(quality),
    ensures
        ({
            let behind = s.behind_line().behind_line().behind_line().behind_line();
            fastq_step(s) == if sequence.len() == quality.len() {
                Step::Record(FastqRecordView { header, sequence, separator, quality }, behind)
            } else {
                Step::Fail(
                    ParseErrorView::LengthMismatch {
                        line: behind.line,
                        header,
                        sequence_len: sequence.len(),
                        quality_len: quality.len(),
                    },
                    behind,
                )
            }
        }),
{
}

/// A stream that ends cleanly after one, two or three lines of a record,
/// with the markers in place, is truncated: no record is made of the lines
/// that are there. The failure names the header and counts those lines.
pub proof fn lemma_fastq_truncated(lines: Seq<Seq<u8>>, s: StreamView)
    requires
        1 <= lines.len() <= 3,
        forall|i: int| 0 <= i < lines.len() ==> is_single_line(#[trigger] lines[i]),
        is_marked(lines[0], FASTQ_MARKER),
        lines.len() == 3 ==> is_marked(lines[2], SEPARATOR_MARKER),
        s.rest == broken_lines(lines),
        s.fault is None,
    ensures
        fastq_step(s) == Step::<FastqRecordView>::Fail(
            ParseErrorView::Truncated { line: s.line + lines.len(), header: lines[0] },
            StreamView { rest: Seq::empty(), line: s.line + lines.len(), ..s },
        ),
{
    let after1 = broken_lines(lines.drop_first());
    let s1 = StreamView { rest: after1, line: s.line + 1, ..s };
    lemma_reads_line(lines[0], after1, s);
    if lines.len() == 1 {
        assert(s1.line_step() is End);
    } else {
        let after2 = broken_lines(lines.drop_first().drop_first());
        let s2 = StreamView { rest: after2, line: s.line + 2, ..s };
        assert(lines.drop_first()[0] == lines[1]);
        lemma_reads_line(lines[1], after2, s1);
        if lines.len() == 2 {
            assert(s2.line_step() is End);
        } else {
            let after3 = broken_lines(lines.drop_first().drop_first().drop_first());
            let s3 = StreamView { rest: after3, line: s.line + 3, ..s };
            assert(lines.drop_first().drop_first()[0] == lines[2]);
            lemma_reads_line(lines[2], after3, s2);
            assert(s3.line_step() is End);
        }
    }
}

/// Four lines with the markers in place, whose sequence and quality differ
/// in length, are a length mismatch, which names the header and both
/// lengths and counts the four lines.
pub proof fn lemma_fastq_length_mismatch(
    header: Seq<u8>,
    sequence: Seq<u8>,
    separator: Seq<u8>,
    quality: Seq<u8>,
    tail: Seq<u8>,
    s: StreamView,
)
    requires
        is_marked(header, FASTQ_MARKER),
        is_marked(separator, SEPARATOR_MARKER),
        is_single_line(header),
        is_single_line(sequence),
        is_single_line(separator),
        is_single_line(quality),
        sequence.len() != quality.len(),
        s.rest == header.push(LINE_BREAK) + sequence.push(LINE_BREAK) + separator.push(LINE_BREAK)
            + quality.push(LINE_BREAK) + tail,
    ensures
        fastq_step(s) == Step::<FastqRecordView>::Fail(
            ParseErrorView::LengthMismatch {
                line: s.line + 4,
                header,
                sequence_len: sequence.len(),
                quality_len: quality.len(),
            },
            StreamView { rest: tail, line: s.line + 4, ..s },
        ),
{
    lemma_reads_four_lines(header, sequence, separator, quality, tail, s);
    lemma_fastq_step_of_reads(header, sequence, separator, quality, s);
}

/// Writing one more record adds its encoding behind the others.
pub proof fn lemma_fastq_encoding_push(records: Seq<FastqRecordView>, record: FastqRecordView)
    ensures
        fastq_encoding(records.push(record)) == fastq_encoding(records) + record.encoding(),
    decreases records.len(),
{
    if records.len() == 0 {
        reveal_with_fuel(fastq_encoding, 2);
        assert(records.push(record).drop_first() =~= Seq::empty());
        assert(fastq_encoding(records.push(record)) =~= record.encoding());
        assert(fastq_encoding(records) + record.encoding() =~= record.encoding());
    } else {
        assert(records.push(record).drop_first() =~= records.drop_first().push(record));
        lemma_fastq_encoding_push(records.drop_first(), record);
        assert(records[0].encoding() + (fastq_encoding(records.drop_first()) + record.encoding())
            =~= records[0].encoding() + fastq_encoding(records.drop_first()) + record.encoding());
    }
}

/// A well-formed record, written in front of any bytes, is read back as it
/// was, and the stream stands behind it.
pub proof fn lemma_fastq_reads_back_one(record: FastqRecordView, tail: Seq<u8>, s: StreamView)
    requires
        record.wf(),
        s.rest == record.encoding() + tail,
    ensures
        fastq_step(s) == Step::Record(record, StreamView { rest: tail, line: s.line + 4, ..s }),
{
    lemma_reads_four_lines(
        record.header,
        record.sequence,
        record.separator,
        record.quality,
        tail,
        s,
    );
    lemma_fastq_step_of_reads(
        record.header,
        record.sequence,
        record.separator,
        record.quality,
        s,
    );
}

/// A record whose lines end in white space before their line breaks, as
/// they do where lines end in a carriage return and a line feed, is read as
/// the record without that white space.
pub proof fn lemma_fastq_reads_padded_record(
    record: FastqRecordView,
    header_pad: Seq<u8>,
    sequence_pad: Seq<u8>,
    separator_pad: Seq<u8>,
    quality_pad: Seq<u8>,
    tail: Seq<u8>,
    s: StreamView,
)
    requires
        record.wf(),
        is_padding(header_pad),
        is_padding(sequence_pad),
        is_padding(separator_pad),
        is_padding(quality_pad),
        s.rest == (record.header + header_pad).push(LINE_BREAK) + (record.sequence
            + sequence_pad).push(LINE_BREAK) + (record.separator + separator_pad).push(
            LINE_BREAK,
        ) + (record.quality + quality_pad).push(LINE_BREAK) + tail,
    ensures
        fastq_step(s) == Step::Record(record, StreamView { rest: tail, line: s.line + 4, ..s }),
{
    lemma_reads_four_padded_lines(
        record.header,
        header_pad,
        record.sequence,
        sequence_pad,
        record.separator,
        separator_pad,
        record.quality,
        quality_pad,
        tail,
        s,
    );
    lemma_fastq_step_of_reads(
        record.header,
        record.sequence,
        record.separator,
        record.quality,
        s,
    );
}

/// The records of a stream that begins with a written record are that
/// record and then the records of the stream behind it.
proof fn lemma_fastq_records_behind(record: FastqRecordView, tail: Seq<u8>, s: StreamView)
    requires
        record.wf(),
        s.rest == record.encoding() + tail,
    ensures
        fastq_records(s) == match fastq_records(
            StreamView { rest: tail, line: s.line + 4, ..s },
        ) {
            Ok(others) => Ok::<Seq<FastqRecordView>, ParseErrorView>(seq![record] + others),
            Err(e) => Err(e),
        },
{
    lemma_fastq_reads_back_one(record, tail, s);
    assert(tail.len() < s.rest.len());
}

/// Reading back what was written gives the records that were written: a
/// stream that holds the encoding of well-formed records and ends cleanly
/// parses to those records, field for field.
pub proof fn lemma_fastq_round_trip(records: Seq<FastqRecordView>, s: StreamView)
    requires
        forall|i: int| 0 <= i < records.len() ==> records[i].wf(),
        s.rest == fastq_encoding(records),
        s.fault is None,
    ensures
        fastq_records(s) == Ok::<Seq<FastqRecordView>, ParseErrorView>(records),
    decreases records.len(),
{
    if records.len() == 0 {
        assert(records =~= Seq::empty());
        lemma_fastq_empty_input(s);
    } else {
        let first = records[0];
        let others = records.drop_first();
        let tail = fastq_encoding(others);
        let behind = StreamView { rest: tail, line: s.line + 4, ..s };
        assert forall|i: int| 0 <= i < others.len() implies others[i].wf() by {
            assert(others[i] == records[i + 1]);
        }
        lemma_fastq_records_behind(first, tail, s);
        lemma_fastq_round_trip(others, behind);
        assert(seq![first] + others =~= records);
    }
}

/// A file that a writer stored under a name, opened as a reader under the
/// same name, gives the records that were written, with plain and with gzip
/// framing.
pub proof fn lemma_fastq_file_round_trip(
    filename: &str,
    records: Seq<FastqRecordView>,
    file: Seq<u8>,
)
    requires
        forall|i: int| 0 <= i < records.len() ==> records[i].wf(),
        (SinkView {
            path: filename@,
            compressed: is_compressed_path(filename.spec_bytes()),
            written: fastq_encoding(records),
        }).stored_as(file),
    ensures
        opened(filename.spec_bytes(), file) matches Ok(bytes) && fastq_records(
            StreamView { path: filename@, rest: bytes, line: 0, fault: None },
        ) == Ok::<Seq<FastqRecordView>, ParseErrorView>(records),
{
    let s = StreamView { path: filename@, rest: fastq_encoding(records), line: 0, fault: None };
    lemma_fastq_round_trip(records, s);
}

} // verus!
