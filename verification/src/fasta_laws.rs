//! What holds of the two-field format: how its reader ends, what a step
//! gives, and that records are read back as they were written.

use crate::error::ParseErrorView;
use crate::fasta::{
    fasta_body, fasta_encoding, fasta_pull, fasta_records, fasta_step, FastaRecordView,
    FASTA_MARKER,
};
use crate::lines::{
    broken_lines, is_marked, is_padding, is_single_line, joined_lines, LINE_BREAK,
};
use crate::pull::{PullView, ReaderView, Step};
use crate::stream::{
    is_compressed_path, lemma_read_advances, lemma_reads_line, lemma_reads_padded_line, opened,
    LineStep, SinkView, StreamView,
};
use vstd::prelude::*;
use vstd::string::StringSliceAdditionalSpecFns;

verus! {

/// An exhausted reader answers every pull with `End` and stays exhausted; a
/// failed one answers every pull with its failure and stays failed.
pub proof fn lemma_fasta_final_states(e: ParseErrorView)
    ensures
        fasta_pull(ReaderView::Exhausted) == (
            PullView::<FastaRecordView>::End,
            ReaderView::Exhausted,
        ),
        fasta_pull(ReaderView::Failed(e)) == (
            PullView::<FastaRecordView>::Failure(e),
            ReaderView::Failed(e),
        ),
{
}

/// A stream that is empty and ends cleanly holds no record: the first pull
/// exhausts the reader without a failure.
pub proof fn lemma_fasta_empty_input(s: StreamView)
    requires
        s.rest.len() == 0,
        s.fault is None,
    ensures
        fasta_pull(ReaderView::Active(s)) == (
            PullView::<FastaRecordView>::End,
            ReaderView::Exhausted,
        ),
        fasta_records(s) == Ok::<Seq<FastaRecordView>, ParseErrorView>(Seq::empty()),
{
}

/// A body that ends in a record keeps the header, adds only whole lines to
/// the sequence, none of which begins with the header marker, and moves
/// forward in the same stream.
pub proof fn lemma_fasta_body(header: Seq<u8>, sequence: Seq<u8>, s: StreamView)
    ensures
        fasta_body(header, sequence, s) matches Step::Record(record, rest) ==> {
            &&& record.header == header
            &&& is_single_line(sequence) ==> is_single_line(record.sequence)
            &&& !is_marked(sequence, FASTA_MARKER) ==> record.is_plain()
            &&& rest.rest.len() <= s.rest.len()
            &&& rest.line >= s.line
            &&& rest.path == s.path
            &&& rest.fault == s.fault
        },
    decreases s.rest.len(),
{
    if !is_marked(s.rest, FASTA_MARKER) {
        if let LineStep::Line(line) = s.line_step() {
            lemma_read_advances(s);
            lemma_fasta_body(header, sequence + line, s.behind_line());
        }
    }
}

/// A step that gives a record reads at least its header line, and leaves
/// the rest of the stream as it was.
pub proof fn lemma_fasta_step_advances(s: StreamView)
    ensures
        fasta_step(s) matches Step::Record(_, rest) ==> {
            &&& rest.rest.len() < s.rest.len()
            &&& rest.line > s.line
            &&& rest.path == s.path
            &&& rest.fault == s.fault
        },
{
    lemma_read_advances(s);
    if let LineStep::Line(header) = s.line_step() {
        lemma_fasta_body(header, Seq::empty(), s.behind_line());
    }
}

/// Every record that a step gives is well formed, and its sequence does not
/// begin with the header marker: written again, it is read back as it is.
pub proof fn lemma_fasta_step_wf(s: StreamView)
    ensures
        fasta_step(s) matches Step::Record(record, _) ==> record.wf() && record.is_plain(),
{
    lemma_read_advances(s);
    if let LineStep::Line(header) = s.line_step() {
        lemma_fasta_body(header, Seq::empty(), s.behind_line());
    }
}

/// A body written as lines, none of which begins with the header marker,
/// in front of the next header or of the end of the stream, is read as those
/// lines joined, and the stream stands behind them.
pub proof fn lemma_fasta_body_joins_lines(
    header: Seq<u8>,
    sequence: Seq<u8>,
    lines: Seq<Seq<u8>>,
    tail: Seq<u8>,
    s: StreamView,
)
    requires
        forall|i: int|
            0 <= i < lines.len() ==> is_single_line(#[trigger] lines[i]) && !is_marked(
                lines[i],
                FASTA_MARKER,
            ),
        s.rest == broken_lines(lines) + tail,
        is_marked(tail, FASTA_MARKER) || (tail.len() == 0 && s.fault is None),
    ensures
        fasta_body(header, sequence, s) == Step::Record(
            FastaRecordView { header, sequence: sequence + joined_lines(lines) },
            StreamView { rest: tail, line: s.line + lines.len(), ..s },
        ),
    decreases lines.len(),
{
    if lines.len() == 0 {
        assert(s.rest =~= tail);
        assert(sequence + joined_lines(lines) =~= sequence);
    } else {
        let line = lines[0];
        let others = lines.drop_first();
        let behind = broken_lines(others) + tail;
        assert(s.rest =~= line.push(LINE_BREAK) + behind);
        lemma_reads_line(line, behind, s);
        assert(!is_marked(s.rest, FASTA_MARKER)) by {
            if line.len() > 0 {
                assert(s.rest[0] == line[0]);
            } else {
                assert(s.rest[0] == LINE_BREAK);
            }
        }
        lemma_fasta_body_joins_lines(header, sequence + line, others, tail, s.behind_line());
        assert(sequence + line + joined_lines(others) =~= sequence + joined_lines(lines));
    }
}

/// A record written with its sequence broken into lines is read as one
/// record, whose sequence is those lines joined: a header line, then body
/// lines that do not begin with the header marker, in front of the next
/// header or of the end of the stream.
pub proof fn lemma_fasta_reassembles_body(
    header: Seq<u8>,
    lines: Seq<Seq<u8>>,
    tail: Seq<u8>,
    s: StreamView,
)
    requires
        is_marked(header, FASTA_MARKER),
        is_single_line(header),
        forall|i: int|
            0 <= i < lines.len() ==> is_single_line(#[trigger] lines[i]) && !is_marked(
                lines[i],
                FASTA_MARKER,
            ),
        s.rest == header.push(LINE_BREAK) + broken_lines(lines) + tail,
        is_marked(tail, FASTA_MARKER) || (tail.len() == 0 && s.fault is None),
    ensures
        fasta_step(s) == Step::Record(
            FastaRecordView { header, sequence: joined_lines(lines) },
            StreamView { rest: tail, line: s.line + 1 + lines.len(), ..s },
        ),
{
    let body = broken_lines(lines) + tail;
    assert(s.rest =~= header.push(LINE_BREAK) + body);
    lemma_reads_line(header, body, s);
    lemma_fasta_body_joins_lines(header, Seq::empty(), lines, tail, s.behind_line());
    assert(Seq::<u8>::empty() + joined_lines(lines) =~= joined_lines(lines));
}

/// Writing one more record adds its encoding behind the others.
pub proof fn lemma_fasta_encoding_push(records: Seq<FastaRecordView>, record: FastaRecordView)
    ensures
        fasta_encoding(records.push(record)) == fasta_encoding(records) + record.encoding(),
    decreases records.len(),
{
    if records.len() == 0 {
        reveal_with_fuel(fasta_encoding, 2);
        assert(records.push(record).drop_first() =~= Seq::empty());
        assert(fasta_encoding(records.push(record)) =~= record.encoding());
        assert(fasta_encoding(records) + record.encoding() =~= record.encoding());
    } else {
        assert(records.push(record).drop_first() =~= records.drop_first().push(record));
        lemma_fasta_encoding_push(records.drop_first(), record);
        assert(records[0].encoding() + (fasta_encoding(records.drop_first()) + record.encoding())
            =~= records[0].encoding() + fasta_encoding(records.drop_first()) + record.encoding());
    }
}

/// Written records begin with the header marker of the first.
pub proof fn lemma_fasta_encoding_is_marked(records: Seq<FastaRecordView>)
    requires
        records.len() > 0,
        records[0].wf(),
    ensures
        is_marked(fasta_encoding(records), FASTA_MARKER),
{
    let first = records[0];
    assert(fasta_encoding(records)[0] == first.encoding()[0]);
    assert(first.encoding()[0] == first.header[0]);
}

/// A well-formed record whose sequence does not begin with the header
/// marker, written in front of the next header or of the end of the stream,
/// is read back as it was, and the stream stands behind it.
pub proof fn lemma_fasta_reads_back_one(record: FastaRecordView, tail: Seq<u8>, s: StreamView)
    requires
        record.wf(),
        record.is_plain(),
        s.rest == record.encoding() + tail,
        is_marked(tail, FASTA_MARKER) || (tail.len() == 0 && s.fault is None),
    ensures
        fasta_step(s) == Step::Record(record, StreamView { rest: tail, line: s.line + 2, ..s }),
{
    let lines = seq![record.sequence];
    assert(broken_lines(lines) =~= record.sequence.push(LINE_BREAK)) by {
        reveal_with_fuel(broken_lines, 2);
    }
    assert(joined_lines(lines) =~= record.sequence) by {
        reveal_with_fuel(joined_lines, 2);
    }
    lemma_fasta_reassembles_body(record.header, lines, tail, s);
}

/// A record whose two lines end in white space before their line breaks,
/// as they do where lines end in a carriage return and a line feed, is read
/// as the record without that white space.
pub proof fn lemma_fasta_reads_padded_record(
    record: FastaRecordView,
    header_pad: Seq<u8>,
    sequence_pad: Seq<u8>,
    tail: Seq<u8>,
    s: StreamView,
)
    requires
        record.wf(),
        record.is_plain(),
        is_padding(header_pad),
        is_padding(sequence_pad),
        s.rest == (record.header + header_pad).push(LINE_BREAK) + (record.sequence
            + sequence_pad).push(LINE_BREAK) + tail,
        is_marked(tail, FASTA_MARKER) || (tail.len() == 0 && s.fault is None),
    ensures
        fasta_step(s) == Step::Record(record, StreamView { rest: tail, line: s.line + 2, ..s }),
{
    let body = (record.sequence + sequence_pad).push(LINE_BREAK) + tail;
    assert(s.rest =~= (record.header + header_pad).push(LINE_BREAK) + body);
    lemma_reads_padded_line(record.header, header_pad, body, s);
    let s1 = StreamView { rest: body, line: s.line + 1, ..s };
    lemma_reads_padded_line(record.sequence, sequence_pad, tail, s1);
    assert(!is_marked(body, FASTA_MARKER)) by {
        if record.sequence.len() > 0 {
            assert(body[0] == record.sequence[0]);
        } else if sequence_pad.len() > 0 {
            assert(body[0] == sequence_pad[0]);
        } else {
            assert(body[0] == LINE_BREAK);
        }
    }
    assert(Seq::<u8>::empty() + record.sequence =~= record.sequence);
    reveal_with_fuel(fasta_body, 3);
}

/// Reading back what was written gives the records that were written:
/// a stream that holds the encoding of well-formed records, none of whose
/// sequences begins with the header marker, and that ends cleanly, parses to
/// those records, field for field.
pub proof fn lemma_fasta_round_trip(records: Seq<FastaRecordView>, s: StreamView)
    requires
        forall|i: int| 0 <= i < records.len() ==> records[i].wf() && records[i].is_plain(),
        s.rest == fasta_encoding(records),
        s.fault is None,
    ensures
        fasta_records(s) == Ok::<Seq<FastaRecordView>, ParseErrorView>(records),
    decreases records.len(),
{
    if records.len() == 0 {
        assert(records =~= Seq::empty());
        lemma_fasta_empty_input(s);
    } else {
        let first = records[0];
        let others = records.drop_first();
        let tail = fasta_encoding(others);
        let behind = StreamView { rest: tail, line: s.line + 2, ..s };
        assert forall|i: int| 0 <= i < others.len() implies others[i].wf() && others[i].is_plain() by {
            assert(others[i] == records[i + 1]);
        }
        if others.len() > 0 {
            lemma_fasta_encoding_is_marked(others);
        }
        assert(fasta_step(s) == Step::Record(first, behind)) by {
            lemma_fasta_reads_back_one(first, tail, s);
        }
        assert(tail.len() < s.rest.len());
        assert(fasta_records(behind) == Ok::<Seq<FastaRecordView>, ParseErrorView>(others)) by {
            lemma_fasta_round_trip(others, behind);
        }
        assert(seq![first] + others =~= records);
    }
}

/// A file that a writer stored under a name, opened as a reader under the
/// same name, gives the records that were written, with plain and with gzip
/// framing.
pub proof fn lemma_fasta_file_round_trip(
    filename: &str,
    records: Seq<FastaRecordView>,
    file: Seq<u8>,
)
    requires
        forall|i: int| 0 <= i < records.len() ==> records[i].wf() && records[i].is_plain(),
        (SinkView {
            path: filename@,
            compressed: is_compressed_path(filename.spec_bytes()),
            written: fasta_encoding(records),
        }).stored_as(file),
    ensures
        opened(filename.spec_bytes(), file) matches Ok(bytes) && fasta_records(
            StreamView { path: filename@, rest: bytes, line: 0, fault: None },
        ) == Ok::<Seq<FastaRecordView>, ParseErrorView>(records),
{
    let s = StreamView { path: filename@, rest: fasta_encoding(records), line: 0, fault: None };
    lemma_fasta_round_trip(records, s);
}

} // verus!
