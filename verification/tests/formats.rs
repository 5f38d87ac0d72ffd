use seqio::error::ParseError;
use seqio::fasta::{self, FastaReader, FastaRecord, FastaWriter};
use seqio::fastq::{self, FastqReader, FastqRecord, FastqWriter};
use seqio::pull::Pull;
use seqio::stream::{writer, ByteStream};

fn fasta_over(bytes: &[u8]) -> FastaReader {
    FastaReader::new(ByteStream::from_bytes(bytes.to_vec()))
}

fn fastq_over(bytes: &[u8]) -> FastqReader {
    FastqReader::new(ByteStream::from_bytes(bytes.to_vec()))
}

fn fasta_record(header: &[u8], sequence: &[u8]) -> FastaRecord {
    FastaRecord::new(header.to_vec(), sequence.to_vec()).unwrap()
}

fn fastq_record(header: &[u8], sequence: &[u8], separator: &[u8], quality: &[u8]) -> FastqRecord {
    FastqRecord::new(header.to_vec(), sequence.to_vec(), separator.to_vec(), quality.to_vec())
        .unwrap()
}

#[test]
fn fasta_body_lines_are_joined() {
    let mut reader = fasta_over(b">h1\nACGT\nACGT\n>h2\nTT\n");
    assert_eq!(reader.next_record(), Pull::Record(fasta_record(b">h1", b"ACGTACGT")));
    assert_eq!(reader.next_record(), Pull::Record(fasta_record(b">h2", b"TT")));
    assert_eq!(reader.next_record(), Pull::End);
    assert!(reader.is_exhausted());
}

#[test]
fn fasta_read_all_gives_both_records() {
    let mut reader = fasta_over(b">h1\nACGT\nACGT\n>h2\nTT\n");
    let records = reader.read_all().unwrap();
    assert_eq!(records, vec![fasta_record(b">h1", b"ACGTACGT"), fasta_record(b">h2", b"TT")]);
    assert!(reader.is_exhausted());
}

#[test]
fn fasta_header_followed_by_header_has_empty_sequence() {
    let mut reader = fasta_over(b">a\n>b\nAC\n");
    assert_eq!(reader.next_record(), Pull::Record(fasta_record(b">a", b"")));
    assert_eq!(reader.next_record(), Pull::Record(fasta_record(b">b", b"AC")));
    assert_eq!(reader.next_record(), Pull::End);
}

#[test]
fn fasta_last_line_needs_no_line_break() {
    let mut reader = fasta_over(b">a\nAC\nGT");
    assert_eq!(reader.next_record(), Pull::Record(fasta_record(b">a", b"ACGT")));
    assert_eq!(reader.next_record(), Pull::End);
}

#[test]
fn fasta_header_alone_is_a_record() {
    let mut reader = fasta_over(b">only");
    assert_eq!(reader.next_record(), Pull::Record(fasta_record(b">only", b"")));
    assert_eq!(reader.next_record(), Pull::End);
}

#[test]
fn fasta_blank_body_lines_add_nothing() {
    let mut reader = fasta_over(b">a\nAC\n\nGT\n\n");
    assert_eq!(reader.next_record(), Pull::Record(fasta_record(b">a", b"ACGT")));
    assert_eq!(reader.next_record(), Pull::End);
}

#[test]
fn fasta_marker_inside_a_line_is_data() {
    let mut reader = fasta_over(b">a\nAC>GT\n");
    assert_eq!(reader.next_record(), Pull::Record(fasta_record(b">a", b"AC>GT")));
}

#[test]
fn fasta_empty_input_is_exhausted_at_once() {
    let mut reader = fasta_over(b"");
    assert_eq!(reader.next_record(), Pull::End);
    assert!(reader.is_exhausted());
    assert!(!reader.has_failed());
    let mut reader = fasta_over(b"");
    assert_eq!(reader.read_all(), Ok(vec![]));
}

#[test]
fn fastq_empty_input_is_exhausted_at_once() {
    let mut reader = fastq_over(b"");
    assert_eq!(reader.next_record(), Pull::End);
    assert!(reader.is_exhausted());
    assert!(!reader.has_failed());
    let mut reader = fastq_over(b"");
    assert_eq!(reader.read_all(), Ok(vec![]));
}

#[test]
fn exhausted_reader_stays_exhausted() {
    let mut reader = fasta_over(b">a\nAC\n");
    assert!(matches!(reader.next_record(), Pull::Record(_)));
    for _ in 0..5 {
        assert_eq!(reader.next_record(), Pull::End);
        assert!(reader.is_exhausted());
    }
    assert_eq!(reader.read_all(), Ok(vec![]));
    let mut reader = fastq_over(b"@a\nAC\n+\nII\n");
    assert!(matches!(reader.next_record(), Pull::Record(_)));
    for _ in 0..5 {
        assert_eq!(reader.next_record(), Pull::End);
        assert!(reader.is_exhausted());
    }
    assert_eq!(reader.read_all(), Ok(vec![]));
}

#[test]
fn fasta_garbage_before_the_first_header_is_a_format_error() {
    let mut reader = fasta_over(b"garbage\n>a\nAC\n");
    let expected = ParseError::Format { line: 1, record: None };
    assert_eq!(reader.next_record(), Pull::Failure(expected.clone()));
    assert!(reader.has_failed());
    assert_eq!(reader.next_record(), Pull::Failure(expected.clone()));
    assert_eq!(reader.read_all(), Err(expected));
}

#[test]
fn fasta_leading_blank_line_is_a_format_error() {
    let mut reader = fasta_over(b"\n>a\nAC\n");
    assert_eq!(reader.next_record(), Pull::Failure(ParseError::Format { line: 1, record: None }));
}

#[test]
fn fastq_reads_records_in_order() {
    let mut reader = fastq_over(b"@r1\nACGT\n+\nIIII\n@r2\nTT\n+r2\n##\n");
    assert_eq!(reader.next_record(), Pull::Record(fastq_record(b"@r1", b"ACGT", b"+", b"IIII")));
    assert_eq!(reader.next_record(), Pull::Record(fastq_record(b"@r2", b"TT", b"+r2", b"##")));
    assert_eq!(reader.next_record(), Pull::End);
}

#[test]
fn fastq_quality_line_may_begin_with_a_marker() {
    let mut reader = fastq_over(b"@r1\nACGT\n+\n@+>I\n@r2\nT\n+\n@\n");
    let records = reader.read_all().unwrap();
    assert_eq!(
        records,
        vec![fastq_record(b"@r1", b"ACGT", b"+", b"@+>I"), fastq_record(b"@r2", b"T", b"+", b"@")]
    );
}

#[test]
fn fastq_last_line_needs_no_line_break() {
    let mut reader = fastq_over(b"@r1\nACGT\n+\nIIII");
    assert_eq!(reader.next_record(), Pull::Record(fastq_record(b"@r1", b"ACGT", b"+", b"IIII")));
    assert_eq!(reader.next_record(), Pull::End);
}

#[test]
fn fastq_empty_sequence_and_quality_are_a_record() {
    let mut reader = fastq_over(b"@r1\n\n+\n\n");
    assert_eq!(reader.next_record(), Pull::Record(fastq_record(b"@r1", b"", b"+", b"")));
    assert_eq!(reader.next_record(), Pull::End);
}

#[test]
fn fastq_missing_quality_line_is_truncation() {
    let mut reader = fastq_over(b"@h\nACGT\n+\n");
    let expected = ParseError::Truncated { line: 3, header: b"@h".to_vec() };
    assert_eq!(reader.next_record(), Pull::Failure(expected.clone()));
    assert!(reader.has_failed());
    assert!(!reader.is_exhausted());
    assert_eq!(reader.next_record(), Pull::Failure(expected));
}

#[test]
fn fastq_truncation_counts_the_lines_read() {
    let mut reader = fastq_over(b"@h\n");
    assert_eq!(
        reader.next_record(),
        Pull::Failure(ParseError::Truncated { line: 1, header: b"@h".to_vec() })
    );
    let mut reader = fastq_over(b"@h\nACGT\n");
    assert_eq!(
        reader.next_record(),
        Pull::Failure(ParseError::Truncated { line: 2, header: b"@h".to_vec() })
    );
    let mut reader = fastq_over(b"@a\nAC\n+\nII\n@h\nACGT\n+");
    assert!(matches!(reader.next_record(), Pull::Record(_)));
    assert_eq!(
        reader.next_record(),
        Pull::Failure(ParseError::Truncated { line: 7, header: b"@h".to_vec() })
    );
}

#[test]
fn fastq_partial_record_at_the_end_fails_read_all() {
    let mut reader = fastq_over(b"@a\nAC\n+\nII\n@h\nACGT\n+\n");
    assert_eq!(
        reader.read_all(),
        Err(ParseError::Truncated { line: 7, header: b"@h".to_vec() })
    );
    assert!(reader.has_failed());
}

#[test]
fn fastq_short_quality_is_a_length_mismatch() {
    let mut reader = fastq_over(b"@h\nACGT\n+\nAB\n");
    let expected = ParseError::LengthMismatch {
        line: 4,
        header: b"@h".to_vec(),
        sequence_len: 4,
        quality_len: 2,
    };
    assert_eq!(reader.next_record(), Pull::Failure(expected.clone()));
    assert_eq!(reader.next_record(), Pull::Failure(expected));
}

#[test]
fn fastq_long_quality_is_a_length_mismatch() {
    let mut reader = fastq_over(b"@h\nAC\n+\nIIII\n");
    assert_eq!(
        reader.next_record(),
        Pull::Failure(ParseError::LengthMismatch {
            line: 4,
            header: b"@h".to_vec(),
            sequence_len: 2,
            quality_len: 4,
        })
    );
}

#[test]
fn fastq_header_without_marker_is_a_format_error() {
    let mut reader = fastq_over(b"h\nACGT\n+\nIIII\n");
    assert_eq!(reader.next_record(), Pull::Failure(ParseError::Format { line: 1, record: None }));
    let mut reader = fastq_over(b"\n");
    assert_eq!(reader.next_record(), Pull::Failure(ParseError::Format { line: 1, record: None }));
}

#[test]
fn fastq_separator_without_marker_is_a_format_error() {
    let mut reader = fastq_over(b"@h\nACGT\nIIII\n@x\n");
    assert_eq!(
        reader.next_record(),
        Pull::Failure(ParseError::Format { line: 3, record: Some(b"@h".to_vec()) })
    );
}

#[test]
fn failed_reader_does_not_resynchronise() {
    let mut reader = fastq_over(b"@h\nACGT\n+\nAB\n@ok\nAC\n+\nII\n");
    let first = reader.next_record();
    assert!(matches!(first, Pull::Failure(ParseError::LengthMismatch { .. })));
    assert_eq!(reader.next_record(), first);
    assert_eq!(reader.next_record(), first);
}

#[test]
fn parse_next_leaves_the_stream_behind_the_record() {
    let mut stream = ByteStream::from_bytes(b">a\nAC\nGT\n>b\nTT\n".to_vec());
    assert_eq!(fasta::parse_next(&mut stream), Pull::Record(fasta_record(b">a", b"ACGT")));
    assert_eq!(stream.remaining(), b">b\nTT\n");
    assert_eq!(stream.line_number(), 3);
    let mut stream = ByteStream::from_bytes(b"@a\nAC\n+\nII\nrest".to_vec());
    assert_eq!(fastq::parse_next(&mut stream), Pull::Record(fastq_record(b"@a", b"AC", b"+", b"II")));
    assert_eq!(stream.remaining(), b"rest");
    assert_eq!(stream.line_number(), 4);
}

#[test]
fn fasta_serialize_writes_two_lines() {
    let mut sink = writer("out.fasta");
    fasta::serialize(&fasta_record(b">h1 some text", b"ACGTACGT"), &mut sink);
    assert_eq!(sink.written(), b">h1 some text\nACGTACGT\n");
    fasta::serialize(&fasta_record(b">h2", b""), &mut sink);
    assert_eq!(sink.written(), b">h1 some text\nACGTACGT\n>h2\n\n");
}

#[test]
fn fasta_long_sequence_is_not_wrapped() {
    let sequence = vec![b'A'; 500];
    let mut sink = writer("out.fasta");
    fasta::serialize(&fasta_record(b">long", &sequence), &mut sink);
    assert_eq!(sink.written().len(), 5 + 1 + 500 + 1);
    assert_eq!(sink.written().iter().filter(|b| **b == b'\n').count(), 2);
}

#[test]
fn fastq_serialize_writes_four_lines() {
    let mut sink = writer("out.fastq");
    fastq::serialize(&fastq_record(b"@r1", b"ACGT", b"+r1", b"IIII"), &mut sink);
    assert_eq!(sink.written(), b"@r1\nACGT\n+r1\nIIII\n");
}

#[test]
fn fasta_records_are_read_back_as_written() {
    let records = vec![
        fasta_record(b">first record", b"ACGTACGTNNNN"),
        fasta_record(b">empty", b""),
        fasta_record(b">", b"A>C"),
        fasta_record(b">last", b"T"),
    ];
    let mut out = FastaWriter::new(writer("memory"));
    out.write_all(&records);
    let bytes = out.finish().unwrap();
    assert_eq!(bytes, b">first record\nACGTACGTNNNN\n>empty\n\n>\nA>C\n>last\nT\n");
    let mut reader = fasta_over(&bytes);
    assert_eq!(reader.read_all(), Ok(records));
}

#[test]
fn fastq_records_are_read_back_as_written() {
    let records = vec![
        fastq_record(b"@r1 x", b"ACGT", b"+", b"IIII"),
        fastq_record(b"@r2", b"", b"+r2", b""),
        fastq_record(b"@r3", b"@@", b"+", b"++"),
    ];
    let mut out = FastqWriter::new(writer("memory"));
    out.write_all(&records);
    let bytes = out.finish().unwrap();
    assert_eq!(bytes, b"@r1 x\nACGT\n+\nIIII\n@r2\n\n+r2\n\n@r3\n@@\n+\n++\n");
    let mut reader = fastq_over(&bytes);
    assert_eq!(reader.read_all(), Ok(records));
}

#[test]
fn write_record_appends_one_record() {
    let mut out = FastaWriter::new(writer("memory"));
    out.write_record(&fasta_record(b">a", b"AC"));
    out.write_record(&fasta_record(b">b", b"GT"));
    assert_eq!(out.finish(), Ok(b">a\nAC\n>b\nGT\n".to_vec()));
    let mut out = FastqWriter::new(writer("memory"));
    out.write_record(&fastq_record(b"@a", b"AC", b"+", b"II"));
    assert_eq!(out.finish(), Ok(b"@a\nAC\n+\nII\n".to_vec()));
}

#[test]
fn fasta_sequence_that_begins_with_the_marker_is_read_as_a_header() {
    let record = fasta_record(b">h", b">x");
    let mut out = FastaWriter::new(writer("memory"));
    out.write_record(&record);
    let bytes = out.finish().unwrap();
    let mut reader = fasta_over(&bytes);
    assert_eq!(
        reader.read_all(),
        Ok(vec![fasta_record(b">h", b""), fasta_record(b">x", b"")])
    );
}

#[test]
fn fasta_record_is_validated() {
    assert!(FastaRecord::new(b">h".to_vec(), b"".to_vec()).is_some());
    assert!(FastaRecord::new(b">".to_vec(), b"ACGT".to_vec()).is_some());
    assert!(FastaRecord::new(b"".to_vec(), b"ACGT".to_vec()).is_none());
    assert!(FastaRecord::new(b"h".to_vec(), b"ACGT".to_vec()).is_none());
    assert!(FastaRecord::new(b"@h".to_vec(), b"ACGT".to_vec()).is_none());
    assert!(FastaRecord::new(b">h\n".to_vec(), b"ACGT".to_vec()).is_none());
    assert!(FastaRecord::new(b">h".to_vec(), b"AC\nGT".to_vec()).is_none());
    assert!(FastaRecord::new(b">h\r".to_vec(), b"ACGT".to_vec()).is_none());
    assert!(FastaRecord::new(b">h ".to_vec(), b"ACGT".to_vec()).is_none());
    assert!(FastaRecord::new(b">h".to_vec(), b"ACGT\r".to_vec()).is_none());
    assert!(FastaRecord::new(b">h".to_vec(), b"ACGT\t".to_vec()).is_none());
    assert!(FastaRecord::new(b">h x".to_vec(), b"AC\rGT".to_vec()).is_some());
}

#[test]
fn fastq_record_is_validated() {
    let new = |h: &[u8], s: &[u8], p: &[u8], q: &[u8]| {
        FastqRecord::new(h.to_vec(), s.to_vec(), p.to_vec(), q.to_vec())
    };
    assert!(new(b"@h", b"ACGT", b"+", b"IIII").is_some());
    assert!(new(b"@h", b"", b"+h", b"").is_some());
    assert!(new(b"h", b"ACGT", b"+", b"IIII").is_none());
    assert!(new(b"", b"ACGT", b"+", b"IIII").is_none());
    assert!(new(b"@h", b"ACGT", b"", b"IIII").is_none());
    assert!(new(b"@h", b"ACGT", b"-", b"IIII").is_none());
    assert!(new(b"@h", b"ACGT", b"+", b"III").is_none());
    assert!(new(b"@h", b"ACGT", b"+", b"IIIII").is_none());
    assert!(new(b"@h\n", b"ACGT", b"+", b"IIII").is_none());
    assert!(new(b"@h", b"AC\nT", b"+", b"IIII").is_none());
    assert!(new(b"@h", b"ACGT", b"+\n", b"IIII").is_none());
    assert!(new(b"@h", b"ACGT", b"+", b"II\nI").is_none());
    assert!(new(b"@h\r", b"ACGT", b"+", b"IIII").is_none());
    assert!(new(b"@h", b"ACG\r", b"+", b"III\r").is_none());
    assert!(new(b"@h", b"ACGT", b"+ ", b"IIII").is_none());
    assert!(new(b"@h", b"ACG ", b"+", b"IIII").is_none());
    assert!(new(b"@h a", b"A CG", b"+ b", b"I II").is_some());
}

#[test]
fn records_hand_out_their_fields() {
    let a = fasta_record(b">h", b"ACGT");
    assert_eq!(a.header(), b">h");
    assert_eq!(a.sequence(), b"ACGT");
    assert_eq!(a.clone(), a);
    let q = fastq_record(b"@h", b"ACGT", b"+x", b"IIII");
    assert_eq!(q.header(), b"@h");
    assert_eq!(q.sequence(), b"ACGT");
    assert_eq!(q.separator(), b"+x");
    assert_eq!(q.quality(), b"IIII");
    assert_eq!(q.clone(), q);
}

#[test]
fn errors_are_cloned_field_for_field() {
    let errors = vec![
        ParseError::Io { path: "a.gz".to_string(), line: 7, cause: "corrupt".to_string() },
        ParseError::Format { line: 1, record: None },
        ParseError::Format { line: 3, record: Some(b"@h".to_vec()) },
        ParseError::Truncated { line: 2, header: b"@h".to_vec() },
        ParseError::LengthMismatch {
            line: 4,
            header: b"@h".to_vec(),
            sequence_len: 4,
            quality_len: 2,
        },
    ];
    for e in &errors {
        assert_eq!(&e.clone(), e);
    }
}

#[test]
fn fasta_carriage_return_before_the_line_feed_is_no_data() {
    let mut reader = fasta_over(b">h\r\nA\r\n");
    assert_eq!(reader.next_record(), Pull::Record(fasta_record(b">h", b"A")));
    assert_eq!(reader.next_record(), Pull::End);
    let mut reader = fasta_over(b">h1 text\r\nACGT\r\nACGT\r\n>h2\r\nTT\r\n");
    assert_eq!(
        reader.read_all(),
        Ok(vec![fasta_record(b">h1 text", b"ACGTACGT"), fasta_record(b">h2", b"TT")])
    );
}

#[test]
fn fastq_carriage_return_before_the_line_feed_is_no_data() {
    let mut reader = fastq_over(b"@r1\r\nACGT\r\n+\r\nIIII\r\n");
    assert_eq!(reader.next_record(), Pull::Record(fastq_record(b"@r1", b"ACGT", b"+", b"IIII")));
    assert_eq!(reader.next_record(), Pull::End);
    let mut reader = fastq_over(b"@r1\r\nACGT\r\n+\r\nII\r\n");
    assert_eq!(
        reader.next_record(),
        Pull::Failure(ParseError::LengthMismatch {
            line: 4,
            header: b"@r1".to_vec(),
            sequence_len: 4,
            quality_len: 2,
        })
    );
}

#[test]
fn white_space_at_the_end_of_a_line_is_dropped() {
    let mut reader = fasta_over(b">h x \t\r\nAC \nGT\r\r\n \n");
    assert_eq!(reader.next_record(), Pull::Record(fasta_record(b">h x", b"ACGT")));
    assert_eq!(reader.next_record(), Pull::End);
    let mut reader = fasta_over(b">h\nACGT\r");
    assert_eq!(reader.next_record(), Pull::Record(fasta_record(b">h", b"ACGT")));
    let mut reader = fastq_over(b"@r \nAC\t\n+ \nII \n");
    assert_eq!(reader.next_record(), Pull::Record(fastq_record(b"@r", b"AC", b"+", b"II")));
}

#[test]
fn white_space_inside_a_line_is_kept() {
    let mut reader = fasta_over(b">h  two  words\nA\rC G\tT\n");
    assert_eq!(reader.next_record(), Pull::Record(fasta_record(b">h  two  words", b"A\rC G\tT")));
    let mut reader = fasta_over(b" >h\nAC\n");
    assert_eq!(reader.next_record(), Pull::Failure(ParseError::Format { line: 1, record: None }));
}
