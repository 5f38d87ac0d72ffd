//! The ways in which reading records and finishing a file can fail.

use vstd::prelude::*;
use vstd::slice::slice_to_vec;

verus! {

/// A failure to read a record, as contracts speak of it. `line` counts the
/// lines read from the stream up to the failure, the faulty line included
/// where there is one.
pub enum ParseErrorView {
    /// The source of the stream failed, for the reason `cause`.
    Io { path: Seq<char>, line: nat, cause: Seq<char> },
    /// A line does not begin with the marker that the format asks for.
    /// `record` is the header of the record that the line stands in, where
    /// the line is not itself in the place of a header.
    Format { line: nat, record: Option<Seq<u8>> },
    /// The stream ended inside a record.
    Truncated { line: nat, header: Seq<u8> },
    /// The sequence and the quality line of a record differ in length.
    LengthMismatch { line: nat, header: Seq<u8>, sequence_len: nat, quality_len: nat },
}

/// A failure to read a record. Where the header of the faulty record had
/// been read, the error holds it.
#[derive(Debug, PartialEq, Eq)]
pub enum ParseError {
    Io { path: String, line: usize, cause: String },
    Format { line: usize, record: Option<Vec<u8>> },
    Truncated { line: usize, header: Vec<u8> },
    LengthMismatch { line: usize, header: Vec<u8>, sequence_len: usize, quality_len: usize },
}

impl View for ParseError {
    type V = ParseErrorView;

    open spec fn view(&self) -> ParseErrorView {
        match self {
            ParseError::Io { path, line, cause } => ParseErrorView::Io {
                path: path@,
                line: *line as nat,
                cause: cause@,
            },
            ParseError::Format { line, record } => ParseErrorView::Format {
                line: *line as nat,
                record: match record {
                    Some(h) => Some(h@),
                    None => None,
                },
            },
            ParseError::Truncated { line, header } => ParseErrorView::Truncated {
                line: *line as nat,
                header: header@,
            },
            ParseError::LengthMismatch {
                line,
                header,
                sequence_len,
                quality_len,
            } => ParseErrorView::LengthMismatch {
                line: *line as nat,
                header: header@,
                sequence_len: *sequence_len as nat,
                quality_len: *quality_len as nat,
            },
        }
    }
}

impl Clone for ParseError {
    fn clone(&self) -> (copy: ParseError)
        ensures
            copy@ == self@,
    {
        match self {
            ParseError::Io { path, line, cause } => ParseError::Io {
                path: path.clone(),
                line: *line,
                cause: cause.clone(),
            },
            ParseError::Format { line, record } => ParseError::Format {
                line: *line,
                record: match record {
                    Some(h) => Some(slice_to_vec(h.as_slice())),
                    None => None,
                },
            },
            ParseError::Truncated { line, header } => ParseError::Truncated {
                line: *line,
                header: slice_to_vec(header.as_slice()),
            },
            ParseError::LengthMismatch {
                line,
                header,
                sequence_len,
                quality_len,
            } => ParseError::LengthMismatch {
                line: *line,
                header: slice_to_vec(header.as_slice()),
                sequence_len: *sequence_len,
                quality_len: *quality_len,
            },
        }
    }
}

/// A failure to finish a sink, as contracts speak of it.
pub struct WriteErrorView {
    pub path: Seq<char>,
    pub cause: Seq<char>,
}

/// A failure to finish the sink for the file `path`, for the reason `cause`.
#[derive(Debug, PartialEq, Eq)]
pub struct WriteError {
    pub path: String,
    pub cause: String,
}

impl View for WriteError {
    type V = WriteErrorView;

    open spec fn view(&self) -> WriteErrorView {
        WriteErrorView { path: self.path@, cause: self.cause@ }
    }
}

} // verus!
