//! Typed records from FASTA and FASTQ files, plain or gzip compressed.
//!
//! A caller hands over the name of a file and what the file holds, and pulls
//! records from a reader, or pushes records to a writer and takes what the
//! file is to hold. A name that ends in `.gz` selects gzip framing on both
//! sides; nothing else about the file is looked at. Opening, reading and
//! writing the file itself is left to the caller.
//!
//! - `stream`: byte sources and sinks, and the rule on file names.
//! - `lines`: how a run of bytes falls into lines.
//! - `fasta`, `fastq`: the records of each format, its grammar, its reader
//!   and its writer.
//! - `pull`: the states of a reader, shared by both formats.
//! - `fasta_laws`, `fastq_laws`: what is proved of each format.
//! - `gzip`: the calls into `flate2`.

pub mod error;
pub mod fasta;
pub mod fasta_laws;
pub mod fastq;
pub mod fastq_laws;
pub mod gzip;
pub mod lines;
pub mod pull;
pub mod stream;

pub use crate::fasta::{fasta_reader, fasta_writer};
pub use crate::fastq::{fastq_reader, fastq_writer};
pub use crate::stream::{reader, writer};
