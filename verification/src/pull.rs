//! Pulling records from a stream one at a time: what one step of a format
//! gives, and the states that a reader moves through.

use crate::error::{ParseError, ParseErrorView};
use crate::stream::{ByteStream, StreamView};
use vstd::prelude::*;

verus! {

/// The failure of the source of `s`, found after the lines read so far.
pub open spec fn broken_at(s: StreamView) -> ParseErrorView {
    ParseErrorView::Io { path: s.path, line: s.line, cause: s.cause() }
}

/// The failure of the source of `stream`.
pub fn broken(stream: &ByteStream) -> (e: ParseError)
    ensures
        e@ == broken_at(stream@),
{
    ParseError::Io {
        path: stream.path().to_owned(),
        line: stream.line_number(),
        cause: stream.cause(),
    }
}

/// What one attempt to parse a record from a stream gives.
pub enum Step<V> {
    /// A record, and the stream behind it.
    Record(V, StreamView),
    /// No record: the stream ended cleanly where a record would begin.
    End,
    /// The bytes at the head of the stream are no record. The stream is
    /// where the reading stopped.
    Fail(ParseErrorView, StreamView),
}

/// The outcome of one pull, as contracts speak of it.
pub enum PullView<V> {
    Record(V),
    End,
    Failure(ParseErrorView),
}

/// The outcome of one pull from a reader.
#[derive(Debug, PartialEq, Eq)]
pub enum Pull<R> {
    /// The next record.
    Record(R),
    /// There are no more records.
    End,
    /// The stream holds no record where one should be.
    Failure(ParseError),
}

impl<R: View> View for Pull<R> {
    type V = PullView<R::V>;

    open spec fn view(&self) -> PullView<R::V> {
        match self {
            Pull::Record(r) => PullView::Record(r@),
            Pull::End => PullView::End,
            Pull::Failure(e) => PullView::Failure(e@),
        }
    }
}

/// The state of a reader. `Exhausted` and `Failed` are final.
pub enum ReaderView {
    /// More input may remain in the stream.
    Active(StreamView),
    /// The stream ended; every further pull gives `End`.
    Exhausted,
    /// A record was malformed; every further pull gives the same failure.
    Failed(ParseErrorView),
}

/// What a step gave, as the outcome of the pull that made it.
pub open spec fn outcome<V>(step: Step<V>) -> PullView<V> {
    match step {
        Step::Record(record, _) => PullView::Record(record),
        Step::End => PullView::End,
        Step::Fail(e, _) => PullView::Failure(e),
    }
}

/// The stream after a step that was made on the stream `s`.
pub open spec fn stream_after<V>(step: Step<V>, s: StreamView) -> StreamView {
    match step {
        Step::Record(_, rest) => rest,
        Step::End => s,
        Step::Fail(_, at) => at,
    }
}

/// The state of a reader after a step: it goes on behind a record and stops
/// for good at the end of the stream and at a malformed record.
pub open spec fn state_after<V>(step: Step<V>) -> ReaderView {
    match step {
        Step::Record(_, rest) => ReaderView::Active(rest),
        Step::End => ReaderView::Exhausted,
        Step::Fail(e, _) => ReaderView::Failed(e),
    }
}

/// One pull from a reader in `state` whose format parses by `step`: the
/// outcome and the state that follows.
pub open spec fn pull<V>(state: ReaderView, step: spec_fn(StreamView) -> Step<V>) -> (
    PullView<V>,
    ReaderView,
) {
    match state {
        ReaderView::Active(s) => (outcome(step(s)), state_after(step(s))),
        ReaderView::Exhausted => (PullView::End, ReaderView::Exhausted),
        ReaderView::Failed(e) => (PullView::Failure(e), ReaderView::Failed(e)),
    }
}

/// Every record that pulling from the stream `s` gives until it ends, or the
/// failure that stops the pulling. A step that gives a record is taken to
/// shorten the stream, as the steps of both formats do; behind one that did
/// not, the list ends.
pub open spec fn all_records<V>(s: StreamView, step: spec_fn(StreamView) -> Step<V>) -> Result<
    Seq<V>,
    ParseErrorView,
>
    decreases s.rest.len(),
{
    match step(s) {
        Step::End => Ok(Seq::empty()),
        Step::Fail(e, _) => Err(e),
        Step::Record(record, rest) => if rest.rest.len() < s.rest.len() {
            match all_records(rest, step) {
                Ok(records) => Ok(seq![record] + records),
                Err(e) => Err(e),
            }
        } else {
            Ok(seq![record])
        },
    }
}

/// Every record that pulling from a reader in `state` gives until it stops,
/// or the failure that stops it.
pub open spec fn drain<V>(state: ReaderView, step: spec_fn(StreamView) -> Step<V>) -> Result<
    Seq<V>,
    ParseErrorView,
> {
    match state {
        ReaderView::Active(s) => all_records(s, step),
        ReaderView::Exhausted => Ok(Seq::empty()),
        ReaderView::Failed(e) => Err(e),
    }
}

/// Where a reader stands, beside its stream.
#[derive(Debug, PartialEq, Eq)]
pub enum Status {
    Active,
    Exhausted,
    Failed(ParseError),
}

/// The state of a reader that holds `stream` and stands at `status`.
pub open spec fn reader_view(stream: StreamView, status: Status) -> ReaderView {
    match status {
        Status::Active => ReaderView::Active(stream),
        Status::Exhausted => ReaderView::Exhausted,
        Status::Failed(e) => ReaderView::Failed(e@),
    }
}

/// A bound on the pulls that a reader in `state` answers with a record.
pub open spec fn pulls_left(state: ReaderView) -> nat {
    match state {
        ReaderView::Active(s) => s.rest.len() + 1,
        _ => 0,
    }
}

} // verus!
