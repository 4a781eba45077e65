//! The decisions of the reader and the writer, and the result of a run.
//!
//! A chunk is the bytes of one read. The chunk of length zero is the end
//! mark: it travels the same way as the data and is the last thing a stage
//! that ends normally sends.

use vstd::prelude::*;
use vstd::slice::{slice_subrange, slice_to_vec};

verus! {

/// The most bytes that one read brings, and so the most that a chunk holds.
pub const CHUNK_SIZE: usize = 65_536;

/// Why a run failed.
#[derive(Clone, Copy, Debug, PartialEq, Eq, Structural)]
pub enum PipeError {
    /// The input could not be read.
    ReadFailure,
    /// The output could not be written.
    WriteFailure,
}

/// What one read of the input came to.
#[derive(Clone, Copy, Debug, PartialEq, Eq)]
pub enum ReadOutcome {
    /// The read filled this many bytes at the start of the buffer; none at
    /// the end of the input.
    Read(usize),
    /// The read failed.
    Failed,
}

/// What the reader does after one read.
#[derive(Debug, PartialEq, Eq)]
pub enum ReaderStep {
    /// Send the chunk and read on. Where the chunk cannot be sent, because
    /// nobody receives any more, the reader stops without a failure.
    Forward(Vec<u8>),
    /// Send the end mark and stop without a failure.
    Finish,
    /// Send nothing and stop with a read failure.
    Fail,
}

/// A reader's step, with the chunk as the sequence of its bytes.
pub enum ReaderAction {
    /// Send the chunk and read on.
    Forward(Seq<u8>),
    /// Send the end mark and stop without a failure.
    Finish,
    /// Send nothing and stop with a read failure.
    Fail,
}

impl View for ReaderStep {
    type V = ReaderAction;

    open spec fn view(&self) -> ReaderAction {
        match self {
            ReaderStep::Forward(chunk) => ReaderAction::Forward(chunk@),
            ReaderStep::Finish => ReaderAction::Finish,
            ReaderStep::Fail => ReaderAction::Fail,
        }
    }
}

/// What the writer does with one chunk.
#[derive(Clone, Copy, Debug, PartialEq, Eq, Structural)]
pub enum WriterStep {
    /// Write the whole chunk and receive on. Where the write fails the
    /// writer stops with a write failure and receives nothing more.
    Write,
    /// Write nothing and stop without a failure.
    Stop,
}

/// Whether the chunk is the end mark.
pub open spec fn is_end_mark(chunk: Seq<u8>) -> bool {
    chunk.len() == 0
}

/// The bytes that a read brought, or `None` where it failed.
pub open spec fn bytes_read(buffer: Seq<u8>, outcome: ReadOutcome) -> Option<Seq<u8>> {
    match outcome {
        ReadOutcome::Read(count) => Some(buffer.take(count as int)),
        ReadOutcome::Failed => None,
    }
}

/// The reader's step after a read that brought `read`.
pub open spec fn reader_action(read: Option<Seq<u8>>) -> ReaderAction {
    match read {
        None => ReaderAction::Fail,
        Some(bytes) => if is_end_mark(bytes) {
            ReaderAction::Finish
        } else {
            ReaderAction::Forward(bytes)
        },
    }
}

/// The writer's step for a chunk.
pub open spec fn writer_action(chunk: Seq<u8>) -> WriterStep {
    if is_end_mark(chunk) {
        WriterStep::Stop
    } else {
        WriterStep::Write
    }
}

/// The first failure among the results of the three stages, in the order
/// reader, monitor, writer; success where none failed.
pub open spec fn first_failure(
    reader: Result<(), PipeError>,
    monitor: Result<(), PipeError>,
    writer: Result<(), PipeError>,
) -> Result<(), PipeError> {
    if reader is Err {
        reader
    } else if monitor is Err {
        monitor
    } else {
        writer
    }
}

/// The end mark: a chunk without bytes.
pub fn end_mark() -> (chunk: Vec<u8>)
    ensures
        chunk@ == Seq::<u8>::empty(),
        is_end_mark(chunk@),
{
    Vec::new()
}

/// Decides what the reader does after a read into `buffer`.
///
/// A read that brought bytes has exactly those bytes forwarded as one chunk.
/// A read that brought none has reached the end of the input: the reader
/// sends the end mark and is done. A failed read ends the reader with a
/// failure and without an end mark, so that those who receive can tell the
/// two apart.
pub fn reader_step(buffer: &[u8], outcome: ReadOutcome) -> (step: ReaderStep)
    requires
        outcome matches ReadOutcome::Read(count) ==> count <= buffer@.len(),
    ensures
        step@ == reader_action(bytes_read(buffer@, outcome)),
{
    match outcome {
        ReadOutcome::Failed => ReaderStep::Fail,
        ReadOutcome::Read(count) => {
            if count == 0 {
                ReaderStep::Finish
            } else {
                let chunk = slice_to_vec(slice_subrange(buffer, 0, count));
                ReaderStep::Forward(chunk)
            }
        },
    }
}

/// Decides what the writer does with a chunk that it received: it writes a
/// chunk that holds bytes, and stops at the end mark.
pub fn writer_step(chunk: &[u8]) -> (step: WriterStep)
    ensures
        step == writer_action(chunk@),
{
    if chunk.len() == 0 {
        WriterStep::Stop
    } else {
        WriterStep::Write
    }
}

/// Combines the results of the three stages once all have ended: the run
/// succeeds when all of them did, and fails with the first failure
/// otherwise, whatever the stages after it returned.
pub fn run_result(
    reader: Result<(), PipeError>,
    monitor: Result<(), PipeError>,
    writer: Result<(), PipeError>,
) -> (result: Result<(), PipeError>)
    ensures
        result == first_failure(reader, monitor, writer),
        result is Ok <==> reader is Ok && monitor is Ok && writer is Ok,
{
    match reader {
        Err(e) => Err(e),
        Ok(_) => match monitor {
            Err(e) => Err(e),
            Ok(_) => writer,
        },
    }
}

} // verus!
