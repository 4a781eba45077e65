//! A run as a whole: what the stages do to a stream of chunks when each
//! takes its steps in turn.
//!
//! Channels keep the order of what one sender sends, and each has one
//! sender and one receiver. So what a stage receives is what the stage
//! before it sent, in that order, and a run is described by the sequence of
//! reads, the clock readings at which the chunks reach the monitor, and the
//! write that fails, if one does.

use vstd::prelude::*;
use crate::monitor::{
    bytes_in, ended_before, lemma_finished_by_end_mark, lemma_forwards_through_end_mark,
    lemma_total_counts_every_byte, Arrival, RateMonitor,
};
use crate::stage::{is_end_mark, reader_action, writer_action, PipeError, ReaderAction, WriterStep};

verus! {

/// How the reader ended after the reads, in order: `None` while it reads on.
/// Each read is the bytes that it brought, or `None` where it failed.
pub open spec fn reader_result(reads: Seq<Option<Seq<u8>>>) -> Option<Result<(), PipeError>>
    decreases reads.len(),
{
    if reads.len() == 0 {
        None
    } else if reader_result(reads.drop_last()) is Some {
        reader_result(reads.drop_last())
    } else {
        match reader_action(reads.last()) {
            ReaderAction::Forward(_) => None,
            ReaderAction::Finish => Some(Ok(())),
            ReaderAction::Fail => Some(Err(PipeError::ReadFailure)),
        }
    }
}

/// The chunks that the reader sends for the reads, in order. Reads after the
/// one that ended the reader do not happen and add nothing.
pub open spec fn sent(reads: Seq<Option<Seq<u8>>>) -> Seq<Seq<u8>>
    decreases reads.len(),
{
    if reads.len() == 0 {
        Seq::empty()
    } else if reader_result(reads.drop_last()) is Some {
        sent(reads.drop_last())
    } else {
        match reader_action(reads.last()) {
            ReaderAction::Forward(chunk) => sent(reads.drop_last()).push(chunk),
            ReaderAction::Finish => sent(reads.drop_last()).push(Seq::empty()),
            ReaderAction::Fail => sent(reads.drop_last()),
        }
    }
}

/// The bytes of the chunks, one after the other.
pub open spec fn concat(chunks: Seq<Seq<u8>>) -> Seq<u8>
    decreases chunks.len(),
{
    if chunks.len() == 0 {
        Seq::empty()
    } else {
        concat(chunks.drop_last()) + chunks.last()
    }
}

/// Whether the end mark stands nowhere in the chunks but in the last place.
pub open spec fn end_mark_only_last(chunks: Seq<Seq<u8>>) -> bool {
    forall|i: int| 0 <= i < chunks.len() - 1 ==> !is_end_mark(#[trigger] chunks[i])
}

/// Whether the arrivals are the chunks as the monitor sees them: one for
/// each chunk, with its length.
pub open spec fn arrivals_of(arrivals: Seq<Arrival>, chunks: Seq<Seq<u8>>) -> bool {
    &&& arrivals.len() == chunks.len()
    &&& forall|i: int| 0 <= i < chunks.len() ==> (#[trigger] arrivals[i]).len == chunks[i].len()
}

/// What the writer has done: the bytes in the sink, and how the writer
/// ended, `None` while it receives on.
pub struct Written {
    /// The bytes that the sink holds.
    pub bytes: Seq<u8>,
    /// How the writer ended, if it has.
    pub result: Option<Result<(), PipeError>>,
}

/// What the writer has done after it received the chunks, in order. The
/// sink takes every write but the one numbered `fails_at`, counted from
/// zero, if there is such a one.
pub open spec fn written(chunks: Seq<Seq<u8>>, fails_at: Option<nat>) -> Written
    decreases chunks.len(),
{
    if chunks.len() == 0 {
        Written { bytes: Seq::empty(), result: None }
    } else {
        let before = written(chunks.drop_last(), fails_at);
        if before.result is Some {
            before
        } else {
            match writer_action(chunks.last()) {
                WriterStep::Stop => Written { bytes: before.bytes, result: Some(Ok(())) },
                WriterStep::Write => if fails_at == Some((chunks.len() - 1) as nat) {
                    Written { bytes: before.bytes, result: Some(Err(PipeError::WriteFailure)) }
                } else {
                    Written { bytes: before.bytes + chunks.last(), result: None }
                },
            }
        }
    }
}

/// The reader sends the end mark at most once, and last: no chunk before
/// the last is the end mark. It sends it exactly when it ends without a
/// failure; a reader that fails, or has not ended, has sent no end mark.
pub proof fn lemma_end_mark_is_last(reads: Seq<Option<Seq<u8>>>)
    ensures
        end_mark_only_last(sent(reads)),
        reader_result(reads) == Some(Ok::<(), PipeError>(())) <==> sent(reads).len() > 0
            && is_end_mark(sent(reads).last()),
        reader_result(reads) is Some && reader_result(reads) != Some(Ok::<(), PipeError>(()))
            ==> reader_result(reads) == Some(Err::<(), PipeError>(PipeError::ReadFailure)),
    decreases reads.len(),
{
    if reads.len() > 0 {
        lemma_end_mark_is_last(reads.drop_last());
    }
}

/// The monitor forwards every chunk that the reader sent, and sees the end
/// of the stream at the end mark and not before: at the last chunk of a
/// reader that ended without a failure.
pub proof fn lemma_monitor_forwards_all(
    monitor: RateMonitor,
    reads: Seq<Option<Seq<u8>>>,
    arrivals: Seq<Arrival>,
    index: int,
)
    requires
        !monitor.finished,
        arrivals_of(arrivals, sent(reads)),
        0 <= index < arrivals.len(),
    ensures
        monitor.steps(arrivals)[index].forward,
        monitor.steps(arrivals)[index].finished <==> index == arrivals.len() - 1 && reader_result(
            reads,
        ) == Some(Ok::<(), PipeError>(())),
{
    let chunks = sent(reads);
    lemma_end_mark_is_last(reads);
    lemma_forwards_through_end_mark(monitor, arrivals, index);
    if ended_before(arrivals, index) {
        let j = choose|j: int|
            0 <= j < index && j < arrivals.len() && (#[trigger] arrivals[j]).len == 0;
        assert(is_end_mark(chunks[j]));
    }
    if ended_before(arrivals, index + 1) {
        let j = choose|j: int|
            0 <= j < index + 1 && j < arrivals.len() && (#[trigger] arrivals[j]).len == 0;
        assert(is_end_mark(chunks[j]));
    }
    if index == arrivals.len() - 1 && is_end_mark(chunks.last()) {
        assert(arrivals[index].len == 0);
    }
}

/// A writer whose sink takes every write, and that receives chunks with the
/// end mark last or not at all, has written the bytes of all of them in
/// their order. It has ended, and without a failure, exactly when the end
/// mark came.
pub proof fn lemma_writer_writes_all(chunks: Seq<Seq<u8>>)
    requires
        end_mark_only_last(chunks),
    ensures
        written(chunks, None).bytes == concat(chunks),
        written(chunks, None).result is Some <==> chunks.len() > 0 && is_end_mark(chunks.last()),
        written(chunks, None).result is Some ==> written(chunks, None).result == Some(
            Ok::<(), PipeError>(()),
        ),
    decreases chunks.len(),
{
    if chunks.len() > 0 {
        let front = chunks.drop_last();
        assert forall|i: int| 0 <= i < front.len() implies !is_end_mark(#[trigger] front[i]) by {
            assert(front[i] == chunks[i]);
        }
        lemma_writer_writes_all(front);
        assert(concat(front) + chunks.last() =~= concat(chunks));
        if is_end_mark(chunks.last()) {
            assert(concat(front) + chunks.last() =~= concat(front));
        }
    }
}

/// The writer stops at the end mark and not before: of the chunks that the
/// reader sent, it writes every one but the last of a reader that ended
/// without a failure, at which it stops.
pub proof fn lemma_writer_stops_at_end_mark(reads: Seq<Option<Seq<u8>>>, index: int)
    requires
        0 <= index < sent(reads).len(),
    ensures
        written(sent(reads).take(index), None).result is None,
        writer_action(sent(reads)[index]) == WriterStep::Stop <==> index == sent(reads).len() - 1
            && reader_result(reads) == Some(Ok::<(), PipeError>(())),
{
    let chunks = sent(reads);
    lemma_end_mark_is_last(reads);
    let front = chunks.take(index);
    assert forall|i: int| 0 <= i < front.len() implies !is_end_mark(#[trigger] front[i]) by {
        assert(front[i] == chunks[i]);
    }
    lemma_writer_writes_all(front);
}

/// A writer whose write numbered `failing` fails ends there with a write
/// failure, whatever comes after: the sink holds the bytes of the chunks
/// before that one and no others.
pub proof fn lemma_failed_write_stops_writer(chunks: Seq<Seq<u8>>, failing: nat)
    requires
        failing < chunks.len(),
        forall|i: int| 0 <= i <= failing ==> !is_end_mark(#[trigger] chunks[i]),
    ensures
        written(chunks, Some(failing)).result == Some(
            Err::<(), PipeError>(PipeError::WriteFailure),
        ),
        written(chunks, Some(failing)).bytes == concat(chunks.take(failing as int)),
    decreases chunks.len(),
{
    let front = chunks.drop_last();
    if failing < front.len() {
        assert forall|i: int| 0 <= i <= failing implies !is_end_mark(#[trigger] front[i]) by {
            assert(front[i] == chunks[i]);
        }
        lemma_failed_write_stops_writer(front, failing);
        assert(front.take(failing as int) =~= chunks.take(failing as int));
    } else {
        assert(front =~= chunks.take(failing as int));
        lemma_writes_before_failure(front, failing);
    }
}

/// Before the failing write the writer writes whatever it receives.
proof fn lemma_writes_before_failure(chunks: Seq<Seq<u8>>, failing: nat)
    requires
        chunks.len() <= failing,
        forall|i: int| 0 <= i < chunks.len() ==> !is_end_mark(#[trigger] chunks[i]),
    ensures
        written(chunks, Some(failing)).result is None,
        written(chunks, Some(failing)).bytes == concat(chunks),
    decreases chunks.len(),
{
    if chunks.len() > 0 {
        let front = chunks.drop_last();
        assert forall|i: int| 0 <= i < front.len() implies !is_end_mark(#[trigger] front[i]) by {
            assert(front[i] == chunks[i]);
        }
        lemma_writes_before_failure(front, failing);
    }
}

/// The length of the chunks together is the sum of the lengths that the
/// monitor sees.
pub proof fn lemma_concat_len(arrivals: Seq<Arrival>, chunks: Seq<Seq<u8>>)
    requires
        arrivals_of(arrivals, chunks),
    ensures
        concat(chunks).len() == bytes_in(arrivals),
    decreases chunks.len(),
{
    if chunks.len() > 0 {
        assert(arrivals_of(arrivals.drop_last(), chunks.drop_last())) by {
            assert forall|i: int| 0 <= i < chunks.len() - 1 implies (
            #[trigger] arrivals.drop_last()[i]).len == chunks.drop_last()[i].len() by {
                assert(arrivals[i].len == chunks[i].len());
            }
        }
        lemma_concat_len(arrivals.drop_last(), chunks.drop_last());
        assert(arrivals[chunks.len() - 1].len == chunks[chunks.len() - 1].len());
    }
}

/// The copy loses nothing and adds nothing. In a run whose reader reaches
/// the end of its input and whose sink takes every write, the sink holds
/// the bytes that the reader sent, in their order; the writer ends without
/// a failure; and the monitor's total has grown by the number of those
/// bytes, which is the sum of the lengths of the chunks.
pub proof fn lemma_copy_is_lossless(
    monitor: RateMonitor,
    reads: Seq<Option<Seq<u8>>>,
    arrivals: Seq<Arrival>,
)
    requires
        !monitor.finished,
        reader_result(reads) == Some(Ok::<(), PipeError>(())),
        arrivals_of(arrivals, sent(reads)),
        monitor.total_bytes + bytes_in(arrivals) <= u64::MAX,
    ensures
        written(sent(reads), None).bytes == concat(sent(reads)),
        written(sent(reads), None).result == Some(Ok::<(), PipeError>(())),
        monitor.after(arrivals).total_bytes == monitor.total_bytes + bytes_in(arrivals),
        monitor.after(arrivals).total_bytes == monitor.total_bytes + written(
            sent(reads),
            None,
        ).bytes.len(),
        monitor.after(arrivals).finished,
{
    let chunks = sent(reads);
    lemma_end_mark_is_last(reads);
    lemma_writer_writes_all(chunks);
    lemma_concat_len(arrivals, chunks);
    if ended_before(arrivals, arrivals.len() - 1) {
        let j = choose|j: int|
            0 <= j < arrivals.len() - 1 && j < arrivals.len() && (#[trigger] arrivals[j]).len == 0;
        assert(is_end_mark(chunks[j]));
    }
    lemma_total_counts_every_byte(monitor, arrivals);
    lemma_finished_by_end_mark(monitor, arrivals);
    assert(arrivals[arrivals.len() - 1].len == 0);
}

} // verus!
