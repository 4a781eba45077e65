use eminent_spoon::stage::{
    end_mark, reader_step, run_result, writer_step, PipeError, ReadOutcome, ReaderStep, WriterStep,
};

#[test]
fn end_mark_is_empty() {
    assert!(end_mark().is_empty());
    assert_eq!(writer_step(&end_mark()), WriterStep::Stop);
}

#[test]
fn reader_forwards_exactly_the_bytes_read() {
    let buffer: Vec<u8> = vec![1, 2, 3, 4, 5, 6, 7, 8];
    assert_eq!(
        reader_step(&buffer, ReadOutcome::Read(3)),
        ReaderStep::Forward(vec![1, 2, 3])
    );
    assert_eq!(
        reader_step(&buffer, ReadOutcome::Read(1)),
        ReaderStep::Forward(vec![1])
    );
}

#[test]
fn reader_forwards_a_full_buffer() {
    let buffer: Vec<u8> = vec![9, 8, 7];
    assert_eq!(
        reader_step(&buffer, ReadOutcome::Read(3)),
        ReaderStep::Forward(vec![9, 8, 7])
    );
}

#[test]
fn reader_finishes_at_the_end_of_input() {
    let buffer: Vec<u8> = vec![1, 2, 3];
    assert_eq!(reader_step(&buffer, ReadOutcome::Read(0)), ReaderStep::Finish);
    let empty: Vec<u8> = Vec::new();
    assert_eq!(reader_step(&empty, ReadOutcome::Read(0)), ReaderStep::Finish);
}

#[test]
fn reader_fails_on_a_failed_read() {
    let buffer: Vec<u8> = vec![1, 2, 3];
    assert_eq!(reader_step(&buffer, ReadOutcome::Failed), ReaderStep::Fail);
}

#[test]
fn writer_writes_data_and_stops_at_the_end_mark() {
    assert_eq!(writer_step(&[1, 2, 3]), WriterStep::Write);
    assert_eq!(writer_step(&[0]), WriterStep::Write);
    assert_eq!(writer_step(&[]), WriterStep::Stop);
}

#[test]
fn run_succeeds_when_all_stages_do() {
    assert_eq!(run_result(Ok(()), Ok(()), Ok(())), Ok(()));
}

#[test]
fn run_fails_with_the_read_failure() {
    assert_eq!(
        run_result(Err(PipeError::ReadFailure), Ok(()), Ok(())),
        Err(PipeError::ReadFailure)
    );
}

#[test]
fn run_fails_with_the_write_failure() {
    assert_eq!(
        run_result(Ok(()), Ok(()), Err(PipeError::WriteFailure)),
        Err(PipeError::WriteFailure)
    );
}

#[test]
fn run_fails_with_the_first_failure() {
    assert_eq!(
        run_result(Err(PipeError::ReadFailure), Ok(()), Err(PipeError::WriteFailure)),
        Err(PipeError::ReadFailure)
    );
    assert_eq!(
        run_result(Ok(()), Err(PipeError::WriteFailure), Err(PipeError::ReadFailure)),
        Err(PipeError::WriteFailure)
    );
    assert_eq!(
        run_result(
            Err(PipeError::WriteFailure),
            Err(PipeError::ReadFailure),
            Err(PipeError::ReadFailure)
        ),
        Err(PipeError::WriteFailure)
    );
}
