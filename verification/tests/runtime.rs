use isola::cbor::{CallbackWriter, EmissionLog, EmitType};
use isola::pending::{
    self, Completion, Drive, InvalidHandle, Output, Registry, Request, Response, Take, Wait,
};
use isola::pymeta::parse_pep723;
use isola::time::{Deadline, DeadlineState, MonotonicClock, SleepSpan, WaitPlan};

const SECOND: u128 = 1_000_000_000;

fn registry() -> Registry<(), ()> {
    Registry::new()
}

#[test]
fn missing_space() {
    let contents = r"
# /// script
# requires-python = '>=3.11'
# dependencies = [
#   'requests<3',
#   'rich',
# ]
# ///
    ";

    assert_eq!(
        parse_pep723(contents).unwrap(),
        "requires-python = '>=3.11'\ndependencies = [\n  'requests<3',\n  'rich',\n]\n"
    );
}

#[test]
fn pep723_requires_the_opening_line_to_start_a_line() {
    assert_eq!(parse_pep723("x # /// script\n# a = 1\n# ///\n"), None);
    assert_eq!(parse_pep723("# /// script\n# a = 1\n# ///\n").unwrap(), "a = 1\n");
}

#[test]
fn pep723_without_closing_line_is_none() {
    assert_eq!(parse_pep723("# /// script\n# a = 1\n"), None);
    assert_eq!(parse_pep723("print(1)\n"), None);
}

#[test]
fn pep723_keeps_empty_comment_lines_and_stops_at_code() {
    let contents = "# /// script\r\n#\n# b = 2\n# ///\nimport os\n# ///\n";
    assert_eq!(parse_pep723(contents).unwrap(), "\nb = 2\n");
    assert_eq!(parse_pep723("# /// script\n# ///\n").unwrap(), "\n");
}

#[test]
fn finish_emits_continuations_and_final_chunk() {
    let mut writer = CallbackWriter::with_chunk_size(EmissionLog::new(), EmitType::End, 4);
    writer.write_all(b"abcdef");
    let emissions = writer.finish().into_entries();

    assert_eq!(
        emissions,
        vec![
            (EmitType::Continuation, b"abcd".to_vec()),
            (EmitType::End, b"ef".to_vec()),
        ]
    );
}

#[test]
fn drop_aborts_partial_output() {
    let mut writer = CallbackWriter::with_chunk_size(EmissionLog::new(), EmitType::End, 4);
    writer.write_all(b"abcdef");
    let emissions = writer.abort().into_entries();

    assert_eq!(
        emissions,
        vec![
            (EmitType::Continuation, b"abcd".to_vec()),
            (EmitType::Abort, Vec::new()),
        ]
    );
}

#[test]
fn full_buffer_is_emitted_only_when_more_bytes_arrive() {
    let mut writer = CallbackWriter::with_chunk_size(EmissionLog::new(), EmitType::PartialResult, 2);
    writer.write_all(b"ab");
    writer.write_all(b"cd");
    let emissions = writer.finish().into_entries();
    assert_eq!(
        emissions,
        vec![
            (EmitType::Continuation, b"ab".to_vec()),
            (EmitType::PartialResult, b"cd".to_vec()),
        ]
    );
}

#[test]
fn zero_chunk_size_means_one_byte_chunks() {
    let mut writer = CallbackWriter::with_chunk_size(EmissionLog::new(), EmitType::End, 0);
    writer.write_all(b"xyz");
    let emissions = writer.finish().into_entries();
    let payload: Vec<u8> = emissions.iter().flat_map(|(_, b)| b.clone()).collect();
    assert_eq!(payload, b"xyz".to_vec());
    assert_eq!(emissions.len(), 3);
}

#[test]
fn new_writer_uses_the_default_chunk_size() {
    let mut writer = CallbackWriter::new(EmissionLog::new(), EmitType::End);
    writer.write_all(&vec![7u8; 70_000]);
    let emissions = writer.finish().into_entries();
    assert_eq!(emissions.len(), 2);
    assert_eq!(emissions[0].1.len(), 64 * 1024);
    assert_eq!(emissions[1].1.len(), 70_000 - 64 * 1024);
}

#[test]
fn storage_is_freed_without_reusing_handles() {
    let mut operations = registry();
    let released = pending::register_sleep(&mut operations, Deadline::default(), 0);
    pending::release(&mut operations, released);

    let replacement = pending::register_sleep(&mut operations, Deadline::default(), 0);
    assert_ne!(replacement, released);
    assert_eq!(operations.len(), 1);

    pending::release(&mut operations, released);
    assert!(matches!(
        pending::take(&mut operations, replacement, 0),
        Ok(Take::Ready(Output::Sleep))
    ));
}

#[test]
fn consumed_handles_are_invalid() {
    let mut operations = registry();
    let handle = pending::register_sleep(&mut operations, Deadline::default(), 0);
    assert!(matches!(
        pending::take(&mut operations, handle, 0),
        Ok(Take::Ready(Output::Sleep))
    ));
    let Err(error) = pending::take(&mut operations, handle, 0) else {
        panic!("consumed handle should be rejected");
    };
    assert_eq!(error.handle(), handle);
}

#[test]
fn future_sleep_is_not_ready_when_taken_early() {
    let mut operations = registry();
    let deadline = Deadline::after(0, 60 * SECOND).unwrap();
    let handle = pending::register_sleep(&mut operations, deadline, 0);
    assert!(!pending::ready_handles(&mut operations, 0).contains(&handle));
    assert!(matches!(
        pending::take(&mut operations, handle, 0),
        Ok(Take::Pending)
    ));
}

#[test]
fn next_deadline_ignores_ready_sleep() {
    let mut operations = registry();
    let ready = pending::register_sleep(&mut operations, Deadline::default(), 0);
    let future = Deadline::after(0, 60 * SECOND).unwrap();
    let waiting = pending::register_sleep(&mut operations, future, 0);

    let next = pending::next_deadline(&mut operations, 0);
    assert_eq!(next, future.ready_at());

    pending::release(&mut operations, ready);
    pending::release(&mut operations, waiting);
}

#[test]
fn immediate_sleeps_are_ready_in_registration_order() {
    let mut operations = registry();
    let first = pending::register_sleep(&mut operations, Deadline::default(), 0);
    let second = pending::register_sleep(&mut operations, Deadline::default(), 0);
    let third = pending::register_sleep(&mut operations, Deadline::default(), 0);

    assert_eq!(pending::ready_handles(&mut operations, 0), vec![first, second, third]);

    pending::release(&mut operations, first);
    pending::release(&mut operations, second);
    pending::release(&mut operations, third);
}

#[test]
fn due_sleeps_become_ready_after_earlier_ones_in_deadline_order() {
    let mut operations = registry();
    let late = pending::register_sleep(&mut operations, Deadline::after(0, 20).unwrap(), 0);
    let early = pending::register_sleep(&mut operations, Deadline::after(0, 10).unwrap(), 0);
    let now = pending::register_sleep(&mut operations, Deadline::default(), 0);
    assert_eq!(pending::ready_handles(&mut operations, 5), vec![now]);
    assert_eq!(pending::ready_handles(&mut operations, 30), vec![now, early, late]);
    assert!(pending::is_ready(&operations, late, 30));
}

#[test]
fn released_handles_leave_the_ready_queue() {
    let mut operations = registry();
    let a = pending::register_sleep(&mut operations, Deadline::default(), 0);
    let b = pending::register_sleep(&mut operations, Deadline::default(), 0);
    pending::release(&mut operations, a);
    assert_eq!(pending::ready_handles(&mut operations, 0), vec![b]);
    assert!(pending::is_ready(&operations, a, 0), "an unknown handle counts as ready");
}

#[test]
fn host_calls_are_started_then_completed() {
    let mut operations = registry();
    let handle = pending::register_hostcall(&mut operations, "echo".to_string(), vec![1, 2]);
    assert!(pending::has_pending(&operations));
    assert!(!pending::is_ready(&operations, handle, 0));

    let generation = pending::begin_round(&mut operations, 0);
    let (started, changed) = pending::start_round(&mut operations, 0, generation);
    assert!(!changed);
    assert_eq!(started.len(), 1);
    assert_eq!(started[0].0, handle);
    match &started[0].1 {
        Request::Host(request) => {
            assert_eq!(request.call_type, "echo");
            assert_eq!(request.payload, vec![1, 2]);
        }
        Request::Http(()) => panic!("a host call was started as HTTP"),
    }
    assert!(operations.has_running());

    pending::complete(&mut operations, handle, Response::Host(Ok(vec![9])));
    assert!(!operations.has_running());
    assert!(pending::is_ready(&operations, handle, 0));
    match pending::take(&mut operations, handle, 0) {
        Ok(Take::Ready(Output::Host(Ok(bytes)))) => assert_eq!(bytes, vec![9]),
        _ => panic!("completed host call should be ready"),
    }
    assert!(!pending::has_pending(&operations));
}

#[test]
fn releasing_a_running_request_asks_for_an_abort() {
    let mut operations = registry();
    let handle = pending::register_http(&mut operations, "http://x/".to_string(), ());
    assert!(!pending::release(&mut operations, handle + 1));
    let generation = pending::begin_round(&mut operations, 0);
    let _ = pending::start_round(&mut operations, 0, generation);
    assert!(pending::release(&mut operations, handle));
    assert!(!pending::has_pending(&operations));
}

#[test]
fn clear_reports_running_requests_and_keeps_numbering() {
    let mut operations = registry();
    let a = pending::register_hostcall(&mut operations, "a".to_string(), vec![]);
    let generation = pending::begin_round(&mut operations, 0);
    let _ = pending::start_round(&mut operations, 0, generation);
    let b = pending::register_sleep(&mut operations, Deadline::default(), 0);
    let aborted = pending::clear(&mut operations);
    assert!(aborted.contains(&a));
    assert!(!aborted.contains(&b));
    assert!(!pending::has_pending(&operations));
    let c = pending::register_sleep(&mut operations, Deadline::default(), 0);
    assert_ne!(c, a);
    assert_ne!(c, b);
}

#[test]
fn driving_one_hands_out_what_remains_to_be_done() {
    let mut operations = registry();
    let call = pending::register_hostcall(&mut operations, "t".to_string(), vec![3]);
    match pending::drive_one(&mut operations, call) {
        Ok(pending::Blocking::Host(request)) => assert_eq!(request.payload, vec![3]),
        _ => panic!("a deferred call is handed out"),
    }
    assert_eq!(
        pending::drive_one(&mut operations, call).err(),
        Some(InvalidHandle(call))
    );

    let sleep = pending::register_sleep(&mut operations, Deadline::after(5, 5).unwrap(), 5);
    assert!(matches!(
        pending::drive_one(&mut operations, sleep),
        Ok(pending::Blocking::Sleep(_))
    ));

    let running = pending::register_hostcall(&mut operations, "r".to_string(), vec![]);
    let generation = pending::begin_round(&mut operations, 0);
    let _ = pending::start_round(&mut operations, 0, generation);
    assert_eq!(
        pending::drive_one(&mut operations, running).err(),
        Some(InvalidHandle(running))
    );
    assert_eq!(pending::take_aborted(&mut operations), vec![running]);
    assert_eq!(pending::take_aborted(&mut operations), Vec::<u32>::new());
}

#[test]
fn taking_a_running_call_queues_its_abort() {
    let mut operations = registry();
    let call = pending::register_hostcall(&mut operations, "t".to_string(), vec![]);
    let sleep = pending::register_sleep(&mut operations, Deadline::default(), 0);
    let generation = pending::begin_round(&mut operations, 0);
    let _ = pending::start_round(&mut operations, 0, generation);
    assert!(matches!(pending::take(&mut operations, call, 0), Ok(Take::Pending)));
    assert!(matches!(pending::take(&mut operations, sleep, 0), Ok(Take::Ready(Output::Sleep))));
    assert_eq!(pending::take_aborted(&mut operations), vec![call]);
}

#[test]
fn invalid_handle_message_names_the_handle() {
    assert_eq!(
        InvalidHandle(42).message(),
        "invalid or already-consumed handle: 42"
    );
    assert_eq!(
        InvalidHandle(0).message(),
        "invalid or already-consumed handle: 0"
    );
}

#[test]
fn plan_round_follows_the_callback() {
    let mut operations = registry();
    let (started, wait) = pending::plan_round(&mut operations, Drive::Stop, 0, 0, true);
    assert!(started.is_empty());
    assert_eq!(wait, Wait::Return);
    let (_, wait) = pending::plan_round(&mut operations, Drive::Suspend, 0, 0, true);
    assert_eq!(wait, Wait::Suspend);

    let generation = pending::begin_round(&mut operations, 0);
    let (started, wait) = pending::plan_round(&mut operations, Drive::Wait, generation, 0, true);
    assert!(started.is_empty());
    assert_eq!(wait, Wait::Idle);

    let _ = pending::register_sleep(&mut operations, Deadline::after(0, 100).unwrap(), 0);
    let generation = pending::begin_round(&mut operations, 0);
    let (_, wait) = pending::plan_round(&mut operations, Drive::Wait, generation, 10, true);
    assert_eq!(wait, Wait::Until(Some(100)));

    let (_, wait) = pending::plan_round(&mut operations, Drive::Wait, generation, 200, true);
    assert_eq!(wait, Wait::Progress);

    let call = pending::register_hostcall(&mut operations, "c".to_string(), vec![]);
    let generation = pending::begin_round(&mut operations, 200);
    let (started, wait) = pending::plan_round(&mut operations, Drive::Wait, generation, 200, true);
    assert_eq!(started.len(), 1);
    assert_eq!(started[0].0, call);
    assert_eq!(wait, Wait::Until(None));
}

#[test]
fn completions_count_unless_aborted() {
    let mut operations = registry();
    let call = pending::register_hostcall(&mut operations, "c".to_string(), vec![]);
    assert!(!pending::ends_wait(&Completion::<()>::Operation(call, None)));
    assert!(pending::ends_wait(&Completion::<()>::Deadline));
    assert!(!pending::apply_completion(&mut operations, Completion::Operation(call, None)));
    assert!(!pending::is_ready(&operations, call, 0));
    assert!(pending::apply_completion(
        &mut operations,
        Completion::Operation(call, Some(Response::Host(Err("boom".to_string()))))
    ));
    match pending::take(&mut operations, call, 0) {
        Ok(Take::Ready(Output::Host(Err(message)))) => assert_eq!(message, "boom"),
        _ => panic!("completed call should carry its error"),
    }
}

#[test]
fn rejects_deadlines_outside_the_clock_range() {
    assert!(Deadline::after(0, std::time::Duration::MAX.as_nanos()).is_err());
}

#[test]
fn deadline_after_adds_to_the_clock_reading() {
    let deadline = Deadline::after(10, 5).unwrap();
    assert_eq!(deadline.ready_at(), Some(15));
    assert!(!deadline.is_ready(14));
    assert!(deadline.is_ready(15));
    assert_eq!(Deadline::after(u64::MAX, 1).unwrap().ready_at(), Some(u64::MAX as u128 + 1));
    // a thousand years ahead is still a deadline
    assert!(Deadline::after(0, 1_000 * 365 * 24 * 3600 * SECOND).is_ok());
    assert_eq!(
        Deadline::after(0, isola::time::MAX_DEADLINE_NANOS).unwrap().ready_at(),
        Some(isola::time::MAX_DEADLINE_NANOS)
    );
    assert!(Deadline::after(1, isola::time::MAX_DEADLINE_NANOS).is_err());
}

#[test]
fn positive_infinity_is_never_ready() {
    let deadline = Deadline::after_span(SleepSpan::Forever, 0).unwrap();
    assert!(!deadline.is_ready(u64::MAX));
    assert!(deadline.is_never());
    assert_eq!(deadline.ready_at(), None);
}

#[test]
fn sleep_spans_map_to_deadlines() {
    assert_eq!(
        Deadline::after_span(SleepSpan::Other, 3).unwrap().0,
        DeadlineState::Ready
    );
    assert_eq!(
        Deadline::after_span(SleepSpan::Finite(Some(7)), 3).unwrap().0,
        DeadlineState::At(10)
    );
    assert!(Deadline::after_span(SleepSpan::Finite(None), 3).is_err());
    assert_eq!(
        Deadline::after(0, 0).unwrap().wait_plan(4),
        WaitPlan::Now
    );
    assert_eq!(Deadline::after(0, 9).unwrap().wait_plan(4), WaitPlan::Sleep(5));
    assert_eq!(Deadline::never().wait_plan(4), WaitPlan::Forever);
    assert_eq!(Deadline::ready().wait_plan(4), WaitPlan::Now);
}

#[test]
fn monotonic_clock_starts_at_its_first_reading() {
    let mut clock = MonotonicClock::new();
    assert_eq!(clock.elapsed_nanos(100), 0);
    assert_eq!(clock.elapsed_nanos(350), 250);
    isola::time::reset_monotonic(&mut clock);
    assert_eq!(clock.elapsed_nanos(400), 0);
    assert_eq!(clock.elapsed_nanos(401), 1);
}

#[test]
fn deadline_overflow_message() {
    assert_eq!(
        isola::time::DeadlineOverflow.message(),
        "sleep duration exceeds the monotonic clock range"
    );
}

#[test]
fn chunks_do_not_depend_on_how_writes_are_split() {
    let mut whole = CallbackWriter::with_chunk_size(EmissionLog::new(), EmitType::End, 4);
    whole.write_all(b"abcdefgh");
    let mut split = CallbackWriter::with_chunk_size(EmissionLog::new(), EmitType::End, 4);
    split.write_all(b"abc");
    split.write_all(b"");
    split.write_all(b"defg");
    split.write_all(b"h");
    let expected = vec![
        (EmitType::Continuation, b"abcd".to_vec()),
        (EmitType::End, b"efgh".to_vec()),
    ];
    assert_eq!(whole.finish().into_entries(), expected);
    assert_eq!(split.finish().into_entries(), expected);
}
