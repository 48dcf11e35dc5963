use isola::guest::{
    with_json_content_type, call_output, drive_mode, ready_flags, ready_step, split_arguments, take_http_result,
    take_result, PollableState, PyPollable,
};
use isola::pending::{self, Drive, InvalidHandle, Output, Registry, Response};
use isola::response_reader::{ReadNext, ReadPlan, ResponseReader};
use isola::time::Deadline;
use isola::wasi_http::{
    format_http_error, is_forbidden_header, parse_method, parse_scheme, retain_allowed_headers,
    timeout_nanos, trailers_error, BodyRead, BodyReader, BodyStep, HttpErrorKind, Method, Scheme,
    body_write_step, body_written, collect_body, invalid_headers_message, invalid_part_message,
    invalid_timeout_message, BodyWrite, RequestPart,
};

fn registry() -> Registry<(), u16> {
    Registry::new()
}

#[test]
fn sleep_pollable_is_ready_at_once_for_a_passed_deadline() {
    let mut operations = registry();
    let pollable = PyPollable::sleep(&mut operations, Deadline::default(), 0);
    assert_eq!(pollable.handle(), None);
    assert!(pollable.is_ready(&operations, 0));
    assert!(pollable.subscribe(&operations, 0).is_none());
    assert!(!pending::has_pending(&operations));
    assert_eq!(pollable.get(&mut operations, 0), Ok(()));
}

#[test]
fn sleep_pollable_waits_for_its_deadline() {
    let mut operations = registry();
    let deadline = Deadline::after(0, 100).unwrap();
    let pollable = PyPollable::sleep(&mut operations, deadline, 0);
    let handle = pollable.handle().unwrap();
    assert!(!pollable.is_ready(&operations, 50));
    let subscribed = pollable.subscribe(&operations, 50).unwrap();
    assert_eq!(subscribed.handle(), Some(handle));
    assert_eq!(pollable.wait_step(&operations, 50), Drive::Wait);
    assert_eq!(
        pollable.wait_outcome(&operations, 50),
        Err("operation did not become ready".to_string())
    );
    assert_eq!(pollable.wait_step(&operations, 100), Drive::Suspend);
    assert_eq!(pollable.wait_outcome(&operations, 100), Ok(()));
    assert_eq!(pollable.get(&mut operations, 100), Ok(()));
    assert_eq!(
        pollable.get(&mut operations, 100),
        Err(format!("invalid or already-consumed handle: {handle}"))
    );
}

#[test]
fn pollable_get_reports_early_and_foreign_results() {
    let mut operations = registry();
    let pollable = PyPollable::sleep(&mut operations, Deadline::after(0, 100).unwrap(), 0);
    assert_eq!(
        pollable.get(&mut operations, 1),
        Err("operation is not ready".to_string())
    );

    let call = pending::register_hostcall(&mut operations, "x".to_string(), vec![]);
    pending::complete(&mut operations, call, Response::Host(Ok(vec![])));
    let call_pollable = PyPollable::operation(call);
    assert_eq!(
        call_pollable.get(&mut operations, 0),
        Err("operation result must be read from its owner".to_string())
    );
}

#[test]
fn releasing_a_pollable_drops_its_operation() {
    let mut operations = registry();
    let pollable = PyPollable::sleep(&mut operations, Deadline::after(0, 100).unwrap(), 0);
    assert!(!pollable.release(&mut operations));
    assert!(!pending::has_pending(&operations));
    assert!(!PyPollable::default().release(&mut operations));
}

#[test]
fn ready_flags_count_missing_pollables_as_ready() {
    let mut operations = registry();
    let waiting = PyPollable::sleep(&mut operations, Deadline::after(0, 100).unwrap(), 0);
    let flags = ready_flags(&operations, &vec![None, Some(waiting), Some(PyPollable::default())], 0);
    assert_eq!(flags, vec![1, 0, 1]);
}

#[test]
fn drive_mode_follows_the_step_result() {
    assert_eq!(drive_mode(Some(true), false), Drive::Wait);
    assert_eq!(drive_mode(Some(false), true), Drive::Suspend);
    assert_eq!(drive_mode(Some(false), false), Drive::Stop);
    assert_eq!(drive_mode(None, true), Drive::Stop);
}

#[test]
fn call_results_are_taken_once() {
    let mut operations = registry();
    let call = pending::register_hostcall(&mut operations, "x".to_string(), vec![]);
    assert_eq!(ready_step(&operations, call, 0), Drive::Wait);
    assert_eq!(
        take_result(&mut operations, call, 0),
        Err("invalid or undriven call handle".to_string())
    );
    let call = pending::register_hostcall(&mut operations, "x".to_string(), vec![]);
    pending::complete(&mut operations, call, Response::Host(Ok(vec![5])));
    assert_eq!(ready_step(&operations, call, 0), Drive::Suspend);
    assert_eq!(take_result(&mut operations, call, 0), Ok(vec![5]));
    assert_eq!(
        take_result(&mut operations, call, 0),
        Err("invalid or undriven call handle".to_string())
    );
}

#[test]
fn call_output_accepts_only_host_results() {
    assert_eq!(
        call_output::<u16>(Ok(Output::Host(Ok(vec![1])))),
        Ok(vec![1])
    );
    assert_eq!(
        call_output::<u16>(Ok(Output::Sleep)),
        Err("invalid call handle".to_string())
    );
    assert_eq!(
        call_output::<u16>(Err(InvalidHandle(3))),
        Err("invalid call handle".to_string())
    );
}

#[test]
fn http_results_are_taken_with_their_response() {
    let mut operations = registry();
    let request = pending::register_http(&mut operations, "http://x/".to_string(), ());
    assert_eq!(
        take_http_result(&mut operations, request, 0),
        Err("invalid or undriven HTTP handle".to_string())
    );
    let request = pending::register_http(&mut operations, "http://x/".to_string(), ());
    pending::complete(&mut operations, request, Response::Http(Ok(204)));
    assert_eq!(take_http_result(&mut operations, request, 0), Ok(204));
}

#[test]
fn arguments_are_split_keeping_order() {
    let (positional, named) = split_arguments(vec![
        (None, 1),
        (Some("a".to_string()), 2),
        (None, 3),
        (Some("b".to_string()), 4),
    ]);
    assert_eq!(positional, vec![1, 3]);
    assert_eq!(named, vec![("a".to_string(), 2), ("b".to_string(), 4)]);
}

#[test]
fn pollable_state_is_structural() {
    assert_eq!(PollableState::Operation(3), PollableState::Operation(3));
    assert_ne!(PollableState::Ready, PollableState::Operation(0));
}

#[test]
fn forbidden_headers_are_removed() {
    assert!(is_forbidden_header("Host"));
    assert!(is_forbidden_header("connection"));
    assert!(!is_forbidden_header("content-type"));
    let kept = retain_allowed_headers(vec![
        ("Content-Type".to_string(), b"a".to_vec()),
        ("HOST".to_string(), b"b".to_vec()),
        ("x-y".to_string(), b"c".to_vec()),
    ]);
    assert_eq!(kept.len(), 2);
    assert_eq!(kept[0].0, "Content-Type");
    assert_eq!(kept[1].0, "x-y");
}

#[test]
fn methods_and_schemes_are_parsed() {
    assert_eq!(parse_method("get"), Method::Get);
    assert_eq!(parse_method("PaTcH"), Method::Patch);
    assert_eq!(parse_method("brew"), Method::Other("brew".to_string()));
    assert_eq!(parse_scheme("https"), Scheme::Https);
    assert_eq!(parse_scheme("http"), Scheme::Http);
    assert_eq!(parse_scheme("HTTP"), Scheme::Other("HTTP".to_string()));
}

#[test]
fn http_errors_distinguish_timeouts() {
    assert_eq!(
        format_http_error("HTTP request", HttpErrorKind::DnsTimeout, "DnsTimeout"),
        "HTTP request timed out: DnsTimeout"
    );
    assert_eq!(
        format_http_error("HTTP request", HttpErrorKind::Other, "ConnectionRefused"),
        "HTTP request failed: ConnectionRefused"
    );
    assert_eq!(timeout_nanos(3), 3_000_000);
    assert_eq!(timeout_nanos(u64::MAX), u64::MAX);
}

#[test]
fn body_reader_limits_the_body_and_checks_trailers_once() {
    let mut reader = BodyReader::new();
    assert!(matches!(reader.step(BodyRead::Chunk(10)), BodyStep::Emit));
    assert!(matches!(reader.step(BodyRead::Empty), BodyStep::ReadAgain));
    assert!(matches!(reader.step(BodyRead::Chunk(0)), BodyStep::ReadAgain));
    match reader.step(BodyRead::Chunk(16 * 1024 * 1024)) {
        BodyStep::Fail(message) => assert_eq!(
            message,
            "HTTP response body exceeds maximum size of 16777216 bytes"
        ),
        _ => panic!("an oversized body fails"),
    }
    assert!(matches!(reader.step(BodyRead::Dropped), BodyStep::End));

    let mut reader = BodyReader::new();
    assert!(matches!(reader.step(BodyRead::Dropped), BodyStep::CheckTrailers));
    assert!(matches!(reader.step(BodyRead::Dropped), BodyStep::End));
}

#[test]
fn trailer_errors_are_described() {
    assert_eq!(trailers_error(Ok(()), Ok(())), None);
    assert_eq!(
        trailers_error(Err("X".to_string()), Ok(())),
        Some("HTTP response body failed: X".to_string())
    );
    assert_eq!(
        trailers_error(Ok(()), Err((HttpErrorKind::ConnectionReadTimeout, "T".to_string()))),
        Some("HTTP request transmission timed out: T".to_string())
    );
}

#[test]
fn response_reader_reads_chunks_in_pieces() {
    let mut reader = ResponseReader::new(200, vec![("a".to_string(), b"b".to_vec())], 7);
    assert_eq!(reader.status(), Ok(200));
    assert_eq!(reader.headers().unwrap().len(), 1);

    let (plan, n) = reader.begin_read(3).unwrap();
    assert_eq!((plan, n), (ReadPlan::Copy, 3));
    let mut out = Vec::new();
    assert_eq!(reader.copy_out(n, &mut out), ReadNext::Register(7));
    assert!(out.is_empty());
    reader.set_pending(11);

    let (plan, n) = reader.begin_read(3).unwrap();
    assert_eq!(plan, ReadPlan::AwaitPending(11));
    assert_eq!(reader.on_chunk(Ok(Some(b"hello".to_vec()))), Ok(ReadNext::Continue));
    assert_eq!(reader.copy_out(n, &mut out), ReadNext::Ready);
    assert_eq!(out, b"hel".to_vec());
    assert_eq!(reader.copy_out(n, &mut out), ReadNext::Register(7));
    assert_eq!(out, b"hello".to_vec());
    reader.set_pending(12);
    assert_eq!(reader.on_chunk(Ok(None)), Ok(ReadNext::Finished(Some(7))));
    assert_eq!(
        reader.begin_read(-1),
        Err("Response already read".to_string())
    );
    assert_eq!(reader.close(), (None, None));
    assert_eq!(reader.status(), Err("response closed".to_string()));
    assert_eq!(reader.begin_read(1), Err("response closed".to_string()));
}

#[test]
fn response_reader_zero_read_and_close() {
    let mut reader = ResponseReader::new(404, Vec::new(), 1);
    assert_eq!(reader.begin_read(0), Ok((ReadPlan::Done, 0)));
    reader.set_pending(2);
    assert_eq!(reader.on_chunk(Err("bad".to_string())), Err("bad".to_string()));
    assert_eq!(reader.begin_read(-1), Ok((ReadPlan::AwaitPending(2), usize::MAX)));
    assert_eq!(reader.close(), (Some(2), Some(1)));
    assert_eq!(reader.close(), (None, None));
    assert_eq!(reader.begin_blocking_read(), Ok(()));
    reader.mark_consumed();
    assert_eq!(
        reader.begin_blocking_read(),
        Err("Response already read".to_string())
    );
}

#[test]
fn object_bodies_get_a_json_content_type_unless_one_is_given() {
    let added = with_json_content_type(vec![("accept".to_string(), b"*/*".to_vec())], true);
    assert_eq!(added.len(), 2);
    assert_eq!(added[1], ("content-type".to_string(), b"application/json".to_vec()));
    let kept = with_json_content_type(vec![("Content-Type".to_string(), b"text/plain".to_vec())], true);
    assert_eq!(kept, vec![("Content-Type".to_string(), b"text/plain".to_vec())]);
    let bytes = with_json_content_type(Vec::new(), false);
    assert!(bytes.is_empty());
}

#[test]
fn request_urls_take_the_query_parameters_in_order() {
    assert_eq!(
        isola::guest::request_url("https://example.com/a?x=1#f", &vec![("q".to_string(), "a b".to_string()), ("r".to_string(), "&".to_string())]),
        Ok("https://example.com/a?x=1&q=a+b&r=%26#f".to_string())
    );
    assert_eq!(isola::guest::request_url("http://example.com", &vec![]), Ok("http://example.com/".to_string()));
    assert_eq!(
        isola::guest::request_url("not a url", &vec![]),
        Err("relative URL without a base".to_string())
    );
}

#[test]
fn refused_request_parts_are_named() {
    assert_eq!(
        invalid_headers_message(Some("a\"b"), "InvalidSyntax"),
        "invalid HTTP header \"a\\\"b\": InvalidSyntax"
    );
    assert_eq!(invalid_headers_message(None, "Forbidden"), "invalid HTTP headers: Forbidden");
    assert_eq!(invalid_part_message(RequestPart::Method), "invalid HTTP method");
    assert_eq!(invalid_part_message(RequestPart::Path), "invalid HTTP path");
    assert_eq!(invalid_timeout_message("X"), "invalid HTTP timeout: X");
}

#[test]
fn request_bodies_skip_empty_chunks_and_notice_early_close() {
    assert!(matches!(body_write_step(Ok(vec![])), BodyWrite::Skip));
    assert!(matches!(body_write_step(Ok(vec![1])), BodyWrite::Write(b) if b == vec![1]));
    assert!(matches!(body_write_step(Err("e".to_string())), BodyWrite::Fail(e) if e == "e"));
    assert_eq!(body_written(0), Ok(()));
    assert_eq!(body_written(3), Err("HTTP request body stream closed early".to_string()));
}

#[test]
fn collected_bodies_stop_at_the_first_failure() {
    assert_eq!(collect_body(vec![Ok(b"ab".to_vec()), Ok(vec![]), Ok(b"c".to_vec())]), Ok(b"abc".to_vec()));
    assert_eq!(collect_body(vec![]), Ok(vec![]));
    assert_eq!(
        collect_body(vec![Ok(b"a".to_vec()), Err("broken".to_string()), Ok(vec![0; 20 * 1024 * 1024])]),
        Err("broken".to_string())
    );
    assert_eq!(
        collect_body(vec![Ok(vec![0; 16 * 1024 * 1024]), Ok(vec![1]), Err("later".to_string())]),
        Err("HTTP response body exceeds maximum size of 16777216 bytes".to_string())
    );
}
