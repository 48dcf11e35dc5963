use isola::client_pool::{ClientPool, ClientToken};
use isola::instrument::{
    FutPoll, GrpcInstrumentStream, InstrumentJoinStream, InstrumentStream, JoinStep, Polled, Record,
    SpanStatus,
};
use isola::memory_buffer::MemoryOutputBuffer;
use isola::options::{RequestContext, RequestOptions};
use isola::server::{
    access, close_frame, exec_timeout_secs, exec_to_event, first_response, input_step,
    membership_allows, non_stream_result, parse_source, result_content_type, stream_item_result,
    accepted_subject, token_claims, token_cookie, trace_convert, TokenFields, UserTokenSigner, trace_timestamp, verify_status, ws_step, Access,
    ApiError, ContentType, ExecItem, FirstResponse, FunctionPermission, FunctionVisibility,
    InlineSource, InputStep, LoginQuery, StatusCode, StreamUntilError, TraceEvent,
    TraceEventKind, TraceTimestamp, TraceType, UntilError, UserToken, VerifyStatus, WsInput, WsStep,
    ACCESS_TOKEN_SECONDS, CLOSE_ABNORMAL, CLOSE_NORMAL, CLOSE_UNSUPPORTED, REFRESH_TOKEN_SECONDS,
};
use isola::vm_cache::VmCache;
use isola::vm_exec::{cached_vm, first_vm_message, script_hash, vm_end, vm_event, VmEnd, VmEvent, VmFirst};

fn data(s: &str) -> ExecItem {
    ExecItem::Data(s.to_string())
}

#[test]
fn public_functions_are_viewable_by_anyone() {
    assert_eq!(
        access(FunctionPermission::Viewer, FunctionVisibility::Public, false),
        Access::Granted
    );
    assert_eq!(
        access(FunctionPermission::Viewer, FunctionVisibility::Internal, true),
        Access::Granted
    );
    assert_eq!(
        access(FunctionPermission::Viewer, FunctionVisibility::Internal, false),
        Access::Denied
    );
    assert_eq!(
        access(FunctionPermission::Editor, FunctionVisibility::Public, true),
        Access::ByMembership
    );
    assert_eq!(
        access(FunctionPermission::Owner, FunctionVisibility::Private, false),
        Access::Denied
    );
}

#[test]
fn permissions_include_lower_ones() {
    assert!(membership_allows(Some(FunctionPermission::Owner), FunctionPermission::Editor));
    assert!(membership_allows(Some(FunctionPermission::Editor), FunctionPermission::Editor));
    assert!(!membership_allows(Some(FunctionPermission::Viewer), FunctionPermission::Editor));
    assert!(!membership_allows(None, FunctionPermission::Viewer));
    assert_eq!(FunctionPermission::Owner.as_str(), "owner");
    assert_eq!(FunctionVisibility::Internal.as_str(), "internal");
}

#[test]
fn access_token_wins_over_refresh_token() {
    assert!(matches!(
        verify_status(Some("u1".to_string()), Some("u2".to_string())),
        VerifyStatus::Verified(id, UserToken {}) if id == "u1"
    ));
    assert!(matches!(
        verify_status(None, Some("u2".to_string())),
        VerifyStatus::Refresh(id) if id == "u2"
    ));
    assert!(matches!(verify_status(None, None), VerifyStatus::Invalid));
}

#[test]
fn token_claims_and_cookies() {
    let claims = token_claims("me".to_string(), 1_000, ACCESS_TOKEN_SECONDS);
    assert_eq!(claims.sub, "me");
    assert_eq!(claims.exp, 1_900);
    assert_eq!(claims.iat, 1_000);
    assert_eq!(claims.nbf, 940);
    assert_eq!(claims.iss, "pkt");
    let refresh = token_claims("me".to_string(), 0, REFRESH_TOKEN_SECONDS);
    assert_eq!(refresh.exp, 604_800);
    let cookie = token_cookie("v".to_string(), 5, true, false);
    assert_eq!(cookie.name, "pkt-token");
    assert_eq!(cookie.path, "/");
    assert!(cookie.http_only && cookie.secure);
    assert_eq!(token_cookie("v".to_string(), 5, false, true).name, "pkt-refresh-token");
}

#[test]
fn login_redirects_to_the_state_or_the_root() {
    let with_state = LoginQuery { code: "c".to_string(), state: Some("/app".to_string()) };
    assert_eq!(with_state.redirect_target(), "/app");
    let without = LoginQuery { code: "c".to_string(), state: None };
    assert_eq!(without.redirect_target(), "/");
}

#[test]
fn api_errors_are_internal_server_errors() {
    let error = ApiError::Boxed("root cause".to_string());
    assert_eq!(error.status(), 500);
    assert_eq!(error.message(), "root cause");
}

#[test]
fn first_item_decides_the_answer() {
    assert!(matches!(first_response(Some(ExecItem::End(Some("1".to_string())))), FirstResponse::Json(d) if d == "1"));
    assert!(matches!(first_response(Some(ExecItem::End(None))), FirstResponse::NoContent));
    assert!(matches!(first_response(Some(data("2"))), FirstResponse::Stream(d) if d == "2"));
    assert!(matches!(first_response(Some(ExecItem::Error("e".to_string()))), FirstResponse::Failed(m) if m == "e"));
    assert!(matches!(first_response(None), FirstResponse::NoContent));
}

#[test]
fn events_carry_results_and_done() {
    assert_eq!(exec_to_event(data("3")), Ok("3".to_string()));
    assert_eq!(exec_to_event(ExecItem::End(None)), Ok("[DONE]".to_string()));
    assert_eq!(exec_to_event(ExecItem::Error("x".to_string())), Err("x".to_string()));
    assert_eq!(exec_timeout_secs(None), 5);
    assert_eq!(exec_timeout_secs(Some(9)), 9);
}

#[test]
fn websocket_input_must_be_json_until_done() {
    assert!(matches!(input_step(WsInput::Text("[DONE]".to_string())), InputStep::Done));
    assert!(matches!(input_step(WsInput::Text(" {\"a\": 1} ".to_string())), InputStep::Forward(t) if t == "{\"a\": 1}"));
    assert!(matches!(input_step(WsInput::Text("{oops".to_string())), InputStep::Fail(m) if m == "invalid message"));
    assert!(matches!(input_step(WsInput::Other), InputStep::Fail(m) if m == "invalid message"));
}

#[test]
fn websocket_output_is_framed_when_traced() {
    assert!(matches!(ws_step(data("[1]"), true), Some(WsStep::Send(t)) if t == "{\"data\":[1]}"));
    assert!(matches!(ws_step(data("[1]"), false), Some(WsStep::Send(t)) if t == "[1]"));
    assert!(ws_step(data("not json"), true).is_none());
    assert!(matches!(ws_step(data(" [1] "), true), Some(WsStep::Send(t)) if t == "{\"data\":[1]}"));
    assert!(matches!(ws_step(data(" [1] "), false), Some(WsStep::Send(t)) if t == " [1] "));
    assert!(matches!(ws_step(ExecItem::End(Some("2".to_string())), true), Some(WsStep::Finish(Some(t))) if t == "{\"data\":2}"));
    assert!(matches!(ws_step(ExecItem::End(None), true), Some(WsStep::Finish(None))));
    assert!(matches!(ws_step(ExecItem::Error("e".to_string()), false), Some(WsStep::Fail(m)) if m == "e"));
}

#[test]
fn close_frames_report_the_outcome() {
    assert_eq!(close_frame(None), (CLOSE_UNSUPPORTED, "invalid request".to_string()));
    assert_eq!(close_frame(Some(Err("boom".to_string()))), (CLOSE_ABNORMAL, "boom".to_string()));
    assert_eq!(close_frame(Some(Ok(()))), (CLOSE_NORMAL, String::new()));
    assert_eq!((CLOSE_NORMAL, CLOSE_UNSUPPORTED, CLOSE_ABNORMAL), (1000, 1003, 1006));
}

#[test]
fn whole_output_is_joined_into_an_array() {
    let joined = non_stream_result(vec![data("1"), data("{\"a\":2}"), ExecItem::End(None)]);
    assert_eq!(joined.ok(), Some("[1,{\"a\":2}]".to_string()));
    assert_eq!(
        non_stream_result(vec![ExecItem::End(Some("7".to_string()))]).ok(),
        Some("7".to_string())
    );
    assert_eq!(non_stream_result(vec![ExecItem::End(None)]).ok(), Some("[]".to_string()));
    let error = non_stream_result(vec![data("1")]).err().unwrap();
    assert_eq!((error.code, error.message.as_str()), (StatusCode::Internal, "unexpected data"));
    let error = non_stream_result(vec![data("1"), ExecItem::End(Some("2".to_string()))]).err().unwrap();
    assert_eq!(error.message, "unexpected end with data");
    let error = non_stream_result(vec![data("1"), ExecItem::Error("bad".to_string())]).err().unwrap();
    assert_eq!(error.message, "bad");
    assert_eq!(non_stream_result(vec![]).ok(), Some("]".to_string()));
}

#[test]
fn content_type_is_the_first_known_preference() {
    assert_eq!(result_content_type(&vec![]), ContentType::ProtobufValue);
    assert_eq!(
        result_content_type(&vec![None, Some(ContentType::Unspecified), Some(ContentType::Json)]),
        ContentType::Json
    );
    assert_eq!(
        result_content_type(&vec![Some(ContentType::ProtobufValue), Some(ContentType::Json)]),
        ContentType::ProtobufValue
    );
}

#[test]
fn sources_and_stream_items() {
    let source = Some(Some(InlineSource { code: "c".to_string(), method: "m".to_string() }));
    let (code, method) = parse_source(&source).ok().unwrap();
    assert_eq!((code.as_str(), method.as_str()), ("c", "m"));
    let error = parse_source(&Some(None)).err().unwrap();
    assert_eq!(error.code, StatusCode::InvalidArgument);
    assert_eq!(error.message, "source type is not specified");
    assert!(parse_source(&None).is_err());
    assert_eq!(stream_item_result(data("1")).ok(), Some(Some("1".to_string())));
    assert_eq!(stream_item_result(ExecItem::End(None)).ok(), Some(None));
    assert_eq!(stream_item_result(ExecItem::Error("e".to_string())).err().unwrap().code, StatusCode::Internal);
}

#[test]
fn trace_timestamps_add_to_the_start() {
    assert_eq!(
        trace_timestamp(10, 999_999_000, 2_000_003),
        TraceTimestamp { seconds: 13, nanos: 2_000 }
    );
    let trace = trace_convert(
        TraceEvent {
            id: 3,
            group: "g".to_string(),
            micros: 1,
            kind: TraceEventKind::Event { parent_id: None, kind: "k".to_string(), data: Some("{}".to_string()) },
        },
        0,
        0,
    );
    assert_eq!(trace.id, 3);
    assert_eq!(trace.timestamp, TraceTimestamp { seconds: 0, nanos: 1_000 });
    match trace.trace_type {
        TraceType::Event { parent_id, kind, data } => {
            assert_eq!(parent_id, 0);
            assert_eq!(kind, "k");
            assert_eq!(data, vec![("attr".to_string(), "{}".to_string())]);
        }
        _ => panic!("an event stays an event"),
    }
    let end = trace_convert(
        TraceEvent { id: 1, group: "g".to_string(), micros: 0, kind: TraceEventKind::SpanEnd { parent_id: -2, data: None } },
        5,
        0,
    );
    assert!(matches!(end.trace_type, TraceType::SpanEnd { parent_id: -2, ref data } if data.is_empty()));
}

#[test]
fn stream_until_error_ends_with_an_error_event() {
    let mut stream = StreamUntilError::new();
    assert!(matches!(stream.on_poll(Polled::Item(1)), UntilError::Event(1)));
    assert!(matches!(stream.on_poll::<u8>(Polled::Pending), UntilError::Pending));
    assert!(stream.polls());
    assert!(matches!(stream.on_poll::<u8>(Polled::Failed("bad".to_string())), UntilError::ErrorEvent(m) if m == "bad"));
    assert!(!stream.polls());
}

#[test]
fn instrumented_body_counts_bytes_and_ends_its_span_once() {
    let mut stream = InstrumentStream::new();
    let (_, record) = stream.on_poll::<(), ()>(Polled::Item(()), Some(5));
    assert_eq!(record, Record::Nothing);
    stream.on_poll::<(), ()>(Polled::Item(()), None);
    stream.on_poll::<(), ()>(Polled::Item(()), Some(2));
    assert_eq!(stream.body_size(), 7);
    let (_, record) = stream.on_poll::<(), ()>(Polled::End, None);
    assert_eq!(record, Record::Finished { status: SpanStatus::Success, body_size: Some(7) });
    let (_, record) = stream.on_poll::<(), ()>(Polled::End, None);
    assert_eq!(record, Record::Nothing);

    let mut failing = InstrumentStream::new();
    let (_, record) = failing.on_poll::<(), &str>(Polled::Failed("x"), None);
    assert_eq!(record, Record::Finished { status: SpanStatus::Error, body_size: None });
}

#[test]
fn instrumented_grpc_stream_ends_its_span() {
    let mut stream = GrpcInstrumentStream::new();
    assert_eq!(stream.on_poll::<u8, u8>(Polled::Item(1)).1, Record::Nothing);
    assert_eq!(
        stream.on_poll::<u8, u8>(Polled::End).1,
        Record::Finished { status: SpanStatus::Success, body_size: None }
    );
    assert_eq!(stream.on_poll::<u8, u8>(Polled::Failed(2)).1, Record::Nothing);
}

#[test]
fn joined_stream_ends_when_both_parts_are_done() {
    let mut joined = InstrumentJoinStream::new();
    assert!(matches!(joined.on_stream::<u8, u8>(Polled::Item(4)), JoinStep::Yield(Polled::Item(4), Record::Nothing)));
    assert!(matches!(joined.on_stream::<u8, u8>(Polled::End), JoinStep::Continue));
    assert!(!joined.polls_stream());
    assert!(matches!(joined.on_future::<u8, u8>(FutPoll::Pending), JoinStep::Yield(Polled::Pending, Record::Nothing)));
    assert!(matches!(joined.on_future::<u8, u8>(FutPoll::Done), JoinStep::Continue));
    let (end, record) = joined.finish::<u8, u8>();
    assert!(matches!(end, Polled::End));
    assert_eq!(record, Record::Finished { status: SpanStatus::Success, body_size: None });

    let mut failing = InstrumentJoinStream::new();
    assert!(matches!(failing.finish::<u8, u8>().0, Polled::Pending));
    assert!(matches!(
        failing.on_future::<u8, u8>(FutPoll::Failed(9)),
        JoinStep::Yield(Polled::Failed(9), Record::Finished { status: SpanStatus::Error, body_size: None })
    ));
    assert!(!failing.polls_stream() && !failing.polls_future());
}

#[test]
fn request_options_carry_their_context() {
    let options = RequestOptions::new(());
    let mut context = options.context;
    let () = context.make_span(&"GET /");
    let _default: RequestOptions = RequestOptions::default();
}

#[test]
fn clients_serve_a_bounded_number_of_requests() {
    let mut pool: ClientPool<&str> = ClientPool::new(2);
    assert!(pool.try_reserve(1, 0).is_none());
    let (first, dropped) = pool.insert(1, "a", 0);
    assert_eq!(first, ClientToken { key: 1, id: 0 });
    assert_eq!(dropped, None);
    assert_eq!(pool.try_reserve(1, 1), Some(ClientToken { key: 1, id: 0 }));
    assert!(pool.try_reserve(1, 2).is_none());
    let (second, dropped) = pool.insert(1, "b", 2);
    assert_eq!(second, ClientToken { key: 1, id: 1 });
    assert_eq!(dropped, None);
    assert_eq!(pool.client(second), Some(&"b"));
    pool.release(first);
    let (again, dropped) = pool.insert(1, "c", 3);
    assert_eq!(again, ClientToken { key: 1, id: 1 });
    assert_eq!(dropped, Some("c"));
    assert!(pool.try_reserve(2, 3).is_none());
}

#[test]
fn cleanup_keeps_busy_and_recent_clients() {
    let mut pool: ClientPool<u8> = ClientPool::new(4);
    let (busy, _) = pool.insert(1, 10, 0);
    let (idle, _) = pool.insert(2, 20, 0);
    pool.release(idle);
    pool.cleanup(5, 10);
    assert_eq!(pool.client(idle), Some(&20));
    pool.cleanup(100, 10);
    assert_eq!(pool.client(idle), None);
    assert_eq!(pool.client(busy), Some(&10));
    pool.release(busy);
    pool.cleanup(100, 10);
    assert_eq!(pool.client(busy), None);
}

#[test]
fn vm_cache_returns_the_last_cached_vm_per_script() {
    let mut cache: VmCache<u32> = VmCache::new();
    let a = script_hash("def main(): pass");
    let b = script_hash("def other(): pass");
    assert_ne!(a, b);
    assert_eq!(cache.put(a, 1, true), None);
    assert_eq!(cache.put(a, 2, true), None);
    assert_eq!(cache.put(b, 3, false), Some(3));
    assert_eq!(cache.get(b), None);
    assert_eq!(cache.get(a), Some(2));
    assert_eq!(cache.get(a), Some(1));
    assert_eq!(cache.get(a), None);
}

#[test]
fn vm_cache_evicts_one_vm_past_its_capacity() {
    let mut cache: VmCache<u32> = VmCache::new();
    let hash = script_hash("x = 1");
    for i in 0..64 {
        assert_eq!(cache.put(hash, i, true), None);
    }
    let evicted = cache.put(hash, 64, true);
    assert_eq!(evicted, Some(64));
    let mut left = 0;
    while cache.get(hash).is_some() {
        left += 1;
    }
    assert_eq!(left, 64);
}

#[test]
fn script_hash_is_sha256() {
    let hash = script_hash("abc");
    assert_eq!(
        hash[..4],
        [0xba, 0x78, 0x16, 0xbf]
    );
    assert_eq!(hash[31], 0xad);
    let mut cache: VmCache<u8> = VmCache::new();
    cache.put(hash, 9, true);
    let (found_hash, vm) = cached_vm(&mut cache, "abc");
    assert_eq!(found_hash, hash);
    assert_eq!(vm, Some(9));
    assert_eq!(cached_vm(&mut cache, "abc").1, None);
}

#[test]
fn vm_messages_decide_the_answer() {
    assert!(matches!(first_vm_message(Some(Ok(("1".to_string(), true)))), VmFirst::AwaitEnd(d) if d == "1"));
    assert!(matches!(first_vm_message(Some(Ok(("1".to_string(), false)))), VmFirst::Stream(d) if d == "1"));
    assert!(matches!(first_vm_message(Some(Err("e".to_string()))), VmFirst::Failed(e) if e == "e"));
    assert!(matches!(first_vm_message(None), VmFirst::Missing));
    assert!(matches!(vm_end("[1]".to_string(), None), VmEnd::Json(d) if d == "[1]"));
    assert!(matches!(vm_end("[1".to_string(), None), VmEnd::InvalidJson));
    assert!(matches!(vm_end("\n[1] ".to_string(), None), VmEnd::Json(d) if d == "[1]"));
    assert!(matches!(vm_end("1".to_string(), Some(Ok(("2".to_string(), false)))), VmEnd::Unexpected));
    assert!(matches!(vm_end("1".to_string(), Some(Err("x".to_string()))), VmEnd::Failed(e) if e == "x"));
    assert!(matches!(vm_event(Ok((String::new(), true))), VmEvent::Data(d) if d == "[DONE]"));
    assert!(matches!(vm_event(Ok(("5".to_string(), true))), VmEvent::Data(d) if d == "5"));
    assert!(matches!(vm_event(Err("e".to_string())), VmEvent::Error(e) if e == "e"));
}

#[test]
fn memory_buffer_refuses_writes_past_capacity() {
    let mut buffer = MemoryOutputBuffer::new(4);
    assert_eq!(buffer.check_write(), Some(4));
    assert_eq!(buffer.write("hé".as_bytes()), Ok(()));
    assert_eq!(buffer.check_write(), Some(1));
    assert_eq!(
        buffer.write(b"ab"),
        Err("write beyond capacity of MemoryOutputPipe".to_string())
    );
    assert_eq!(buffer.write(b"!"), Ok(()));
    assert_eq!(buffer.check_write(), None);
    assert_eq!(buffer.pop(), Some("hé!".to_string()));
    assert_eq!(buffer.check_write(), Some(4));
    assert_eq!(buffer.write(&[0xff]), Ok(()));
    assert_eq!(buffer.pop(), None);
    assert_eq!(buffer.pop(), Some(String::new()));
}

#[test]
fn websocket_upgrade_asks_for_version_13() {
    let headers = isola::options::websocket_upgrade_headers("k==".to_string());
    assert_eq!(
        headers,
        vec![
            ("connection".to_string(), "Upgrade".to_string()),
            ("upgrade".to_string(), "websocket".to_string()),
            ("sec-websocket-version".to_string(), "13".to_string()),
            ("sec-websocket-key".to_string(), "k==".to_string()),
        ]
    );
    assert_eq!(isola::options::proxy_header(), "x-promptkit-proxy");
}

fn unix_now() -> i64 {
    std::time::SystemTime::now()
        .duration_since(std::time::UNIX_EPOCH)
        .unwrap()
        .as_secs() as i64
}

#[test]
fn signed_tokens_verify_with_their_secret_only() {
    let signer = UserTokenSigner::new(b"secret", true);
    let now = unix_now();
    let at = now as u64;
    let cookie = signer.sign("u1".to_string(), UserToken {}, now).unwrap();
    assert_eq!(cookie.name, "pkt-token");
    assert_eq!(cookie.path, "/");
    assert_eq!(cookie.expires, now + 900);
    assert!(cookie.http_only && cookie.secure);
    assert_eq!(cookie.value.split('.').count(), 3);
    assert!(matches!(
        signer.verify(Some(&cookie.value), None, at),
        VerifyStatus::Verified(id, UserToken {}) if id == "u1"
    ));
    let other = UserTokenSigner::new(b"other", false);
    assert!(matches!(other.verify(Some(&cookie.value), None, at), VerifyStatus::Invalid));

    let refresh = signer.sign_refresh("u2".to_string(), now).unwrap();
    assert_eq!(refresh.name, "pkt-refresh-token");
    assert_eq!(refresh.expires, now + 604800);
    assert!(matches!(
        signer.verify(Some("garbage"), Some(&refresh.value), at),
        VerifyStatus::Refresh(id) if id == "u2"
    ));
    assert!(matches!(
        signer.verify(Some(&cookie.value), Some(&refresh.value), at),
        VerifyStatus::Verified(id, UserToken {}) if id == "u1"
    ));
    assert!(matches!(signer.verify(None, None, at), VerifyStatus::Invalid));
}

#[test]
fn expired_tokens_are_refused() {
    let signer = UserTokenSigner::new(b"secret", false);
    let now = unix_now();
    let cookie = signer.sign("u1".to_string(), UserToken {}, now).unwrap();
    // valid up to its expiry and the leeway after it
    assert!(matches!(signer.verify(Some(&cookie.value), None, (now + 960) as u64), VerifyStatus::Verified(..)));
    assert!(matches!(signer.verify(Some(&cookie.value), None, (now + 961) as u64), VerifyStatus::Invalid));
}

#[test]
fn claims_need_every_standard_member() {
    let full = || TokenFields {
        sub: Some("u".to_string()),
        exp: Some(100),
        iat: Some(1),
        iss: Some("pkt".to_string()),
        nbf: Some(0),
    };
    assert_eq!(accepted_subject(Some(full()), 160), Some("u".to_string()));
    assert_eq!(accepted_subject(Some(full()), 161), None);
    let partial = TokenFields { sub: Some("u".to_string()), exp: Some(2), iat: None, iss: None, nbf: None };
    assert_eq!(accepted_subject(Some(partial), 60), None);
    assert_eq!(accepted_subject(None, 60), None);
}
