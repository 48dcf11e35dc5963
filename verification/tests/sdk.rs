use isola::sdk_config::{
    dedupe_mounts_by_guest, parse_mounts, template_mounts, CacheDirConfig, ConfiguredMount,
    ContextConfig, ContextConfigPatch, ContextState, DirPerms, FilePerms, MountConfigInput,
    PendingSandboxConfig, PermissionConfig, SandboxConfigPatch, SdkError,
};
use isola::sdk_run::{
    argument_kind, body_feed, body_mode, check_stream_capacity, failure_message, hostcall, pair_handler,
    send_error, timeout_error, ArgKind, BodyFeed, BodyMode, BodyPull, CallbackEvent, LogStream, OutputData, Phase,
    SandboxInner, StreamSlots,
};

fn mount(host: &str, guest: &str) -> MountConfigInput {
    MountConfigInput {
        host: host.to_string(),
        guest: guest.to_string(),
        dir_perms: None,
        file_perms: None,
    }
}

fn configured(host: &str, guest: &str) -> ConfiguredMount {
    ConfiguredMount {
        host: host.to_string(),
        guest: guest.to_string(),
        dir_perms: DirPerms { read: true, mutate: false },
        file_perms: FilePerms { read: true, write: false },
    }
}

fn invalid(e: SdkError) -> String {
    match e {
        SdkError::InvalidArgument(m) => m,
        other => panic!("expected an invalid argument, got {}", other.message()),
    }
}

fn empty_context_patch() -> ContextConfigPatch {
    ContextConfigPatch {
        cache_dir: None,
        max_memory: None,
        prelude: None,
        runtime_lib_dir: None,
        mounts: None,
        env: None,
    }
}

#[test]
fn mounts_default_to_read_only() {
    let mut m = mount("/h", "/g");
    m.file_perms = Some(PermissionConfig::ReadWrite);
    let mut w = mount("/h2", "/g2");
    w.dir_perms = Some(PermissionConfig::Write);
    w.file_perms = Some(PermissionConfig::Write);
    let parsed = parse_mounts(vec![m, w]).ok().unwrap();
    assert_eq!(parsed[0].dir_perms, DirPerms { read: true, mutate: false });
    assert_eq!(parsed[0].file_perms, FilePerms { read: true, write: true });
    assert_eq!(parsed[1].dir_perms, DirPerms { read: false, mutate: true });
    assert_eq!(parsed[1].file_perms, FilePerms { read: false, write: true });
}

#[test]
fn empty_mount_paths_are_rejected() {
    assert_eq!(
        invalid(parse_mounts(vec![mount("/h", "/g"), mount("", "")]).err().unwrap()),
        "mount host path must not be empty"
    );
    assert_eq!(
        invalid(parse_mounts(vec![mount("/h", "")]).err().unwrap()),
        "mount guest path must not be empty"
    );
}

#[test]
fn later_mounts_replace_earlier_ones_at_the_same_guest_path() {
    let deduped = dedupe_mounts_by_guest(vec![
        configured("/a", "/x"),
        configured("/b", "/y"),
        configured("/c", "/x"),
    ]);
    assert_eq!(deduped.len(), 2);
    assert_eq!(deduped[0].host, "/c");
    assert_eq!(deduped[0].guest, "/x");
    assert_eq!(deduped[1].host, "/b");
}

#[test]
fn template_mounts_start_with_the_runtime_library() {
    let mounts = template_mounts("/rt/lib".to_string(), vec![configured("/d", "/data")]);
    assert_eq!(mounts.len(), 2);
    assert_eq!(mounts[0].host, "/rt/lib");
    assert_eq!(mounts[0].guest, "/lib");
    let replaced = template_mounts("/rt/lib".to_string(), vec![configured("/mine", "/lib")]);
    assert_eq!(replaced.len(), 1);
    assert_eq!(replaced[0].host, "/mine");
}

#[test]
fn context_patch_changes_only_given_fields() {
    let mut config = ContextConfig::default();
    config
        .apply_patch(ContextConfigPatch {
            cache_dir: Some(None),
            max_memory: Some(Some(1024)),
            prelude: Some(Some("import os".to_string())),
            runtime_lib_dir: None,
            mounts: Some(vec![mount("/h", "/g")]),
            env: Some(vec![("A".to_string(), "1".to_string())]),
        })
        .ok()
        .unwrap();
    assert!(matches!(config.cache_dir, CacheDirConfig::Disabled));
    assert_eq!(config.max_memory, Some(1024));
    assert_eq!(config.prelude.as_deref(), Some("import os"));
    assert_eq!(config.mounts.len(), 1);
    assert_eq!(config.env, vec![("A".to_string(), "1".to_string())]);

    config.apply_patch(empty_context_patch()).ok().unwrap();
    assert_eq!(config.max_memory, Some(1024));
    assert_eq!(config.cache_path("/rt/cache".to_string()), None);

    let mut patch = empty_context_patch();
    patch.cache_dir = Some(Some("/c".to_string()));
    patch.max_memory = Some(None);
    config.apply_patch(patch).ok().unwrap();
    assert_eq!(config.max_memory, None);
    assert_eq!(config.cache_path("/rt/cache".to_string()), Some("/c".to_string()));
    assert_eq!(
        ContextConfig::default().cache_path("/rt/cache".to_string()),
        Some("/rt/cache".to_string())
    );
}

#[test]
fn context_patch_error_keeps_earlier_changes() {
    let mut config = ContextConfig::default();
    let mut patch = empty_context_patch();
    patch.prelude = Some(Some("p".to_string()));
    patch.mounts = Some(vec![mount("", "/g")]);
    patch.env = Some(vec![("A".to_string(), "1".to_string())]);
    assert_eq!(
        invalid(config.apply_patch(patch).err().unwrap()),
        "mount host path must not be empty"
    );
    assert_eq!(config.prelude.as_deref(), Some("p"));
    assert!(config.env.is_empty());
}

#[test]
fn sandbox_patch_rejects_a_zero_timeout() {
    let mut config = PendingSandboxConfig::default();
    let patch = SandboxConfigPatch {
        max_memory: Some(Some(10)),
        timeout_ms: Some(Some(0)),
        mounts: None,
        env: None,
    };
    assert_eq!(
        invalid(config.apply_patch(patch).err().unwrap()),
        "timeout_ms must be greater than 0"
    );
    assert_eq!(config.max_memory, Some(10));
    let patch = SandboxConfigPatch {
        max_memory: None,
        timeout_ms: Some(Some(250)),
        mounts: None,
        env: None,
    };
    config.apply_patch(patch).ok().unwrap();
    assert_eq!(config.timeout_ms, Some(250));
}

#[test]
fn context_configuration_freezes_with_the_template() {
    let mut context: ContextState<u8> = ContextState::new();
    assert!(!context.has_template());
    assert_eq!(
        invalid(context.template().err().unwrap()),
        "runtime template not initialized"
    );
    context.configure(empty_context_patch()).ok().unwrap();
    assert!(context.template_config().is_ok());
    context.install_template(7).ok().unwrap();
    assert_eq!(*context.template().ok().unwrap(), 7);
    assert_eq!(
        invalid(context.configure(empty_context_patch()).err().unwrap()),
        "context template already initialized"
    );
    assert_eq!(
        invalid(context.install_template(8).err().unwrap()),
        "context template already initialized"
    );
    assert!(context.template_config().is_err());
}

#[test]
fn sandbox_life_cycle() {
    let mut sandbox: SandboxInner<&str, u8, u8> = SandboxInner::pending();
    sandbox.set_callback(Some(1)).ok().unwrap();
    sandbox.set_http_handler(Some(2)).ok().unwrap();
    assert_eq!(
        invalid(sandbox.acquire().err().unwrap()),
        "sandbox is not running"
    );

    let (config, callback, handler) = sandbox.begin_start().ok().unwrap();
    assert_eq!(
        invalid(sandbox.begin_start().err().unwrap()),
        "sandbox is not in pending state"
    );
    sandbox
        .finish_start(Err(SdkError::Internal("no".to_string())), config, callback, handler)
        .err()
        .unwrap();
    assert!(matches!(sandbox, SandboxInner::Pending { .. }));

    let (config, callback, handler) = sandbox.begin_start().ok().unwrap();
    sandbox.finish_start(Ok("vm"), config, callback, handler).ok().unwrap();
    assert_eq!(sandbox.callback(), Some(&1));
    assert_eq!(
        invalid(sandbox.set_http_handler(None).err().unwrap()),
        "sandbox is already running"
    );

    let (vm, timeout) = sandbox.acquire().ok().unwrap();
    assert_eq!(vm, "vm");
    assert_eq!(timeout, None);
    assert_eq!(invalid(sandbox.acquire().err().unwrap()), "sandbox is busy");
    assert_eq!(sandbox.give_back(vm), None);
    assert_eq!(sandbox.give_back("other"), Some("other"));
    assert_eq!(sandbox.acquire().ok().unwrap().0, "vm");

    sandbox.close();
    assert_eq!(
        invalid(sandbox.set_callback(None).err().unwrap()),
        "sandbox is not initialized"
    );
    assert_eq!(sandbox.give_back("vm"), Some("vm"));
}

#[test]
fn http_handler_needs_both_parts() {
    assert_eq!(pair_handler(Some(1), Some(2)).ok().unwrap(), Some((1, 2)));
    assert_eq!(pair_handler::<u8, u8>(None, None).ok().unwrap(), None);
    assert_eq!(
        invalid(pair_handler::<u8, u8>(Some(1), None).err().unwrap()),
        "callback and event_loop must both be set or both be None"
    );
}

#[test]
fn output_is_collected_by_kind() {
    let mut output = OutputData::new();
    assert_eq!(
        output.on_item("1".to_string()),
        (CallbackEvent::ResultJson, Some("1".to_string()))
    );
    assert_eq!(
        output.on_log(LogStream::Stdout, "out"),
        (CallbackEvent::Stdout, Some("out".to_string()))
    );
    output.on_log(LogStream::Stderr, "err");
    output.on_log(LogStream::Log, "log");
    assert_eq!(
        output.on_complete(Some("2".to_string())),
        (CallbackEvent::EndJson, Some("2".to_string()))
    );
    assert_eq!(output.on_complete(None), (CallbackEvent::EndJson, None));
    output.on_error("bad");
    assert_eq!(output.result_json, vec!["1".to_string()]);
    assert_eq!(output.final_json, Some("2".to_string()));
    assert_eq!(output.stdout, vec!["out".to_string()]);
    assert_eq!(output.stderr, vec!["err".to_string()]);
    assert_eq!(output.logs, vec!["log".to_string()]);
    assert_eq!(output.errors, vec!["bad".to_string()]);
}

#[test]
fn callback_event_names() {
    assert_eq!(CallbackEvent::ResultJson.as_str(), "result_json");
    assert_eq!(CallbackEvent::EndJson.as_str(), "end_json");
    assert_eq!(CallbackEvent::Stdout.as_str(), "stdout");
    assert_eq!(CallbackEvent::Stderr.as_str(), "stderr");
    assert_eq!(CallbackEvent::Error.as_str(), "error");
    assert_eq!(CallbackEvent::Log.as_str(), "log");
}

#[test]
fn run_failures_are_described() {
    assert_eq!(
        timeout_error(Phase::Loading, 250).message(),
        "Internal error: Script execution timed out after 250ms"
    );
    assert_eq!(
        timeout_error(Phase::Calling, 7).message(),
        "Internal error: Sandbox execution timed out after 7ms"
    );
    assert_eq!(failure_message(Phase::Loading, "x"), "Script loading failed: x");
    assert_eq!(failure_message(Phase::Calling, "y"), "Sandbox execution failed: y");
}

#[test]
fn errors_display_like_their_kind() {
    assert_eq!(SdkError::StreamFull.message(), "Stream is full");
    assert_eq!(SdkError::StreamClosed.message(), "Stream is closed");
    assert_eq!(
        SdkError::InvalidArgument("a".to_string()).message(),
        "Invalid argument: a"
    );
    assert!(matches!(send_error(true), SdkError::StreamFull));
    assert!(matches!(send_error(false), SdkError::StreamClosed));
}

#[test]
fn argument_kinds_and_body_modes() {
    assert_eq!(argument_kind("json").ok(), Some(ArgKind::Json));
    assert_eq!(argument_kind("stream").ok(), Some(ArgKind::Stream));
    assert_eq!(
        invalid(argument_kind("file").err().unwrap()),
        "unsupported argument kind: file"
    );
    assert_eq!(body_mode("none"), Ok(BodyMode::Empty));
    assert_eq!(body_mode("bytes"), Ok(BodyMode::Bytes));
    assert_eq!(body_mode("stream"), Ok(BodyMode::Stream));
    assert_eq!(body_mode("zip"), Err("unknown body mode: zip".to_string()));
}

#[test]
fn streams_hand_out_each_end_once() {
    assert!(check_stream_capacity(1).is_ok());
    assert_eq!(
        invalid(check_stream_capacity(0).err().unwrap()),
        "stream capacity must be greater than 0"
    );
    let mut slots = StreamSlots { sender: Some(1u8), receiver: Some(2u8) };
    assert_eq!(*slots.sender().ok().unwrap(), 1);
    assert_eq!(slots.take_receiver().ok(), Some(2));
    assert_eq!(
        invalid(slots.take_receiver().err().unwrap()),
        "stream receiver already taken"
    );
    assert_eq!(slots.close_sender(), Some(1));
    assert!(matches!(slots.sender().err().unwrap(), SdkError::StreamClosed));
}

#[test]
fn only_echo_host_calls_are_answered() {
    assert_eq!(hostcall("echo", 5), Ok(5));
    assert_eq!(hostcall("other", 5), Err("unknown hostcall type".to_string()));
}

#[test]
fn streamed_bodies_stop_at_the_end_or_an_error() {
    match body_feed::<String>(BodyPull::Chunk(Ok(vec![1, 2, 3]))) {
        BodyFeed::Send(bytes) => assert_eq!(bytes, vec![1, 2, 3]),
        _ => panic!("a chunk is sent"),
    }
    match body_feed(BodyPull::Chunk(Err("not bytes".to_string()))) {
        BodyFeed::SendErrorAndStop(e) => assert_eq!(e, "not bytes"),
        _ => panic!("a bad chunk ends the body"),
    }
    match body_feed(BodyPull::Failed("boom".to_string())) {
        BodyFeed::SendErrorAndStop(e) => assert_eq!(e, "boom"),
        _ => panic!("a failed iterator ends the body"),
    }
    assert!(matches!(body_feed::<String>(BodyPull::Exhausted), BodyFeed::Stop));
}
