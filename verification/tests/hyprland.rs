use waybar_vdesk::hyprland::{
    apply_jitter, connect_failure_step, desk_info_command, is_transient_connect_error,
    is_vdesk_event, retry_delay, state_command, switch_desk_command, validate_instance_signature,
    ConnectStep, HyprlandIPC, IpcConfigError, ListenRetry, ListenStep, SignatureError,
    DEFAULT_RETRY_BASE_DELAY_MS, DEFAULT_RETRY_MAX, MAX_DELAY_MS,
};

#[test]
fn test_instance_signature_validation() {
    assert!(validate_instance_signature("test123").is_ok());
    assert!(validate_instance_signature("hypr_instance").is_ok());
    assert!(validate_instance_signature("session-1").is_ok());
    assert!(validate_instance_signature("a").is_ok());
    assert!(validate_instance_signature("A1_-test").is_ok());
    assert!(validate_instance_signature("").is_err());
    assert!(validate_instance_signature("../malicious").is_err());
    assert!(validate_instance_signature("test/malicious").is_err());
    assert!(validate_instance_signature("test$malicious").is_err());
    assert!(validate_instance_signature("test malicious").is_err());
    assert!(validate_instance_signature("test\nmalicious").is_err());
    assert!(validate_instance_signature(&"a".repeat(65)).is_err());
}

fn configure(signature: &str) -> Result<HyprlandIPC, IpcConfigError> {
    HyprlandIPC::with_config(Some(signature), Some("/tmp"), DEFAULT_RETRY_MAX, DEFAULT_RETRY_BASE_DELAY_MS)
}

fn message_of(signature: &str) -> String {
    match configure(signature) {
        Ok(_) => String::new(),
        Err(e) => e.message(signature),
    }
}

#[test]
fn test_environment_variable_validation() {
    let result = configure("../malicious");
    assert!(result.is_err(), "Should reject path traversal attempts");
    assert!(message_of("../malicious").contains("unsafe characters"));

    let result = configure("");
    assert!(result.is_err(), "Should reject empty signature");
    assert!(message_of("").contains("empty signature"));

    let result = configure("test/malicious");
    assert!(result.is_err(), "Should reject signature with slash");
    assert!(message_of("test/malicious").contains("unsafe characters"));

    let result = configure("test$malicious");
    assert!(result.is_err(), "Should reject signature with special characters");

    let result = configure(&"a".repeat(65));
    assert!(result.is_err(), "Should reject signature that's too long");

    for valid_sig in &["test123", "hypr_instance", "session-1", "a", "A1_-test"] {
        assert!(configure(valid_sig).is_ok());
    }
}

#[test]
fn signature_errors_tell_empty_from_invalid() {
    assert_eq!(validate_instance_signature(""), Err(SignatureError::Empty));
    assert_eq!(validate_instance_signature("a b"), Err(SignatureError::InvalidFormat));
    assert_eq!(validate_instance_signature(&"a".repeat(64)), Ok(()));
    assert_eq!(validate_instance_signature("é"), Err(SignatureError::InvalidFormat));
    assert_eq!(
        SignatureError::InvalidFormat.message("x/y"),
        "Invalid HYPRLAND_INSTANCE_SIGNATURE: 'x/y' contains unsafe characters or invalid format. Must be alphanumeric with optional underscores/hyphens, 1-64 characters long."
    );
}

#[test]
fn missing_environment_is_reported_in_order() {
    assert_eq!(
        HyprlandIPC::with_config(None, None, 1, 1).unwrap_err(),
        IpcConfigError::SignatureNotSet
    );
    assert_eq!(
        HyprlandIPC::with_config(Some("bad/sig"), None, 1, 1).unwrap_err(),
        IpcConfigError::InvalidSignature(SignatureError::InvalidFormat)
    );
    assert_eq!(
        HyprlandIPC::with_config(Some("good"), None, 1, 1).unwrap_err(),
        IpcConfigError::RuntimeDirNotSet
    );
    assert_eq!(IpcConfigError::RuntimeDirNotSet.message(""), "XDG_RUNTIME_DIR not set");
    assert_eq!(
        IpcConfigError::SignatureNotSet.message(""),
        "HYPRLAND_INSTANCE_SIGNATURE not set"
    );
}

#[test]
fn socket_paths_are_built_under_the_runtime_dir() {
    let ipc = HyprlandIPC::with_config(Some("abc"), Some("/run/user/1000"), 3, 7).unwrap();
    assert_eq!(ipc.socket_path(), "/run/user/1000/hypr/abc/.socket.sock");
    assert_eq!(ipc.event_socket_path(), "/run/user/1000/hypr/abc/.socket2.sock");
    let ipc = HyprlandIPC::with_config(Some("abc"), Some("/tmp/"), 3, 7).unwrap();
    assert_eq!(ipc.socket_path(), "/tmp/hypr/abc/.socket.sock");
    let ipc = HyprlandIPC::with_config(Some("abc"), Some(""), 3, 7).unwrap();
    assert_eq!(ipc.event_socket_path(), "hypr/abc/.socket2.sock");
    let retry = ipc.listen_retry();
    assert_eq!(retry.retry_count, 0);
    assert_eq!(retry.max_retries, 3);
    assert_eq!(retry.base_delay_ms, 7);
}

#[test]
fn commands_render_desktop_ids_in_decimal() {
    assert_eq!(state_command(), "j/printstate");
    assert_eq!(desk_info_command(0), "printdesk 0");
    assert_eq!(desk_info_command(42), "printdesk 42");
    assert_eq!(switch_desk_command(7), "dispatch vdesk 7");
    assert_eq!(switch_desk_command(u32::MAX), "dispatch vdesk 4294967295");
    assert_eq!(switch_desk_command(1000), "dispatch vdesk 1000");
}

#[test]
fn only_vdesk_lines_are_events() {
    assert!(is_vdesk_event("vdesk>>2"));
    assert!(is_vdesk_event("vdesk>>"));
    assert!(!is_vdesk_event("vdesk>"));
    assert!(!is_vdesk_event("workspace>>3"));
    assert!(!is_vdesk_event(" vdesk>>1"));
    assert!(!is_vdesk_event(""));
}

#[test]
fn listener_backs_off_exponentially_then_gives_up() {
    let mut retry = ListenRetry::new(3, 500);
    assert!(retry.can_record_failure());
    assert_eq!(retry.on_failure(), ListenStep::Retry(500));
    assert_eq!(retry.on_failure(), ListenStep::Retry(1000));
    assert_eq!(retry.on_failure(), ListenStep::Retry(2000));
    assert_eq!(retry.on_failure(), ListenStep::GiveUp);
    assert_eq!(retry.retry_count, 4);
}

#[test]
fn listener_delay_is_capped() {
    let mut retry = ListenRetry::new(10, 500);
    let mut last = 0;
    for _ in 0..10 {
        match retry.on_failure() {
            ListenStep::Retry(d) => {
                assert!(d >= last);
                assert!(d <= MAX_DELAY_MS);
                last = d;
            }
            ListenStep::GiveUp => panic!("gave up too early"),
        }
    }
    assert_eq!(last, MAX_DELAY_MS);
    assert_eq!(retry.on_failure(), ListenStep::GiveUp);
}

#[test]
fn listener_overflow_is_detected_before_it_happens() {
    let retry = ListenRetry { retry_count: 64, max_retries: 100, base_delay_ms: 1 };
    assert!(!retry.can_record_failure());
    let retry = ListenRetry { retry_count: 1, max_retries: 100, base_delay_ms: u64::MAX };
    assert!(!retry.can_record_failure());
    let retry = ListenRetry { retry_count: 100, max_retries: 100, base_delay_ms: u64::MAX };
    assert!(retry.can_record_failure());
}

#[test]
fn jitter_stays_within_a_quarter() {
    assert_eq!(apply_jitter(1000, 0), 750);
    assert_eq!(apply_jitter(1000, 500), 1250);
    assert_eq!(apply_jitter(3, 0), 3);
    for _ in 0..100 {
        let d = retry_delay(1000);
        assert!((750..=1250).contains(&d));
    }
    assert_eq!(retry_delay(0), 0);
}

#[test]
fn connection_retries_only_transient_errors() {
    assert!(is_transient_connect_error(Some(11)));
    assert!(is_transient_connect_error(Some(111)));
    assert!(is_transient_connect_error(Some(4)));
    assert!(!is_transient_connect_error(Some(2)));
    assert!(!is_transient_connect_error(None));
    assert_eq!(connect_failure_step(1, Some(111)), ConnectStep::RetryAfter(50));
    assert_eq!(connect_failure_step(2, Some(11)), ConnectStep::RetryAfter(100));
    assert_eq!(connect_failure_step(5, Some(4)), ConnectStep::RetryAfter(800));
    assert_eq!(connect_failure_step(6, Some(111)), ConnectStep::Fail);
    assert_eq!(connect_failure_step(1, Some(2)), ConnectStep::Fail);
    assert_eq!(connect_failure_step(3, None), ConnectStep::Fail);
}

#[test]
fn jitter_is_drawn_at_random() {
    let first = retry_delay(20000);
    let mut differs = false;
    for _ in 0..200 {
        if retry_delay(20000) != first {
            differs = true;
        }
    }
    assert!(differs);
}

#[test]
fn jitter_span_is_half_the_base_delay_rounded_down_to_quarters() {
    assert_eq!(waybar_vdesk::hyprland::jitter_span(1000), 500);
    assert_eq!(waybar_vdesk::hyprland::jitter_span(30000), 15000);
    assert_eq!(waybar_vdesk::hyprland::jitter_span(7), 2);
    assert_eq!(waybar_vdesk::hyprland::jitter_span(3), 0);
}
