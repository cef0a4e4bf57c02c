use herdr::client::attach::{
    attach_input_action, AttachEscapeState, AttachInputAction, FilteredInput,
};
use herdr::client::control::{
    control_line_is_blank, control_step, decode_clipboard_payload, session_frame_payload,
    terminal_control_message, ControlStep, TerminalControlCommand, TerminalControlScrollDirection,
    TerminalControlScrollSource,
};
use herdr::client::drop_path::{
    bracketed_paste_payload, image_path_from_terminal_drop, recognized_image_extension,
    strip_matching_path_quotes, unescape_terminal_drop_path,
};
use herdr::client::error::{ClientError, ErrorContext, FramingError};
use herdr::client::geometry::{
    best_known_cell_size, current_terminal_geometry, host_cell_size_query_required,
    ioctl_cell_size, pack_cell_size, rasterisation_cell_size, reported_cell_size_from_events,
    resize_report_required, unpack_cell_size, HOST_CELL_SIZE_QUERY,
};
use herdr::client::graphics_stream::{
    contains_kitty_graphics_bytes, kitty_graphics_image_ids, write_encoded_frame_with_graphics,
    ReceivedGraphics,
};
use herdr::client::protocol::{
    AttachScrollDirection, AttachScrollSource, ClientKeybindings, ClientLaunchMode, ClientMessage,
    KeyCode, KeyEventKind, MouseEventKind, RawInputEvent, RenderEncoding,
};
use herdr::client::scenes::{
    tray_outcome, AmbientRaster, BackgroundSurface, EncodedPixels, TrayProgress,
};
use herdr::client::screen::{
    restore_steps, setup_steps, should_draw_host_cursor, should_enable_host_color_scheme_reports,
    windows_input_first_step, windows_input_second_step, windows_virtual_terminal_input_mode,
    write_host_color_scheme_report_mode, write_terminal_restore_postlude, HostCursorMode,
    TerminalStep, WindowsInputStep,
};
use herdr::client::session::{
    clipboard_image_message, disconnected, dropped_image, handle_notify, input_message,
    reader_step, should_bridge_clipboard_image_paste, sound_from_notify_message, window_title_osc,
    ClientLoopConfig, ClientState, ClipboardImage, InputStep, LimitedRead, NotifyAction,
    NotifyKind, PasteKeyEvent, ReadOutcome, ReadStep, ReloadedConfig, SceneSurface, ServerMessage,
    ServerStep, Sound,
};
use herdr::client::startup::{
    card_font_override, encoding_cannot_carry_delegated_scenes, handshake_outcome,
    handshake_read_timeout_secs, hello, kitty_graphics_allowed, max_message_size,
    requested_keybindings, requested_render_encoding, session_encoding_error,
    should_query_host_terminal, startup_queries, wants_client_rasterized, DelegatedScenes,
    HandshakeReply, HostQuery,
};
use herdr::kitty_graphics::cell_size::{HostCellSize, WindowSize};
use herdr::kitty_graphics::model::PaneGraphicsFormat;
use herdr::kitty_graphics::terminal::host_terminal_report;
use herdr::layout::Rect;

#[test]
fn an_implausible_reported_cell_is_rasterised_against_the_fallback() {
    assert_eq!(rasterisation_cell_size(3, 7), HostCellSize::fallback());
    assert_eq!(
        rasterisation_cell_size(3, 7),
        HostCellSize {
            width_px: 3,
            height_px: 7
        }
        .plausible_or_unknown(),
        "the client has to use the server's own test, not a second opinion"
    );
}

#[test]
fn a_plausible_reported_cell_is_rasterised_as_reported() {
    assert_eq!(
        rasterisation_cell_size(8, 15),
        HostCellSize {
            width_px: 8,
            height_px: 15
        }
    );
}

#[test]
fn a_client_with_graphics_off_stays_unknown() {
    assert!(!rasterisation_cell_size(0, 0).is_known());
}

#[test]
fn resize_signal_reports_even_when_polled_size_is_unchanged() {
    let size = (120, 40, 8, 16);
    assert!(resize_report_required(true, size, size));
    assert!(!resize_report_required(false, size, size));
    assert!(resize_report_required(false, (120, 41, 8, 16), size));
    assert!(resize_report_required(false, (120, 40, 9, 18), size));
}

#[test]
fn windows_virtual_terminal_input_mode_sets_only_vti_bit() {
    assert_eq!(windows_virtual_terminal_input_mode(0x01f0), 0x03f0);
    assert_eq!(windows_virtual_terminal_input_mode(0x03f0), 0x03f0);
}

#[test]
fn terminal_frame_kitty_detection_matches_apc_prefix() {
    assert!(contains_kitty_graphics_bytes(b"text\x1b_Ga=p;\x1b\\"));
    assert!(!contains_kitty_graphics_bytes(b"text\x1b[?2026h"));
}

#[test]
fn kitty_graphics_image_id_parser_tracks_herdr_ids_only() {
    let ids = kitty_graphics_image_ids(
        b"text\x1b_Ga=t,t=d,f=32,s=1,v=1,i=10023,q=2;AAAA\x1b\\\x1b_Ga=p,i=10023,p=7;\x1b\\",
    );
    assert_eq!(ids, vec![10023, 10023]);
}

#[test]
fn best_known_cell_size_uses_a_plausible_ioctl_when_the_terminal_did_not_answer() {
    assert_eq!(best_known_cell_size(Some((11, 21)), None), (11, 21));
    assert_eq!(
        best_known_cell_size(Some((11, 21)), Some((16, 16))),
        (11, 21)
    );
}

#[test]
fn a_stale_but_plausible_ioctl_loses_to_the_terminals_own_answer() {
    let stale = (8, 16);
    assert!(
        HostCellSize {
            width_px: stale.0,
            height_px: stale.1,
        }
        .is_plausible(),
        "the premise: the stale reading is not one plausibility can refuse"
    );
    assert_eq!(best_known_cell_size(Some(stale), Some((10, 20))), (10, 20));
}

#[test]
fn the_terminal_is_asked_for_its_cell_whenever_graphics_are_on() {
    assert!(host_cell_size_query_required(true));
    assert!(!host_cell_size_query_required(false));
}

#[test]
fn best_known_cell_size_prefers_the_terminals_own_answer_to_an_implausible_ioctl() {
    assert_eq!(best_known_cell_size(Some((3, 7)), Some((11, 21))), (11, 21));
    assert_eq!(best_known_cell_size(None, Some((11, 21))), (11, 21));
}

#[test]
fn best_known_cell_size_falls_back_only_when_nothing_believable_was_measured() {
    assert_eq!(best_known_cell_size(None, None), (8, 16));
    assert_eq!(best_known_cell_size(Some((3, 7)), None), (8, 16));
    assert_eq!(best_known_cell_size(None, Some((16, 16))), (8, 16));
}

#[test]
fn unpack_cell_size_rejects_a_half_reported_cell() {
    assert_eq!(unpack_cell_size(0), None);
    assert_eq!(unpack_cell_size(pack_cell_size(10, 21)), Some((10, 21)));
    assert_eq!(unpack_cell_size(pack_cell_size(10, 0)), None);
    assert_eq!(unpack_cell_size(pack_cell_size(0, 21)), None);
}

#[test]
fn sound_from_notify_message_maps_done() {
    assert_eq!(
        sound_from_notify_message("agent done"),
        Some(Sound::Done)
    );
}

#[test]
fn sound_from_notify_message_maps_attention() {
    assert_eq!(
        sound_from_notify_message("agent attention"),
        Some(Sound::Request)
    );
}

#[test]
fn sound_from_notify_message_rejects_unknown_payloads() {
    assert_eq!(sound_from_notify_message("toast"), None);
}

#[test]
fn decode_clipboard_payload_decodes_base64() {
    assert_eq!(decode_clipboard_payload("dGVzdA=="), Some(b"test".to_vec()));
}

#[test]
fn decode_clipboard_payload_rejects_invalid_base64() {
    assert_eq!(decode_clipboard_payload("not-base64!!!"), None);
}

#[test]
fn window_title_osc_strips_terminators_and_defaults_to_herdr() {
    assert_eq!(
        window_title_osc(Some("herdr\x1b api\u{7}\u{9c}")),
        b"\x1b]0;herdr api\x07"
    );
    assert_eq!(window_title_osc(None), b"\x1b]0;herdr\x07");
}

#[test]
fn geometry_reports_no_pixels_when_graphics_are_off() {
    assert_eq!(current_terminal_geometry(false, None, None, 0), (80, 24, 0, 0));
    assert_eq!(
        current_terminal_geometry(false, Some((100, 30)), None, pack_cell_size(9, 18)),
        (100, 30, 0, 0)
    );
}

#[test]
fn host_cursor_policy_auto_uses_platform_default() {
    for by_default in [false, true] {
        assert_eq!(
            should_draw_host_cursor(HostCursorMode::Auto, by_default),
            by_default
        );
    }
}

#[test]
fn host_cursor_policy_native_and_drawn_override_auto_detection() {
    for by_default in [false, true] {
        assert!(!should_draw_host_cursor(HostCursorMode::Native, by_default));
        assert!(should_draw_host_cursor(HostCursorMode::Drawn, by_default));
    }
}

fn press(matches_paste_key: bool) -> PasteKeyEvent {
    PasteKeyEvent::Key {
        kind: KeyEventKind::Press,
        matches_paste_key,
    }
}

#[test]
fn clipboard_image_paste_bridge_triggers_on_configured_key_and_empty_paste() {
    assert!(should_bridge_clipboard_image_paste(&[0x16], true, true, &[press(true)]));
    assert!(should_bridge_clipboard_image_paste(
        b"\x1b[118;5u",
        true,
        true,
        &[press(true)]
    ));
    assert!(should_bridge_clipboard_image_paste(
        b"\x1b[200~\x1b[201~",
        true,
        false,
        &[PasteKeyEvent::Other]
    ));
    assert!(!should_bridge_clipboard_image_paste(
        b"\x1b[200~\x1b[201~",
        false,
        true,
        &[PasteKeyEvent::Other]
    ));
    assert!(!should_bridge_clipboard_image_paste(
        b"\x1b[200~text\x1b[201~",
        true,
        true,
        &[PasteKeyEvent::Other]
    ));
    assert!(!should_bridge_clipboard_image_paste(&[0x16], true, false, &[press(true)]));
    assert!(!should_bridge_clipboard_image_paste(b"v", true, true, &[press(false)]));
}

#[test]
fn remote_image_file_drop_bridge_reads_bracketed_absolute_image_path() {
    let input = "\x1b[200~/tmp/herdr-client-drop-test-1.PNG\x1b[201~";

    let (path, extension) = image_path_from_terminal_drop(input.as_bytes(), true).unwrap();
    let image = dropped_image(LimitedRead::Complete(b"image-bytes".to_vec()), extension).unwrap();

    assert_eq!(path, "/tmp/herdr-client-drop-test-1.PNG");
    assert_eq!(image.extension, "png");
    assert_eq!(image.bytes, b"image-bytes");
}

#[test]
fn remote_image_file_drop_bridge_reads_plain_quoted_path_with_newline() {
    let input = "'/tmp/herdr-client-drop-test-1.jpeg'\n";

    let (path, extension) = image_path_from_terminal_drop(input.as_bytes(), true).unwrap();
    let image = dropped_image(LimitedRead::Complete(b"jpeg-bytes".to_vec()), extension).unwrap();

    assert_eq!(path, "/tmp/herdr-client-drop-test-1.jpeg");
    assert_eq!(image.extension, "jpg");
    assert_eq!(image.bytes, b"jpeg-bytes");
}

#[test]
fn remote_image_file_drop_bridge_unescapes_spaces_in_paths() {
    let path = "/tmp/herdr-client-drop-space test-1.png";
    let escaped_path = path.replace(' ', "\\ ");

    let (found, extension) = image_path_from_terminal_drop(escaped_path.as_bytes(), true).unwrap();
    let image = dropped_image(LimitedRead::Complete(b"image-bytes".to_vec()), extension).unwrap();

    assert_eq!(found, path);
    assert_eq!(image.extension, "png");
    assert_eq!(image.bytes, b"image-bytes");
}

#[test]
fn remote_image_file_drop_bridge_ignores_non_remote_and_non_image_input() {
    let path = "/tmp/herdr-client-drop-test-1.png";

    assert!(image_path_from_terminal_drop(path.as_bytes(), false).is_none());
    assert!(image_path_from_terminal_drop(b"relative.png\n", true).is_none());
    assert!(image_path_from_terminal_drop(b"/tmp/file.txt\n", true).is_none());
    assert!(image_path_from_terminal_drop(format!("{path}\nextra").as_bytes(), true).is_none());
}

#[test]
fn graphics_bytes_are_written_inside_synchronized_blit_with_saved_cursor() {
    let encoded = b"\x1b[?2026htext\x1b[?2026lcursor";
    let output = write_encoded_frame_with_graphics(encoded, b"graphics", Some(12));

    assert_eq!(
        output,
        b"\x1b[?2026htext\x1b7graphics\x1b8\x1b[?2026lcursor"
    );
}

#[test]
fn empty_graphics_writes_only_blit_frame() {
    let output = write_encoded_frame_with_graphics(b"text", b"", None);

    assert_eq!(output, b"text");
}

#[test]
fn graphics_without_a_synchronized_frame_follow_it() {
    assert_eq!(
        write_encoded_frame_with_graphics(b"text", b"graphics", None),
        b"text\x1b7graphics\x1b8"
    );
}

#[test]
fn kitty_graphics_cleanup_deletes_tracked_images_not_all_images() {
    let mut received = ReceivedGraphics::new();
    received.record(b"\x1b_Ga=t,i=123,q=2;AAAA\x1b\\");
    let output = received.clear_received_kitty_graphics();
    let text = String::from_utf8(output).unwrap();
    assert!(text.contains("a=d,d=I,i=123"));
    assert!(!text.contains("d=A"));
    assert!(received.clear_received_kitty_graphics().is_empty());
}

#[test]
fn every_received_image_is_deleted_once() {
    let mut received = ReceivedGraphics::new();
    received.record(b"\x1b_Ga=t,i=3;AAAA\x1b\\ \x1b_Ga=p,i=4;\x1b\\");
    received.record(b"\x1b_Ga=p,i=3;\x1b\\");
    let text = String::from_utf8(received.clear_received_kitty_graphics()).unwrap();
    let first = "\x1b_Ga=d,d=I,i=3,q=2;\x1b\\";
    let second = "\x1b_Ga=d,d=I,i=4,q=2;\x1b\\";
    assert!(text == format!("{first}{second}") || text == format!("{second}{first}"));
}

#[test]
fn write_host_color_scheme_report_mode_emits_mode_sequences() {
    let (on, off) = ("\x1b[?2031h", "\x1b[?2031l");
    let mut output = write_host_color_scheme_report_mode(true, on, off);
    output.extend(write_host_color_scheme_report_mode(false, on, off));

    let mut expected = Vec::new();
    expected.extend_from_slice(on.as_bytes());
    expected.extend_from_slice(off.as_bytes());
    assert_eq!(output, expected);
}

#[test]
fn host_terminal_theme_query_is_disabled_on_windows() {
    for windows in [false, true] {
        assert_eq!(should_query_host_terminal(windows), !windows);
    }
}

#[test]
fn host_terminal_version_query_is_disabled_on_windows() {
    for windows in [false, true] {
        assert_eq!(
            startup_queries(false, true, windows).contains(&HostQuery::TerminalVersion),
            !windows
        );
    }
}

#[test]
fn write_host_cell_size_query_emits_xtwinops_request() {
    assert_eq!(HOST_CELL_SIZE_QUERY.as_bytes(), b"\x1b[16t");
}

#[test]
fn write_host_terminal_version_query_emits_xtversion_request() {
    assert_eq!(
        herdr::host_terminal_identity::HOST_TERMINAL_VERSION_QUERY_SEQUENCE.as_bytes(),
        b"\x1b[>q"
    );
}

#[test]
fn reported_cell_size_is_taken_from_host_cell_size_events() {
    assert_eq!(reported_cell_size_from_events(&[RawInputEvent::Other]), None);

    let report = |width_px: u32, height_px: u32| RawInputEvent::HostCellSizeReport {
        width_px,
        height_px,
    };
    assert_eq!(
        reported_cell_size_from_events(&[report(10, 21), report(9, 18)]),
        Some((9, 18))
    );
}

#[test]
fn color_scheme_reports_are_enabled_only_for_full_clients() {
    for windows in [false, true] {
        assert_eq!(
            should_enable_host_color_scheme_reports(true, windows),
            !windows
        );
        assert!(!should_enable_host_color_scheme_reports(false, windows));
    }
}

#[test]
fn terminal_restore_postlude_restores_visible_default_cursor() {
    assert_eq!(
        write_terminal_restore_postlude(false, "\x1b[?2031l"),
        b"\x1b[?25h\x1b[0 q"
    );
}

#[test]
fn terminal_restore_postlude_disables_color_scheme_reports_when_enabled() {
    let output = write_terminal_restore_postlude(true, "\x1b[?2031l");

    let mut expected = Vec::new();
    expected.extend_from_slice(b"\x1b[?2031l");
    expected.extend_from_slice(b"\x1b[?25h\x1b[0 q");
    assert_eq!(output, expected);
}

/// Filters typed bytes, of which the terminal made `events`.
fn filter_input(
    escape: &mut AttachEscapeState,
    data: Vec<u8>,
    events: &[RawInputEvent],
    viewport_rows: u16,
    mouse_scroll_lines: usize,
) -> AttachInputAction {
    match escape.filter_input(&data) {
        FilteredInput::Bytes(bytes) => {
            attach_input_action(bytes, events, viewport_rows, mouse_scroll_lines)
        }
        FilteredInput::Detach => AttachInputAction::Detach,
    }
}

fn key(code: KeyCode, modifiers: u8) -> RawInputEvent {
    RawInputEvent::Key {
        code,
        modifiers,
        kind: KeyEventKind::Press,
    }
}

fn mouse(kind: MouseEventKind, column: u16, row: u16) -> RawInputEvent {
    RawInputEvent::Mouse {
        kind,
        column,
        row,
        modifiers: 0,
    }
}

#[test]
fn attach_escape_detaches_on_prefix_q() {
    let mut escape = AttachEscapeState::default();
    assert!(matches!(
        filter_input(&mut escape, vec![0x02], &[], 24, 3),
        AttachInputAction::Nothing
    ));
    assert!(matches!(
        filter_input(&mut escape, vec![b'q'], &[], 24, 3),
        AttachInputAction::Detach
    ));
}

#[test]
fn attach_escape_sends_literal_prefix_on_double_prefix() {
    let mut escape = AttachEscapeState::default();
    assert!(matches!(
        filter_input(&mut escape, vec![0x02], &[], 24, 3),
        AttachInputAction::Nothing
    ));
    match filter_input(&mut escape, vec![0x02], &[key(KeyCode::Other, 0)], 24, 3) {
        AttachInputAction::Forward(bytes) => assert_eq!(bytes, vec![0x02]),
        other => panic!("expected forwarded prefix, got {other:?}"),
    }
}

#[test]
fn attach_escape_forwards_prefix_before_non_escape_key() {
    let mut escape = AttachEscapeState::default();
    assert!(matches!(
        filter_input(&mut escape, vec![b'a', 0x02], &[key(KeyCode::Other, 0)], 24, 3),
        AttachInputAction::Forward(bytes) if bytes == b"a"
    ));
    let events = [key(KeyCode::Other, 0), key(KeyCode::Other, 0)];
    match filter_input(&mut escape, vec![b'x'], &events, 24, 3) {
        AttachInputAction::Forward(bytes) => assert_eq!(bytes, vec![0x02, b'x']),
        other => panic!("expected forwarded bytes, got {other:?}"),
    }
}

#[test]
fn attach_escape_turns_wheel_into_scroll_action() {
    let mut escape = AttachEscapeState::default();
    let events = [mouse(MouseEventKind::ScrollUp, 10, 5)];
    match filter_input(&mut escape, b"\x1b[<64;11;6M".to_vec(), &events, 24, 7) {
        AttachInputAction::Scroll {
            source,
            direction,
            lines,
            column,
            row,
            ..
        } => {
            assert_eq!(source, AttachScrollSource::Wheel);
            assert_eq!(direction, AttachScrollDirection::Up);
            assert_eq!(lines, 7);
            assert_eq!(column, Some(10));
            assert_eq!(row, Some(5));
        }
        other => panic!("expected scroll action, got {other:?}"),
    }
}

#[test]
fn attach_escape_swallows_non_wheel_mouse_reports() {
    let mut escape = AttachEscapeState::default();
    let events = [mouse(MouseEventKind::Other, 10, 5)];
    assert!(matches!(
        filter_input(&mut escape, b"\x1b[<0;11;6M".to_vec(), &events, 24, 7),
        AttachInputAction::Nothing
    ));
}

#[test]
fn attach_escape_turns_plain_page_keys_into_scroll_actions() {
    let mut escape = AttachEscapeState::default();
    let events = [key(KeyCode::PageUp, 0)];
    match filter_input(&mut escape, b"\x1b[5~".to_vec(), &events, 12, 3) {
        AttachInputAction::Scroll {
            source,
            direction,
            lines,
            ..
        } => {
            assert_eq!(
                source,
                AttachScrollSource::PageKey {
                    input: b"\x1b[5~".to_vec()
                }
            );
            assert_eq!(direction, AttachScrollDirection::Up);
            assert_eq!(lines, 11);
        }
        other => panic!("expected page-up scroll action, got {other:?}"),
    }

    let events = [key(KeyCode::PageDown, 0)];
    match filter_input(&mut escape, b"\x1b[6~".to_vec(), &events, 12, 3) {
        AttachInputAction::Scroll {
            source,
            direction,
            lines,
            ..
        } => {
            assert_eq!(
                source,
                AttachScrollSource::PageKey {
                    input: b"\x1b[6~".to_vec()
                }
            );
            assert_eq!(direction, AttachScrollDirection::Down);
            assert_eq!(lines, 11);
        }
        other => panic!("expected page-down scroll action, got {other:?}"),
    }
}

#[test]
fn attach_escape_forwards_modified_page_key() {
    let mut escape = AttachEscapeState::default();
    let events = [key(KeyCode::PageUp, 2)];
    match filter_input(&mut escape, b"\x1b[5;5~".to_vec(), &events, 12, 3) {
        AttachInputAction::Forward(bytes) => assert_eq!(bytes, b"\x1b[5;5~"),
        other => panic!("expected modified page key to forward, got {other:?}"),
    }
}

fn context(reattach: Option<&str>, local: &str) -> ErrorContext {
    ErrorContext {
        socket_path: "/run/herdr.sock".to_string(),
        reattach_command: reattach.map(str::to_string),
        local_attach_command: local.to_string(),
    }
}

fn detached() -> ClientError {
    ClientError::ServerShutdown {
        reason: Some("detached".into()),
    }
}

#[test]
fn client_error_display_connection_failed() {
    let err = ClientError::ConnectionFailed("connection refused".to_string());
    let msg = err.message(&context(None, "herdr"));
    assert!(
        msg.contains("failed to connect to server"),
        "should mention connection failure: {msg}"
    );
    assert!(
        msg.contains("herdr server"),
        "should suggest starting server: {msg}"
    );
}

#[test]
fn client_error_display_handshake_rejected() {
    let err = ClientError::HandshakeRejected {
        version: 1,
        error: "incompatible".into(),
    };
    let msg = err.message(&context(None, "herdr"));
    assert!(
        msg.contains("rejected handshake"),
        "should mention rejection: {msg}"
    );
    assert!(msg.contains("incompatible"), "should include error: {msg}");
}

#[test]
fn client_error_display_server_shutdown() {
    let err = ClientError::ServerShutdown {
        reason: Some("maintenance".into()),
    };
    let msg = err.message(&context(None, "herdr"));
    assert!(
        msg.contains("server shut down"),
        "should mention shutdown: {msg}"
    );
    assert!(msg.contains("maintenance"), "should include reason: {msg}");
    assert!(!err.is_clean_exit());
}

#[test]
fn client_error_display_server_shutdown_no_reason() {
    let err = ClientError::ServerShutdown { reason: None };
    let msg = err.message(&context(None, "herdr"));
    assert!(
        msg.contains("server shut down"),
        "should mention shutdown: {msg}"
    );
}

#[test]
fn client_error_display_detached_default_session_reattach_hint() {
    let msg = detached().message(&context(None, "herdr"));
    assert!(
        msg.contains("Run `herdr` to reattach"),
        "should suggest default reattach command: {msg}"
    );
    assert!(detached().is_clean_exit());
}

#[test]
fn client_error_display_detached_named_session_reattach_hint() {
    let msg = detached().message(&context(None, "herdr session attach work"));
    assert!(
        msg.contains("Run `herdr session attach work` to reattach"),
        "should suggest named session reattach command: {msg}"
    );
}

#[test]
fn client_error_display_detached_remote_reattach_hint_takes_precedence() {
    let msg = detached().message(&context(
        Some("herdr --remote host --session work"),
        "herdr session attach work",
    ));
    assert!(
        msg.contains("Run `herdr --remote host --session work` to reattach"),
        "should prefer remote reattach command: {msg}"
    );
}

#[test]
fn client_error_display_connection_lost() {
    let err = ClientError::ConnectionLost("broken pipe".to_string());
    let msg = err.message(&context(None, "herdr"));
    assert!(
        msg.contains("lost connection to server"),
        "should mention lost connection: {msg}"
    );
}

#[test]
fn client_error_display_remote_connection_lost_has_reattach_hint() {
    let err = ClientError::ConnectionLost("broken pipe".to_string());
    let msg = err.message(&context(Some("herdr --remote host --session work"), "herdr"));
    assert!(
        msg.contains("lost connection to remote Herdr"),
        "should mention remote connection loss: {msg}"
    );
    assert!(
        msg.contains("panes may still be running"),
        "should explain possible persistence: {msg}"
    );
    assert!(
        msg.contains("Run `herdr --remote host --session work` to reattach"),
        "should show remote reattach command: {msg}"
    );
}

#[test]
fn a_client_rasterised_surface_asks_for_an_encoding_that_can_carry_it() {
    let wants = |setting: Option<&str>| wants_client_rasterized(setting, false, false);
    let scenes = |tray: Option<&str>, cards: Option<&str>| DelegatedScenes {
        cards: wants(cards),
        signal_tray: wants(tray),
        background_scene: wants(None),
    };
    assert_eq!(
        requested_render_encoding(None, scenes(None, None)),
        RenderEncoding::SemanticFrame
    );

    for (tray, cards) in [(Some("1"), None), (None, Some("1"))] {
        assert_eq!(
            requested_render_encoding(None, scenes(tray, cards)),
            RenderEncoding::TerminalAnsi,
            "the override left the client on an encoding that drops what it rasterises"
        );
        assert_eq!(
            requested_render_encoding(Some("semantic"), scenes(tray, cards)),
            RenderEncoding::SemanticFrame
        );
    }
}

#[test]
fn reload_local_client_config_refreshes_local_client_presentation_state() {
    let mut state = state(true);
    state.redraw_on_focus_gained = true;
    state.draw_host_cursor = false;

    state.on_reloaded(Some(ReloadedConfig {
        sound_enabled: true,
        redraw_on_focus_gained: false,
        host_cursor: HostCursorMode::Drawn,
        draw_cursor_by_default: false,
    }));

    assert!(!state.redraw_on_focus_gained);
    assert!(state.draw_host_cursor);
}

#[test]
fn toast_notify_from_server_is_emitted_even_when_attach_config_was_off() {
    let action = handle_notify(
        NotifyKind::Toast,
        "pi finished".to_string(),
        Some("workspace 1".to_string()),
        false,
    );
    match action {
        NotifyAction::ShowInTerminal { message, body } => {
            assert_eq!(message, "pi finished");
            assert_eq!(body.as_deref(), Some("workspace 1"));
        }
        other => panic!("expected a toast, got {other:?}"),
    }
}

#[test]
fn system_toast_notify_from_server_uses_system_notifier() {
    let action = handle_notify(
        NotifyKind::SystemToast,
        "pi finished".to_string(),
        Some("workspace 1".to_string()),
        true,
    );
    match action {
        NotifyAction::ShowOnDesktop { message, body } => {
            assert_eq!(message, "pi finished");
            assert_eq!(body.as_deref(), Some("workspace 1"));
        }
        other => panic!("expected a system toast, got {other:?}"),
    }
}

#[test]
fn system_toast_notify_preserves_colon_in_title() {
    let action = handle_notify(
        NotifyKind::SystemToast,
        "build: failed".to_string(),
        Some("api workspace".to_string()),
        true,
    );
    match action {
        NotifyAction::ShowOnDesktop { message, body } => {
            assert_eq!(message, "build: failed");
            assert_eq!(body.as_deref(), Some("api workspace"));
        }
        other => panic!("expected a system toast, got {other:?}"),
    }
}

#[test]
fn terminal_control_input_command_accepts_text() {
    let action = terminal_control_message(TerminalControlCommand::Input {
        text: Some("hello".to_string()),
        bytes: None,
    })
    .unwrap();
    let ClientMessage::Input { data } = action else {
        panic!("expected input command");
    };
    assert_eq!(data, b"hello");
}

#[test]
fn terminal_control_input_command_accepts_base64_bytes() {
    let action = terminal_control_message(TerminalControlCommand::Input {
        text: None,
        bytes: Some("G1tB".to_string()),
    })
    .unwrap();
    let ClientMessage::Input { data } = action else {
        panic!("expected input command");
    };
    assert_eq!(data, b"\x1b[A");
}

#[test]
fn terminal_control_resize_command_maps_to_client_resize() {
    let action = terminal_control_message(TerminalControlCommand::Resize {
        cols: 100,
        rows: 30,
        cell_width_px: 8,
        cell_height_px: 16,
    })
    .unwrap();
    let ClientMessage::Resize {
        cols,
        rows,
        cell_width_px,
        cell_height_px,
    } = action
    else {
        panic!("expected resize command");
    };
    assert_eq!(
        (cols, rows, cell_width_px, cell_height_px),
        (100, 30, 8, 16)
    );
}

fn scroll(lines: u16, source: TerminalControlScrollSource) -> TerminalControlCommand {
    TerminalControlCommand::Scroll {
        direction: TerminalControlScrollDirection::Up,
        lines,
        source,
        column: None,
        row: None,
        modifiers: 0,
    }
}

#[test]
fn terminal_control_scroll_command_maps_to_attach_scroll() {
    let action = terminal_control_message(scroll(3, TerminalControlScrollSource::Wheel)).unwrap();
    let ClientMessage::AttachScroll {
        source,
        direction,
        lines,
        ..
    } = action
    else {
        panic!("expected scroll command");
    };
    assert_eq!(source, AttachScrollSource::Wheel);
    assert_eq!(direction, AttachScrollDirection::Up);
    assert_eq!(lines, 3);
}

#[test]
fn refused_control_commands_say_why() {
    let error = |command: TerminalControlCommand| terminal_control_message(command).unwrap_err();
    assert_eq!(
        error(TerminalControlCommand::Input {
            text: Some(String::new()),
            bytes: Some(String::new())
        }),
        "terminal.input accepts text or bytes, not both"
    );
    assert!(error(TerminalControlCommand::Input {
        text: None,
        bytes: Some("!".to_string())
    })
    .starts_with("invalid terminal.input bytes: "));
    assert_eq!(
        error(TerminalControlCommand::Resize {
            cols: 0,
            rows: 1,
            cell_width_px: 0,
            cell_height_px: 0
        }),
        "terminal.resize cols and rows must be greater than 0"
    );
    assert_eq!(
        error(scroll(0, TerminalControlScrollSource::PageKey)),
        "terminal.scroll lines must be greater than 0"
    );
}

#[test]
fn a_control_line_is_sent_or_complained_about() {
    match control_step(terminal_control_message(TerminalControlCommand::Release)) {
        ControlStep::SendAndStop(message) => assert!(matches!(message, ClientMessage::Detach)),
        other => panic!("expected the last message, got {other:?}"),
    }
    match control_step(terminal_control_message(TerminalControlCommand::Input {
        text: None,
        bytes: None,
    })) {
        ControlStep::Send(ClientMessage::Input { data }) => assert!(data.is_empty()),
        other => panic!("expected input, got {other:?}"),
    }
    assert!(matches!(control_step(Err("no".to_string())), ControlStep::Complain(_)));
    assert!(control_line_is_blank(" \t\n"));
    assert!(!control_line_is_blank(" {"));
    assert_eq!(session_frame_payload(b"test"), "dGVzdA==");
    match control_step(terminal_control_message(scroll(1, TerminalControlScrollSource::PageKey))) {
        ControlStep::Send(ClientMessage::AttachScroll { source, .. }) => assert_eq!(
            source,
            AttachScrollSource::PageKey {
                input: b"\x1b[5~".to_vec()
            }
        ),
        other => panic!("expected a scroll, got {other:?}"),
    }
}

#[test]
fn session_bytes_come_back() {
    let bytes: Vec<u8> = (0..=255).collect();
    assert_eq!(decode_clipboard_payload(&session_frame_payload(&bytes)), Some(bytes));
}

#[test]
fn a_cell_is_divided_out_of_a_window() {
    let window = |columns: u16, rows: u16, width: u16, height: u16| WindowSize {
        columns,
        rows,
        width,
        height,
    };
    assert_eq!(ioctl_cell_size(Some(window(159, 49, 1272, 784))), Some((8, 16)));
    assert_eq!(ioctl_cell_size(Some(window(0, 49, 1272, 784))), None);
    assert_eq!(ioctl_cell_size(Some(window(10, 10, 0, 100))), None);
    assert_eq!(ioctl_cell_size(None), None);
    assert_eq!(
        current_terminal_geometry(true, Some((159, 49)), Some(window(159, 49, 1272, 784)), 0),
        (159, 49, 8, 16)
    );
    assert_eq!(
        current_terminal_geometry(
            true,
            Some((159, 49)),
            Some(window(159, 49, 1272, 784)),
            pack_cell_size(10, 20)
        ),
        (159, 49, 10, 20)
    );
}

fn state(kitty_graphics_enabled: bool) -> ClientState {
    ClientState::new(
        ClientLoopConfig {
            sound_enabled: true,
            mouse_scroll_lines: 3,
            redraw_on_focus_gained: false,
            host_cursor: HostCursorMode::Native,
            draw_cursor_by_default: true,
            kitty_graphics_enabled,
            mouse_capture_active: false,
        },
        false,
        (80, 24, 10, 20),
    )
}

#[test]
fn pending_scenes_are_written_with_the_next_frame() {
    let mut state = state(true);
    state.on_scene_rasterised(SceneSurface::Cards, b"C");
    state.on_scene_rasterised(SceneSurface::SignalTray, b"T");
    state.on_scene_rasterised(SceneSurface::Background, b"B");
    let mut frame = || {
        match state.on_server_message(ServerMessage::Terminal {
            bytes: b"text".to_vec(),
            sync_end: None,
        }) {
            ServerStep::Write(bytes) => String::from_utf8(bytes).unwrap(),
            other => panic!("expected a frame, got {other:?}"),
        }
    };
    let text = frame();
    for part in ["text", "C", "T", "B"] {
        assert_eq!(text.matches(part).count(), 1, "{part} in {text:?}");
    }
    assert_eq!(frame(), "text");
}

#[test]
fn without_graphics_nothing_but_text_is_written() {
    let mut state = state(false);
    state.on_scene_rasterised(SceneSurface::Cards, b"C");
    assert_eq!(state.on_frame_encoded(b"text", b"G", None), b"text");
    match state.on_server_message(ServerMessage::Graphics { bytes: b"G".to_vec() }) {
        ServerStep::Nothing => {}
        other => panic!("expected nothing, got {other:?}"),
    }
}

#[test]
fn a_mode_that_is_on_is_not_asked_for_again() {
    let mut state = state(true);
    assert!(matches!(
        state.on_server_message(ServerMessage::MouseCapture { enabled: true }),
        ServerStep::SetMouseCapture(true)
    ));
    assert!(matches!(
        state.on_server_message(ServerMessage::MouseCapture { enabled: true }),
        ServerStep::Nothing
    ));
    assert!(matches!(
        state.on_server_message(ServerMessage::KittyKeyboardReportAll { enabled: true }),
        ServerStep::SetReportAll(true)
    ));
    assert!(matches!(
        state.on_server_message(ServerMessage::KittyKeyboardReportAll { enabled: true }),
        ServerStep::Nothing
    ));
}

#[test]
fn messages_of_the_server_become_steps() {
    let mut state = state(true);
    match state.on_server_message(ServerMessage::ServerShutdown { reason: Some("x".to_string()) }) {
        ServerStep::Stop(ClientError::ServerShutdown { reason }) => {
            assert_eq!(reason.as_deref(), Some("x"))
        }
        other => panic!("expected a stop, got {other:?}"),
    }
    match state.on_server_message(ServerMessage::Clipboard { data: "dGVzdA==".to_string() }) {
        ServerStep::WriteClipboard(bytes) => assert_eq!(bytes, b"test"),
        other => panic!("expected the clipboard, got {other:?}"),
    }
    assert!(matches!(
        state.on_server_message(ServerMessage::Clipboard { data: "!".to_string() }),
        ServerStep::Nothing
    ));
    assert!(matches!(
        state.on_server_message(ServerMessage::RequestClipboardText { request_id: 7 }),
        ServerStep::AnswerClipboardText { request_id: 7 }
    ));
    assert!(matches!(
        state.on_server_message(ServerMessage::ReloadSoundConfig),
        ServerStep::ReloadConfig
    ));
    assert!(matches!(
        state.on_server_message(ServerMessage::PrefixInputSource { active: true }),
        ServerStep::SwitchInputSource { ascii: true }
    ));
    match state.on_server_message(ServerMessage::WindowTitle { title: None }) {
        ServerStep::Write(bytes) => assert_eq!(bytes, b"\x1b]0;herdr\x07"),
        other => panic!("expected a title, got {other:?}"),
    }
    match state.on_server_message(ServerMessage::Notify {
        kind: NotifyKind::Sound,
        message: "agent done".to_string(),
        body: None,
    }) {
        ServerStep::Notify(NotifyAction::Play(sound)) => assert_eq!(sound, Sound::Done),
        other => panic!("expected a sound, got {other:?}"),
    }
    assert!(matches!(
        state.on_server_message(ServerMessage::Welcome),
        ServerStep::Nothing
    ));
}

#[test]
fn a_resize_is_reported_with_the_new_cell() {
    let mut state = state(true);
    let step = state.on_resize((100, 30, 3, 7));
    match step.message {
        ClientMessage::Resize {
            cols,
            rows,
            cell_width_px,
            cell_height_px,
        } => assert_eq!((cols, rows, cell_width_px, cell_height_px), (100, 30, 3, 7)),
        other => panic!("expected a resize, got {other:?}"),
    }
    assert!(step.query_cell_size);
    assert_eq!(state.reported_size, (100, 30));
    assert_eq!(state.cell_size, HostCellSize::fallback());
}

#[test]
fn a_welcome_without_an_error_opens_the_session() {
    let welcome = |error: Option<&str>| HandshakeReply::Welcome {
        version: 3,
        encoding: RenderEncoding::TerminalAnsi,
        error: error.map(str::to_string),
    };
    assert!(matches!(
        handshake_outcome(welcome(None)),
        Ok(RenderEncoding::TerminalAnsi)
    ));
    match handshake_outcome(welcome(Some("too old"))) {
        Err(ClientError::HandshakeRejected { version, error }) => {
            assert_eq!((version, error.as_str()), (3, "too old"))
        }
        other => panic!("expected a rejection, got {other:?}"),
    }
    assert!(matches!(
        handshake_outcome(HandshakeReply::Other),
        Err(ClientError::Protocol(_))
    ));
}

#[test]
fn restoring_undoes_what_was_set_up() {
    let (steps, flags) = setup_steps(true, true, None, true);
    assert!(!steps.is_empty());
    let back = restore_steps(flags, None, None);
    assert_eq!(back.contains(&TerminalStep::ResetModifyOtherKeys), flags.reset_modify_other_keys);
    assert!(back.contains(&TerminalStep::LeaveScreen));
    assert!(back.contains(&TerminalStep::RestorePostlude {
        reset_host_color_scheme_reports: flags.reset_host_color_scheme_reports
    }));
}

#[test]
fn windows_input_is_put_back_when_it_did_not_take() {
    match windows_input_first_step(Some(0x01f0)) {
        WindowsInputStep::Apply(mode) => assert_eq!(mode, 0x03f0),
        other => panic!("expected a mode, got {other:?}"),
    }
    match windows_input_second_step(0x01f0, true, Some(0x01f0)) {
        WindowsInputStep::PutBack(mode) => assert_eq!(mode, 0x01f0),
        other => panic!("expected the old mode, got {other:?}"),
    }
    match windows_input_second_step(0x01f0, true, Some(0x03f0)) {
        WindowsInputStep::Done(setup) => {
            assert!(setup.active);
            assert_eq!(setup.restore_mode, Some(0x01f0));
        }
        other => panic!("expected a setup, got {other:?}"),
    }
}

#[test]
fn pieces_of_a_dropped_path_are_taken_apart() {
    assert_eq!(
        bracketed_paste_payload(b"\x1b[200~x\x1b[201~"),
        Some(b"x".as_slice())
    );
    assert_eq!(bracketed_paste_payload(b"\x1b[200~\x1b[201~"), Some(b"".as_slice()));
    for data in [
        b"".as_slice(),
        b"x",
        b"\x1b[200~x",
        b"x\x1b[201~",
        b"\x1b[200~x\x1b[201~ ",
        b"\x1b[201~x\x1b[200~",
        b"\x1b[200~",
    ] {
        assert_eq!(bracketed_paste_payload(data), None);
    }
    let chars = |text: &str| text.chars().collect::<Vec<char>>();
    assert_eq!(unescape_terminal_drop_path(&chars("a\\ b")), chars("a b"));
    assert_eq!(strip_matching_path_quotes(&chars("\"a\"")), chars("a").as_slice());
    assert_eq!(strip_matching_path_quotes(&chars("'a\"")), chars("'a\"").as_slice());
    assert_eq!(recognized_image_extension("JPEG"), Some("jpg"));
    assert_eq!(recognized_image_extension("txt"), None);
}

#[test]
fn an_extension_is_what_the_path_says() {
    for path in [
        "/a.png", "/.png", "/a/b.png/c", "/a.b/c.PNG", "/a..png", "/a.png.", "/a/.x.png", "/..png",
        "/a.png/", "/a.png/.", "/a.png/..",
    ] {
        let expected = std::path::Path::new(path)
            .extension()
            .and_then(|extension| extension.to_str())
            .and_then(recognized_image_extension);
        let found = image_path_from_terminal_drop(path.as_bytes(), true).map(|(_, format)| format);
        assert_eq!(found, expected, "{path}");
    }
}

#[test]
fn an_oversized_or_empty_image_is_not_sent() {
    assert!(dropped_image(LimitedRead::Empty, "png").is_none());
    assert!(dropped_image(LimitedRead::Oversized, "png").is_none());
    let image = |len: usize| ClipboardImage {
        bytes: vec![0; len],
        extension: "png".to_string(),
    };
    assert!(clipboard_image_message(image(4), 4).is_some());
    assert!(clipboard_image_message(image(5), 4).is_none());
    assert!(matches!(
        input_message(b"x".to_vec(), Some(image(1))),
        ClientMessage::ClipboardImage { .. }
    ));
    assert!(matches!(input_message(b"x".to_vec(), None), ClientMessage::Input { .. }));
}

#[test]
fn a_reader_stops_at_the_end_and_goes_on_after_a_pause() {
    assert!(matches!(reader_step(ReadOutcome::Message), ReadStep::Deliver));
    assert!(matches!(reader_step(ReadOutcome::WouldBlock), ReadStep::Retry));
    assert!(matches!(reader_step(ReadOutcome::EndOfStream), ReadStep::Disconnect));
    assert!(matches!(reader_step(ReadOutcome::Failed), ReadStep::Disconnect));
    assert!(matches!(disconnected(), ClientError::ConnectionLost(_)));
}

#[test]
fn framing_errors_become_client_errors() {
    assert!(matches!(
        ClientError::from_framing(FramingError::UnexpectedEof),
        ClientError::ConnectionLost(_)
    ));
    assert!(matches!(
        ClientError::from_framing(FramingError::Io("x".to_string())),
        ClientError::ConnectionLost(_)
    ));
    assert!(matches!(
        ClientError::from_framing(FramingError::Malformed("x".to_string())),
        ClientError::Protocol(_)
    ));
}

#[test]
fn a_background_that_did_not_change_keeps_its_layer() {
    let pixels = |fingerprint: u64| EncodedPixels {
        format: PaneGraphicsFormat::Png,
        data: vec![1, 2],
        fingerprint,
    };
    let mut surface = BackgroundSurface::new();
    assert!(surface.pass((80, 24), 10, 20, AmbientRaster::Refused, None).is_none());
    let pass = surface
        .pass((80, 24), 10, 20, AmbientRaster::Accepted(Some(pixels(1))), Some(pixels(2)))
        .expect("a layer");
    assert_eq!(pass.ambient.data_fingerprint, 1);
    assert_eq!(pass.grid, Rect::new(0, 0, 80, 24));
    assert!(pass.effects.is_some());
    let again = surface
        .pass((80, 24), 10, 20, AmbientRaster::Refused, None)
        .expect("the same layer");
    assert_eq!(again.ambient.data_fingerprint, 1);
    assert_eq!(again.ambient.render.z, -2);
    assert!(again.effects.is_none());
    assert!(surface.pass((80, 24), 10, 20, AmbientRaster::Accepted(None), None).is_none());
    assert!(surface.pass((80, 24), 0, 20, AmbientRaster::Refused, None).is_none());
}

#[test]
fn a_tray_is_encoded_only_with_a_layer() {
    for (progress, encode) in [
        (TrayProgress::NotDecoded, false),
        (TrayProgress::Unchanged, false),
        (TrayProgress::Refused, false),
        (TrayProgress::NoLayer, false),
        (TrayProgress::Layer, true),
    ] {
        assert_eq!(tray_outcome(progress).encode, encode);
    }
}

#[test]
fn starting_a_session_follows_its_settings() {
    assert!(!kitty_graphics_allowed(false, false));
    assert!(kitty_graphics_allowed(true, false));
    assert_eq!(card_font_override(""), None);
    assert_eq!(card_font_override("/f.ttf"), Some("/f.ttf".to_string()));
    assert_eq!(max_message_size(false, 1, 2), 1);
    assert_eq!(max_message_size(true, 1, 2), 2);
    assert_eq!(handshake_read_timeout_secs(true, false), 5);
    assert_eq!(handshake_read_timeout_secs(true, true), 60);
    assert!(encoding_cannot_carry_delegated_scenes(
        RenderEncoding::SemanticFrame,
        DelegatedScenes {
            cards: true,
            signal_tray: false,
            background_scene: false
        }
    ));
    assert!(session_encoding_error(RenderEncoding::TerminalAnsi).is_none());
    assert!(session_encoding_error(RenderEncoding::SemanticFrame).is_some());
    assert!(matches!(
        requested_keybindings(None, Some("keys".to_string())),
        ClientKeybindings::Server
    ));
}

#[test]
fn a_greeting_says_who_the_client_is() {
    let message = hello(
        7,
        (80, 24, 9, 18),
        RenderEncoding::TerminalAnsi,
        ClientKeybindings::Server,
        true,
        host_terminal_report(Some("Rio".to_string()), None, false, false, false, false),
        DelegatedScenes {
            cards: true,
            signal_tray: false,
            background_scene: true,
        },
    );
    match message {
        ClientMessage::Hello {
            version,
            cols,
            cell_height_px,
            launch_mode,
            host_terminal,
            wants_client_rasterized_cards,
            wants_client_rasterized_signal_tray,
            ..
        } => {
            assert_eq!((version, cols, cell_height_px), (7, 80, 18));
            assert!(matches!(launch_mode, ClientLaunchMode::TerminalAttach));
            assert_eq!(host_terminal.term_program.as_deref(), Some("Rio"));
            assert!(host_terminal.is_local);
            assert!(wants_client_rasterized_cards);
            assert!(!wants_client_rasterized_signal_tray);
        }
        other => panic!("expected a greeting, got {other:?}"),
    }
}

#[test]
fn typed_input_is_sent_or_detaches() {
    let mut attached = ClientState::new(
        ClientLoopConfig {
            sound_enabled: true,
            mouse_scroll_lines: 3,
            redraw_on_focus_gained: true,
            host_cursor: HostCursorMode::Native,
            draw_cursor_by_default: true,
            kitty_graphics_enabled: true,
            mouse_capture_active: false,
        },
        true,
        (80, 24, 10, 20),
    );
    let input = attached.filter_typed(vec![0x02, b'q']);
    let outcome = attached.on_input(input, &[], false);
    assert!(matches!(
        outcome.step,
        InputStep::SendAndStop(ClientMessage::Detach)
    ));
    assert!(!attached.on_input_events(true));
    assert!(!attached.repaint_pending);
    let mut events_client = state(true);
    assert!(events_client.on_input_events(true));
    assert!(events_client.repaint_pending);
    let report = [RawInputEvent::HostCellSizeReport {
        width_px: 9,
        height_px: 18,
    }];
    let mut full = state(true);
    let input = full.filter_typed(b"x".to_vec());
    let outcome = full.on_input(input, &report, true);
    assert_eq!(outcome.reported_cell_size, Some(pack_cell_size(9, 18)));
    assert!(full.repaint_pending);
    match outcome.step {
        InputStep::Offer(data) => assert_eq!(data, b"x"),
        other => panic!("expected the bytes, got {other:?}"),
    }
}
