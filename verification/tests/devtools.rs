use havi::devtools_screenshot::{capture_answered, screenshot_request, CaptureOutcome, ScreenshotActorError, ScreenshotReply, ScreenshotStep};
use havi::devtools_watch::{
    get_mode_answered, is_valid_mode, set_mode_answered, watch_request, ModeParameter, WatchActorError, WatchReply,
    WatchStep,
};

fn mode_of(reply: &WatchReply) -> Option<&str> {
    match reply {
        WatchReply::Mode(m) => Some(m.as_str()),
        WatchReply::Error(_) => None,
    }
}

fn error_of(reply: &WatchReply) -> Option<&str> {
    match reply {
        WatchReply::Error(e) => Some(e.as_str()),
        WatchReply::Mode(_) => None,
    }
}

#[test]
fn watch_modes() {
    for mode in ["off", "notify", "auto", "dev"] {
        assert!(is_valid_mode(mode));
    }
    assert!(!is_valid_mode("Off"));
    assert!(!is_valid_mode(""));
}

#[test]
fn watch_requests_dispatch_by_type() {
    assert!(matches!(watch_request("getMode", ModeParameter::Missing), WatchStep::QueryMode));
    assert!(matches!(
        watch_request("setMode", ModeParameter::Missing),
        WatchStep::Fail(WatchActorError::MissingParameter)
    ));
    assert!(matches!(
        watch_request("setMode", ModeParameter::NotAString),
        WatchStep::Fail(WatchActorError::BadParameterType)
    ));
    match watch_request("setMode", ModeParameter::Text("auto".to_string())) {
        WatchStep::SetMode(m) => assert_eq!(m, "auto"),
        other => panic!("unexpected step {other:?}"),
    }
    match watch_request("setMode", ModeParameter::Text("turbo".to_string())) {
        WatchStep::Reply(reply) => assert_eq!(error_of(&reply), Some("invalid mode")),
        other => panic!("unexpected step {other:?}"),
    }
    assert!(matches!(
        watch_request("reload", ModeParameter::Missing),
        WatchStep::Fail(WatchActorError::UnrecognizedPacketType)
    ));
}

#[test]
fn watch_answers_update_cache() {
    let (cache, reply) = get_mode_answered(Some("dev".to_string()), Some("notify".to_string()));
    assert_eq!(cache.as_deref(), Some("notify"));
    assert_eq!(mode_of(&reply), Some("notify"));
    let (cache, reply) = get_mode_answered(Some("dev".to_string()), None);
    assert_eq!(cache, None);
    assert_eq!(mode_of(&reply), Some("dev"));
    let (_, reply) = get_mode_answered(None, None);
    assert_eq!(mode_of(&reply), Some("off"));
    let (cache, reply) = set_mode_answered(Some("auto".to_string()));
    assert_eq!(cache.as_deref(), Some("auto"));
    assert_eq!(mode_of(&reply), Some("auto"));
    let (cache, reply) = set_mode_answered(None);
    assert_eq!(cache, None);
    assert_eq!(error_of(&reply), Some("watch timeout"));
}

#[test]
fn screenshot_capture_needs_an_active_webview() {
    match screenshot_request("capture", Some(7u32)) {
        ScreenshotStep::Capture(w) => assert_eq!(w, 7),
        other => panic!("unexpected step: {other:?}"),
    }
    match screenshot_request::<u32>("capture", None) {
        ScreenshotStep::Reply(ScreenshotReply::Error(m)) => assert_eq!(m, "no active webview"),
        other => panic!("unexpected step: {other:?}"),
    }
    match screenshot_request("zoom", Some(7u32)) {
        ScreenshotStep::Fail(e) => assert_eq!(e, ScreenshotActorError::UnrecognizedPacketType),
        other => panic!("unexpected step: {other:?}"),
    }
}

#[test]
fn screenshot_capture_is_sent_as_base64_png() {
    let rgba = vec![255u8, 0, 0, 255, 0, 255, 0, 255];
    match capture_answered(CaptureOutcome::Captured { rgba, width: 2, height: 1 }) {
        Ok(ScreenshotReply::Image { data, width, height }) => {
            assert_eq!((width, height), (2, 1));
            assert!(data.starts_with("iVBORw0KGgo"));
            assert_eq!(data.len() % 4, 0);
        },
        other => panic!("unexpected reply: {other:?}"),
    }
}

#[test]
fn screenshot_errors_and_timeouts_are_replied() {
    match capture_answered(CaptureOutcome::Failed("NoWebView".to_string())) {
        Ok(ScreenshotReply::Error(m)) => assert_eq!(m, "NoWebView"),
        other => panic!("unexpected reply: {other:?}"),
    }
    match capture_answered(CaptureOutcome::TimedOut) {
        Ok(ScreenshotReply::Error(m)) => assert_eq!(m, "screenshot timeout"),
        other => panic!("unexpected reply: {other:?}"),
    }
}
