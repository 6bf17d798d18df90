use havi::hppr_watch_stream::{stream_marker_outcome, watch_stream_line, StreamMarker, WatchLineAction, WatchStreamState};

const OPEN: &str = "\u{22EF}\u{1F5A7}: B\n";

#[test]
fn the_first_line_tells_how_the_request_went() {
    assert_eq!(stream_marker_outcome(OPEN), StreamMarker::Open);
    assert_eq!(stream_marker_outcome("\u{1F5A7}: 0.H3\n"), StreamMarker::NullPacket);
    assert_eq!(stream_marker_outcome("ERROR NOT_FOUND nothing\n"), StreamMarker::ErrorLine("ERROR NOT_FOUND nothing".to_string()));
    assert_eq!(stream_marker_outcome("FATAL AUTH\r\n"), StreamMarker::ErrorLine("FATAL AUTH".to_string()));
    assert_eq!(stream_marker_outcome("  hello \n"), StreamMarker::Unexpected("hello".to_string()));
}

#[test]
fn lines_of_a_blob_are_forwarded_until_it_closes() {
    let (s, a) = watch_stream_line(WatchStreamState::InBlob, Some("//g/app/loc@3\n"));
    assert_eq!((s, a), (WatchStreamState::InBlob, WatchLineAction::Forward("//g/app/loc@3".to_string())));
    let (s, a) = watch_stream_line(WatchStreamState::InBlob, Some("no line feed"));
    assert_eq!((s, a), (WatchStreamState::InBlob, WatchLineAction::Forward("no line feed".to_string())));
    let (s, a) = watch_stream_line(WatchStreamState::InBlob, Some("\u{22EF}\u{1F5A7}: B.abc\n"));
    assert_eq!((s, a), (WatchStreamState::AfterClose, WatchLineAction::Skip));
    let (s, a) = watch_stream_line(s, Some(OPEN));
    assert_eq!((s, a), (WatchStreamState::InBlob, WatchLineAction::Skip));
}

#[test]
fn the_stream_stops_at_its_end_a_fatal_line_or_no_new_blob() {
    assert_eq!(watch_stream_line(WatchStreamState::InBlob, None).1, WatchLineAction::Stop);
    assert_eq!(watch_stream_line(WatchStreamState::InBlob, Some("FATAL gone\n")).1, WatchLineAction::Stop);
    assert_eq!(watch_stream_line(WatchStreamState::AfterClose, Some("event\n")).1, WatchLineAction::Stop);
    assert_eq!(watch_stream_line(WatchStreamState::AfterClose, None).1, WatchLineAction::Stop);
}
