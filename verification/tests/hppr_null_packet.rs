use havi::hppr_null_packet::{
    null_packet_error_message, null_packet_header_line, null_packet_read_length, null_packet_reply_error, HeaderStep,
};

fn length_of(step: HeaderStep) -> (bool, Option<usize>) {
    match step {
        HeaderStep::Continue(n) => (false, n),
        HeaderStep::EndOfHeaders(n) => (true, n),
    }
}

#[test]
fn headers_give_the_data_length_until_a_blank_line() {
    assert_eq!(length_of(null_packet_header_line("Data-Length: 42\n", None)), (false, Some(42)));
    assert_eq!(length_of(null_packet_header_line("  Data-Length: 7 \r\n", Some(42))), (false, Some(7)));
    assert_eq!(length_of(null_packet_header_line("Data-Length: lots\n", Some(3))), (false, Some(3)));
    assert_eq!(length_of(null_packet_header_line("Content-Type: text\n", Some(3))), (false, Some(3)));
    assert_eq!(length_of(null_packet_header_line("\r\n", Some(3))), (true, Some(3)));
    assert_eq!(length_of(null_packet_header_line("   \n", None)), (true, None));
}

#[test]
fn error_data_is_read_up_to_four_kilobytes() {
    assert_eq!(null_packet_read_length(10), 10);
    assert_eq!(null_packet_read_length(4096), 4096);
    assert_eq!(null_packet_read_length(1 << 20), 4096);
}

#[test]
fn the_first_line_is_the_message() {
    assert_eq!(null_packet_error_message(b"ERROR NOT_FOUND no such packet\nmore"), "ERROR NOT_FOUND no such packet");
    assert_eq!(null_packet_error_message(b"FATAL AUTH bad\r\n"), "FATAL AUTH bad");
    assert_eq!(null_packet_error_message(b"oops"), "Server error: oops");
    assert_eq!(null_packet_error_message(b""), "Server error: ");
    assert_eq!(null_packet_error_message(b"bad \xff byte"), "Server error: bad \u{FFFD} byte");
}

#[test]
fn replies_starting_error_or_fatal_are_errors() {
    assert_eq!(null_packet_reply_error(b"ERROR AUTH denied \n"), Some("ERROR AUTH denied".to_string()));
    assert_eq!(null_packet_reply_error(b"FATAL X"), Some("FATAL X".to_string()));
    assert_eq!(null_packet_reply_error(b"ERROR \xff"), Some("invalid error response".to_string()));
    assert_eq!(null_packet_reply_error(b"ERRO"), None);
    assert_eq!(null_packet_reply_error(b"HELLO"), None);
}

#[test]
fn data_length_takes_plain_decimal_numbers_only() {
    assert_eq!(length_of(null_packet_header_line("Data-Length: +12\n", None)), (false, Some(12)));
    assert_eq!(length_of(null_packet_header_line("Data-Length: 007\n", None)), (false, Some(7)));
    assert_eq!(length_of(null_packet_header_line("Data-Length: -1\n", Some(5))), (false, Some(5)));
    assert_eq!(length_of(null_packet_header_line("Data-Length: +\n", Some(5))), (false, Some(5)));
    assert_eq!(length_of(null_packet_header_line("Data-Length: 1_0\n", Some(5))), (false, Some(5)));
    assert_eq!(
        length_of(null_packet_header_line("Data-Length: 99999999999999999999999\n", Some(5))),
        (false, Some(5))
    );
}

#[test]
fn a_bare_carriage_return_stays_in_the_line() {
    assert_eq!(null_packet_error_message(b"oops\rmore"), "Server error: oops\rmore");
    assert_eq!(null_packet_error_message(b"\nsecond"), "Server error: ");
    assert_eq!(null_packet_error_message(b"ERROR X\r"), "ERROR X\r");
}
