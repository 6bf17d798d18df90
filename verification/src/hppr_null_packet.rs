//! What reading the error of a Null packet decides: its `Data-Length`
//! header, how much data is read, and the message made of the data.
use vstd::prelude::*;
use vstd::string::StringExecFns;

use crate::chars::str_chars;
use crate::text::{find_char, has_prefix_at, trim, trim_bounds};

verus! {

/// The most data read of an error packet.
pub const MAX_ERROR_DATA: usize = 4096;

/// Whether the text is one or more ASCII decimal digits.
pub open spec fn all_decimal_digits(d: Seq<char>) -> bool {
    d.len() > 0 && forall|i: int| 0 <= i < d.len() ==> '0' <= #[trigger] d[i] <= '9'
}

/// The value of a text of decimal digits.
pub open spec fn decimal_value(d: Seq<char>) -> int
    decreases d.len(),
{
    if d.len() == 0 {
        0
    } else {
        decimal_value(d.drop_last()) * 10 + (d.last() as int - '0' as int)
    }
}

/// The number that `str::parse::<usize>` reads in a text: an optional `+`
/// followed by decimal digits only, whose value fits in a `usize`; `None`
/// for an empty text, any other character, or a value too large.
pub open spec fn parsed_usize(text: Seq<char>) -> Option<usize> {
    let d = if text.len() > 0 && text[0] == '+' {
        text.drop_first()
    } else {
        text
    };
    if all_decimal_digits(d) && decimal_value(d) <= usize::MAX {
        Some(decimal_value(d) as usize)
    } else {
        None
    }
}

/// The text that `String::from_utf8_lossy` makes of bytes.
pub uninterp spec fn utf8_lossy(bytes: Seq<u8>) -> Seq<char>;

/// The text that `String::from_utf8` reads in bytes, or `None` where they
/// are not UTF-8.
pub uninterp spec fn utf8_strict(bytes: Seq<u8>) -> Option<Seq<char>>;

/// The index of the first `\n` of a text, or its length.
pub open spec fn line_end(text: Seq<char>) -> int
    decreases text.len(),
{
    if text.len() == 0 {
        0
    } else if text[0] == '\n' {
        0
    } else {
        1 + line_end(text.drop_first())
    }
}

/// The first line of a text, as `str::lines` gives it, or the empty text
/// where it gives none: the text up to its first `\n`, without a `\r` just
/// before that `\n`.
pub open spec fn first_line_of(text: Seq<char>) -> Seq<char> {
    let j = line_end(text);
    if j < text.len() && j > 0 && text[j - 1] == '\r' {
        text.subrange(0, j - 1)
    } else {
        text.subrange(0, j)
    }
}

/// `line_end` is the first index where `\n` occurs, or the length.
proof fn lemma_line_end(text: Seq<char>, j: int)
    requires
        0 <= j <= text.len(),
        forall|i: int| 0 <= i < j ==> text[i] != '\n',
        j < text.len() ==> text[j] == '\n',
    ensures
        line_end(text) == j,
    decreases text.len(),
{
    if text.len() > 0 && j > 0 {
        lemma_line_end(text.drop_first(), j - 1);
    }
}

/// `str::parse::<usize>`: the decimal number in the text, as its
/// documentation gives it (see `parsed_usize`).
#[verifier::external_body]
fn parse_usize(text: &str) -> (r: Option<usize>)
    ensures
        r == parsed_usize(text@),
{
    text.parse::<usize>().ok()
}

/// `String::from_utf8_lossy`: the bytes read as UTF-8, each invalid
/// sequence made a replacement character. The contract names the text, a
/// function of the bytes alone.
#[verifier::external_body]
fn decode_lossy(bytes: &[u8]) -> (r: String)
    ensures
        r@ == utf8_lossy(bytes@),
{
    String::from_utf8_lossy(bytes).into_owned()
}

/// `String::from_utf8`: the bytes read as UTF-8, or `None` where they are
/// not UTF-8. The contract names the result, a function of the bytes
/// alone.
#[verifier::external_body]
fn decode_strict(bytes: &[u8]) -> (r: Option<String>)
    ensures
        match r {
            Some(t) => utf8_strict(bytes@) == Some(t@),
            None => utf8_strict(bytes@) is None,
        },
{
    String::from_utf8(bytes.to_vec()).ok()
}

/// The first line of a text (see `first_line_of`), or `""` where the text
/// is empty.
fn first_line(text: &str) -> (r: &str)
    ensures
        r@ == first_line_of(text@),
{
    let s = str_chars(text);
    let n = s.len();
    let j = find_char(s.as_slice(), 0, '\n');
    proof {
        lemma_line_end(text@, j as int);
    }
    let end = if j < n && j > 0 && s[j - 1] == '\r' {
        j - 1
    } else {
        j
    };
    text.substring_char(0, end)
}

/// The header line `Data-Length: ` prefix.
pub open spec fn data_length_prefix() -> Seq<char> {
    "Data-Length: "@
}

/// A header line of a Null packet, as it was read, line end included.
pub enum HeaderStep {
    /// More headers follow; the data length known so far.
    Continue(Option<usize>),
    /// The blank line that ends the headers; the data length.
    EndOfHeaders(Option<usize>),
}

/// What a header line does: a blank line ends the headers; a
/// `Data-Length: ` line with a number sets the data length; other lines
/// leave it.
pub open spec fn header_step(line: Seq<char>, data_length: Option<usize>) -> HeaderStep {
    let t = trim(line);
    if t.len() == 0 {
        HeaderStep::EndOfHeaders(data_length)
    } else if data_length_prefix().is_prefix_of(t) {
        match parsed_usize(t.subrange(data_length_prefix().len() as int, t.len() as int)) {
            Some(n) => HeaderStep::Continue(Some(n)),
            None => HeaderStep::Continue(data_length),
        }
    } else {
        HeaderStep::Continue(data_length)
    }
}

/// What a header line of a Null packet does (see `header_step`).
pub fn null_packet_header_line(line: &str, data_length: Option<usize>) -> (r: HeaderStep)
    ensures
        r == header_step(line@, data_length),
{
    let s = str_chars(line);
    let n = s.len();
    let (a, b) = trim_bounds(s.as_slice(), 0, n);
    proof {
        assert(s@.subrange(0, n as int) =~= line@);
    }
    if a == b {
        return HeaderStep::EndOfHeaders(data_length);
    }
    let prefix = str_chars("Data-Length: ");
    if !has_prefix_at(s.as_slice(), a, b, prefix.as_slice()) {
        return HeaderStep::Continue(data_length);
    }
    let p = prefix.len();
    proof {
        assert(trim(line@).subrange(p as int, trim(line@).len() as int) =~= s@.subrange(a + p, b as int));
    }
    let rest = line.substring_char(a + p, b);
    match parse_usize(rest) {
        Some(v) => HeaderStep::Continue(Some(v)),
        None => HeaderStep::Continue(data_length),
    }
}

/// How much of the data is read: the data length, at most
/// `MAX_ERROR_DATA` bytes.
pub fn null_packet_read_length(data_length: usize) -> (r: usize)
    ensures
        r == if data_length < MAX_ERROR_DATA {
            data_length
        } else {
            MAX_ERROR_DATA
        },
{
    if data_length < MAX_ERROR_DATA {
        data_length
    } else {
        MAX_ERROR_DATA
    }
}

/// The message of an error packet with this data: the first line of the
/// data read as UTF-8, as it is where it starts `ERROR ` or `FATAL `, else
/// after `Server error: `.
pub open spec fn error_message(data: Seq<u8>) -> Seq<char> {
    let line = first_line_of(utf8_lossy(data));
    if "ERROR "@.is_prefix_of(line) || "FATAL "@.is_prefix_of(line) {
        line
    } else {
        "Server error: "@ + line
    }
}

/// The message of an error packet with this data (see `error_message`).
pub fn null_packet_error_message(data: &[u8]) -> (r: String)
    ensures
        r@ == error_message(data@),
{
    let text = decode_lossy(data);
    let line = first_line(text.as_str());
    let s = str_chars(line);
    let n = s.len();
    let error = str_chars("ERROR ");
    let fatal = str_chars("FATAL ");
    proof {
        assert(s@.subrange(0, n as int) =~= line@);
    }
    if has_prefix_at(s.as_slice(), 0, n, error.as_slice()) || has_prefix_at(s.as_slice(), 0, n, fatal.as_slice()) {
        String::from_str(line)
    } else {
        let mut message = String::from_str("Server error: ");
        message.append(line);
        message
    }
}

/// Whether bytes start with the characters of `prefix`, byte for
/// character.
pub open spec fn bytes_start_with(data: Seq<u8>, prefix: Seq<char>) -> bool {
    &&& prefix.len() <= data.len()
    &&& forall|k: int| 0 <= k < prefix.len() ==> data[k] as u32 == #[trigger] prefix[k] as u32
}

/// The error that a Null packet in reply to a request reports, if its data
/// starts `ERROR ` or `FATAL `: the data read as UTF-8 and trimmed, or
/// `invalid error response` where it is not UTF-8.
pub open spec fn reply_error(data: Seq<u8>) -> Option<Seq<char>> {
    if bytes_start_with(data, "ERROR "@) || bytes_start_with(data, "FATAL "@) {
        Some(
            trim(
                match utf8_strict(data) {
                    Some(t) => t,
                    None => "invalid error response"@,
                },
            ),
        )
    } else {
        None
    }
}

/// Whether `data` starts with the characters of `prefix` (see
/// `bytes_start_with`).
fn starts_with_text(data: &[u8], prefix: &str) -> (r: bool)
    ensures
        r == bytes_start_with(data@, prefix@),
{
    let p = str_chars(prefix);
    if p.len() > data.len() {
        return false;
    }
    let mut i: usize = 0;
    while i < p.len()
        invariant
            i <= p.len() <= data@.len(),
            p@ == prefix@,
            forall|k: int| 0 <= k < i ==> data@[k] as u32 == #[trigger] prefix@[k] as u32,
        decreases p.len() - i,
    {
        if data[i] as u32 != p[i] as u32 {
            return false;
        }
        i = i + 1;
    }
    true
}

/// The error a Null reply reports (see `reply_error`).
pub fn null_packet_reply_error(data: &[u8]) -> (r: Option<String>)
    ensures
        match reply_error(data@) {
            Some(m) => r matches Some(t) && t@ == m,
            None => r is None,
        },
{
    if !(starts_with_text(data, "ERROR ") || starts_with_text(data, "FATAL ")) {
        return None;
    }
    let text = match decode_strict(data) {
        Some(t) => t,
        None => String::from_str("invalid error response"),
    };
    let s = str_chars(text.as_str());
    let n = s.len();
    let (a, b) = trim_bounds(s.as_slice(), 0, n);
    proof {
        assert(s@.subrange(0, n as int) =~= text@);
    }
    Some(String::from_str(text.as_str().substring_char(a, b)))
}

} // verus!
