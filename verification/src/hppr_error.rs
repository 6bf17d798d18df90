//! Error lines of the HPPR protocol: `FATAL <code> <detail>` and
//! `ERROR <code> <detail>`, and anything else as a connection failure.

use vstd::prelude::*;
use vstd::string::StringExecFns;

use crate::chars::str_chars;
use crate::hppr_coordinate::{lemma_position_of, position_of};
use crate::text::{find_char, has_prefix_at};

verus! {

/// A protocol error reported by an HPPR peer.
#[derive(Clone, Debug)]
pub struct HpprProtocolError {
    pub error_type: String,
    pub detail: String,
    pub fatal: bool,
}

/// The code and detail of the text after the severity: split at the first
/// space, the detail being empty where there is none.
pub open spec fn code_and_detail(rest: Seq<char>) -> (Seq<char>, Seq<char>) {
    let i = position_of(rest, ' ') as int;
    if i < rest.len() {
        (rest.subrange(0, i), rest.subrange(i + 1, rest.len() as int))
    } else {
        (rest, Seq::empty())
    }
}

/// The error that an error line reports, as (type, detail, fatal).
pub open spec fn protocol_error(s: Seq<char>) -> (Seq<char>, Seq<char>, bool) {
    if "FATAL "@.is_prefix_of(s) {
        let (code, detail) = code_and_detail(s.subrange(6, s.len() as int));
        (code, detail, true)
    } else if "ERROR "@.is_prefix_of(s) {
        let (code, detail) = code_and_detail(s.subrange(6, s.len() as int));
        (code, detail, false)
    } else {
        ("CONNECTION"@, s, true)
    }
}

/// Parses an error line into the error it reports.
pub fn parse_error_string(s: &str) -> (r: HpprProtocolError)
    ensures
        (r.error_type@, r.detail@, r.fatal) == protocol_error(s@),
{
    let chars = str_chars(s);
    let n = chars.len();
    let fatal_prefix = vec!['F', 'A', 'T', 'A', 'L', ' '];
    let error_prefix = vec!['E', 'R', 'R', 'O', 'R', ' '];
    proof {
        reveal_strlit("FATAL ");
        reveal_strlit("ERROR ");
        reveal_strlit("CONNECTION");
        assert(fatal_prefix@ =~= "FATAL "@);
        assert(error_prefix@ =~= "ERROR "@);
        assert(chars@.subrange(0, n as int) =~= s@);
    }
    let is_fatal = has_prefix_at(chars.as_slice(), 0, n, fatal_prefix.as_slice());
    let is_error = !is_fatal && has_prefix_at(chars.as_slice(), 0, n, error_prefix.as_slice());
    if is_fatal || is_error {
        let j = find_char(chars.as_slice(), 6, ' ');
        let ghost rest = s@.subrange(6, n as int);
        proof {
            assert forall|i: int| 0 <= i < j - 6 implies rest[i] != ' ' by {
                assert(rest[i] == chars@[6 + i]);
            }
            if j < n {
                assert(rest[j - 6] == chars@[j as int]);
            }
            lemma_position_of(rest, ' ', j - 6);
        }
        let (code, detail) = if j < n {
            proof {
                assert(rest.subrange(0, j - 6) =~= s@.subrange(6, j as int));
                assert(rest.subrange(j - 6 + 1, rest.len() as int) =~= s@.subrange(j + 1, n as int));
            }
            (s.substring_char(6, j).to_owned(), s.substring_char(j + 1, n).to_owned())
        } else {
            proof {
                assert(rest =~= s@.subrange(6, n as int));
            }
            (s.substring_char(6, n).to_owned(), String::new())
        };
        HpprProtocolError { error_type: code, detail, fatal: is_fatal }
    } else {
        HpprProtocolError { error_type: String::from_str("CONNECTION"), detail: s.to_owned(), fatal: true }
    }
}

} // verus!
