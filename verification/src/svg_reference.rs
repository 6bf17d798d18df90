//! Local resource references of SVG presentation attributes and properties:
//! `#id`, `url(#id)` and their quoted forms name an element of the same
//! document by its id.

use vstd::prelude::*;

use crate::chars::str_chars;
use crate::text::{trim, trim_bounds};

verus! {

/// A character that `url(...)` arguments may be wrapped in: a quote or a
/// space.
pub open spec fn is_reference_wrapper(c: char) -> bool {
    c == '\'' || c == '"' || c == ' '
}

/// `s` without leading wrapper characters.
pub open spec fn trim_start_wrappers(s: Seq<char>) -> Seq<char>
    decreases s.len(),
{
    if s.len() > 0 && is_reference_wrapper(s[0]) {
        trim_start_wrappers(s.subrange(1, s.len() as int))
    } else {
        s
    }
}

/// `s` without trailing wrapper characters.
pub open spec fn trim_end_wrappers(s: Seq<char>) -> Seq<char>
    decreases s.len(),
{
    if s.len() > 0 && is_reference_wrapper(s[s.len() - 1]) {
        trim_end_wrappers(s.subrange(0, s.len() - 1))
    } else {
        s
    }
}

/// `s` without leading and trailing quotes and spaces.
pub open spec fn trim_wrappers(s: Seq<char>) -> Seq<char> {
    trim_end_wrappers(trim_start_wrappers(s))
}

/// Whether `s` starts with `#`.
pub open spec fn starts_with_hash(s: Seq<char>) -> bool {
    s.len() > 0 && s[0] == '#'
}

/// Whether `s` has the shape `url(...)`.
pub open spec fn is_url_function(s: Seq<char>) -> bool {
    &&& s.len() >= 5
    &&& s[0] == 'u' && s[1] == 'r' && s[2] == 'l' && s[3] == '('
    &&& s[s.len() - 1] == ')'
}

/// The element id that a reference names, after trimming whitespace:
/// - `#id` names `id` (trimmed);
/// - `url(#id)` names `id` without surrounding quotes and spaces;
/// - `url('#id')` and `url("#id")` name `id`; any other `url(...)` names
///   nothing;
/// - any other text names itself without surrounding quotes and spaces.
pub open spec fn local_reference(raw: Seq<char>) -> Option<Seq<char>> {
    let r = trim(raw);
    if starts_with_hash(r) {
        Some(trim(r.subrange(1, r.len() as int)))
    } else if is_url_function(r) {
        let inner = trim(r.subrange(4, r.len() - 1));
        if starts_with_hash(inner) {
            Some(trim_wrappers(inner.subrange(1, inner.len() as int)))
        } else {
            let unwrapped = trim_wrappers(inner);
            if starts_with_hash(unwrapped) {
                Some(unwrapped.subrange(1, unwrapped.len() as int))
            } else {
                None
            }
        }
    } else {
        Some(trim_wrappers(r))
    }
}

/// The bounds of `s[lo..hi]` with leading and trailing quotes and spaces
/// removed.
fn trim_wrapper_bounds(s: &[char], lo: usize, hi: usize) -> (r: (usize, usize))
    requires
        lo <= hi <= s.len(),
    ensures
        lo <= r.0 <= r.1 <= hi,
        s@.subrange(r.0 as int, r.1 as int) == trim_wrappers(s@.subrange(lo as int, hi as int)),
{
    let mut a = lo;
    while a < hi && (s[a] == '\'' || s[a] == '"' || s[a] == ' ')
        invariant
            lo <= a <= hi <= s.len(),
            trim_start_wrappers(s@.subrange(lo as int, hi as int)) == trim_start_wrappers(
                s@.subrange(a as int, hi as int),
            ),
        decreases hi - a,
    {
        assert(s@.subrange(a as int, hi as int).subrange(1, hi - a) =~= s@.subrange(a + 1, hi as int));
        a = a + 1;
    }
    let mut b = hi;
    while b > a && (s[b - 1] == '\'' || s[b - 1] == '"' || s[b - 1] == ' ')
        invariant
            lo <= a <= b <= hi <= s.len(),
            trim_end_wrappers(s@.subrange(a as int, hi as int)) == trim_end_wrappers(
                s@.subrange(a as int, b as int),
            ),
        decreases b - a,
    {
        assert(s@.subrange(a as int, b as int).subrange(0, b - a - 1) =~= s@.subrange(a as int, b - 1));
        b = b - 1;
    }
    (a, b)
}

/// The element id named by a local reference, as a slice of `raw`; `None`
/// for a `url(...)` whose argument does not start with `#`.
pub fn normalize_local_reference(raw: &str) -> (r: Option<&str>)
    ensures
        match r {
            Some(id) => local_reference(raw@) == Some(id@),
            None => local_reference(raw@) is None,
        },
{
    let s = str_chars(raw);
    let n = s.len();
    let (a, b) = trim_bounds(s.as_slice(), 0, n);
    proof {
        assert(s@.subrange(0, n as int) =~= raw@);
    }
    let ghost r = s@.subrange(a as int, b as int);
    if a < b && s[a] == '#' {
        let (c, d) = trim_bounds(s.as_slice(), a + 1, b);
        proof {
            assert(r.subrange(1, r.len() as int) =~= s@.subrange(a + 1, b as int));
        }
        return Some(raw.substring_char(c, d));
    }
    if b - a >= 5 && s[a] == 'u' && s[a + 1] == 'r' && s[a + 2] == 'l' && s[a + 3] == '(' && s[b - 1] == ')' {
        let (c, d) = trim_bounds(s.as_slice(), a + 4, b - 1);
        proof {
            assert(r.subrange(4, r.len() - 1) =~= s@.subrange(a + 4, b - 1));
        }
        let ghost inner = s@.subrange(c as int, d as int);
        if c < d && s[c] == '#' {
            let (e, f) = trim_wrapper_bounds(s.as_slice(), c + 1, d);
            proof {
                assert(inner.subrange(1, inner.len() as int) =~= s@.subrange(c + 1, d as int));
            }
            return Some(raw.substring_char(e, f));
        }
        let (e, f) = trim_wrapper_bounds(s.as_slice(), c, d);
        if e < f && s[e] == '#' {
            proof {
                let u = s@.subrange(e as int, f as int);
                assert(u.subrange(1, u.len() as int) =~= s@.subrange(e + 1, f as int));
            }
            return Some(raw.substring_char(e + 1, f));
        }
        return None;
    }
    let (c, d) = trim_wrapper_bounds(s.as_slice(), a, b);
    Some(raw.substring_char(c, d))
}

} // verus!
