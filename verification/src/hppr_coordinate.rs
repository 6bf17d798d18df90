//! Coordinates of HPPR streams: `//group/app/location`, where the location
//! may hold further `/`-separated parts.

use vstd::prelude::*;
use vstd::string::StringExecFns;

use crate::chars::str_chars;
use crate::text::find_char;

verus! {

/// The index of the first `c` in `s`, or the length of `s` when there is
/// none.
pub open spec fn position_of(s: Seq<char>, c: char) -> nat
    decreases s.len(),
{
    if s.len() == 0 {
        0
    } else if s[0] == c {
        0
    } else {
        1 + position_of(s.subrange(1, s.len() as int), c)
    }
}

/// The index that a left-to-right search finds is `position_of`.
pub proof fn lemma_position_of(s: Seq<char>, c: char, j: int)
    requires
        0 <= j <= s.len(),
        forall|i: int| 0 <= i < j ==> s[i] != c,
        j < s.len() ==> s[j] == c,
    ensures
        position_of(s, c) == j,
    decreases s.len(),
{
    if s.len() > 0 && j > 0 {
        lemma_position_of(s.subrange(1, s.len() as int), c, j - 1);
    }
}

/// The coordinate without its leading `//`, where it has one.
pub open spec fn coordinate_path(prefix: Seq<char>) -> Seq<char> {
    if prefix.len() >= 2 && prefix[0] == '/' && prefix[1] == '/' {
        prefix.subrange(2, prefix.len() as int)
    } else {
        prefix
    }
}

/// The group, app and location of a coordinate: the path split at its first
/// two `/`; `None` where the path has fewer than two.
pub open spec fn coordinate_parts(prefix: Seq<char>) -> Option<(Seq<char>, Seq<char>, Seq<char>)> {
    let path = coordinate_path(prefix);
    let i = position_of(path, '/') as int;
    if i == path.len() {
        None
    } else {
        let rest = path.subrange(i + 1, path.len() as int);
        let j = position_of(rest, '/') as int;
        if j == rest.len() {
            None
        } else {
            Some((path.subrange(0, i), rest.subrange(0, j), rest.subrange(j + 1, rest.len() as int)))
        }
    }
}

/// The message of a malformed coordinate.
pub open spec fn invalid_coordinate_message(prefix: Seq<char>) -> Seq<char> {
    "Invalid coordinate prefix: "@ + prefix
}

/// Parses the coordinate prefix into its (group, app, location) components.
///
/// Expected format: `//group/app/location` or `//group/app/location/sub`;
/// the leading `//` may be left out.
pub fn parse_coordinate(prefix: &str) -> (r: Result<(String, String, String), String>)
    ensures
        match r {
            Ok((group, app, location)) => coordinate_parts(prefix@) == Some((group@, app@, location@)),
            Err(message) => coordinate_parts(prefix@) is None && message@ == invalid_coordinate_message(
                prefix@,
            ),
        },
{
    let s = str_chars(prefix);
    let n = s.len();
    let start: usize = if n >= 2 && s[0] == '/' && s[1] == '/' {
        2
    } else {
        0
    };
    let ghost path = s@.subrange(start as int, n as int);
    proof {
        assert(s@.subrange(0, n as int) =~= prefix@);
        assert(path == coordinate_path(prefix@));
    }
    let i = find_char(s.as_slice(), start, '/');
    proof {
        lemma_position_of(path, '/', i - start);
    }
    if i == n {
        let message = String::from_str("Invalid coordinate prefix: ").concat(prefix);
        return Err(message);
    }
    let j = find_char(s.as_slice(), i + 1, '/');
    let ghost rest = path.subrange(i - start + 1, path.len() as int);
    proof {
        assert(rest =~= s@.subrange(i + 1, n as int));
        lemma_position_of(rest, '/', j - i - 1);
    }
    if j == n {
        let message = String::from_str("Invalid coordinate prefix: ").concat(prefix);
        return Err(message);
    }
    proof {
        assert(path.subrange(0, i - start) =~= s@.subrange(start as int, i as int));
        assert(rest.subrange(0, j - i - 1) =~= s@.subrange(i + 1, j as int));
        assert(rest.subrange(j - i, rest.len() as int) =~= s@.subrange(j + 1, n as int));
    }
    let group = prefix.substring_char(start, i).to_owned();
    let app = prefix.substring_char(i + 1, j).to_owned();
    let location = prefix.substring_char(j + 1, n).to_owned();
    Ok((group, app, location))
}

/// `position_of` finds the first occurrence, and only misses a character
/// that does not occur.
pub proof fn lemma_position_of_first(s: Seq<char>, c: char)
    ensures
        position_of(s, c) <= s.len(),
        position_of(s, c) < s.len() ==> s[position_of(s, c) as int] == c,
        forall|i: int| 0 <= i < position_of(s, c) ==> s[i] != c,
    decreases s.len(),
{
    if s.len() > 0 && s[0] != c {
        let t = s.subrange(1, s.len() as int);
        lemma_position_of_first(t, c);
        assert forall|i: int| 0 <= i < position_of(s, c) implies s[i] != c by {
            if i > 0 {
                assert(s[i] == t[i - 1]);
            }
        }
    }
}

/// The parts of a coordinate join back into its path with `/` between
/// them, and the group and app hold no `/`.
pub proof fn lemma_coordinate_parts_rejoin(prefix: Seq<char>)
    ensures
        coordinate_parts(prefix) matches Some((group, app, location)) ==> {
            &&& coordinate_path(prefix) == group + seq!['/'] + app + seq!['/'] + location
            &&& !group.contains('/')
            &&& !app.contains('/')
        },
{
    let path = coordinate_path(prefix);
    lemma_position_of_first(path, '/');
    let i = position_of(path, '/') as int;
    if i < path.len() {
        let rest = path.subrange(i + 1, path.len() as int);
        lemma_position_of_first(rest, '/');
        let j = position_of(rest, '/') as int;
        if j < rest.len() {
            let group = path.subrange(0, i);
            let app = rest.subrange(0, j);
            let location = rest.subrange(j + 1, rest.len() as int);
            assert(rest =~= app + seq!['/'] + location);
            assert(path =~= group + seq!['/'] + rest);
            assert(path =~= group + seq!['/'] + app + seq!['/'] + location);
            assert(!group.contains('/')) by {
                assert forall|k: int| 0 <= k < group.len() implies group[k] != '/' by {
                    assert(group[k] == path[k]);
                }
            }
            assert(!app.contains('/')) by {
                assert forall|k: int| 0 <= k < app.len() implies app[k] != '/' by {
                    assert(app[k] == rest[k]);
                }
            }
        }
    }
}

} // verus!
