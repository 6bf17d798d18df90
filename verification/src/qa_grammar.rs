//! The JSONqa syntax as mathematics: what the parser reads from a character
//! sequence, and what the formatter writes for a value.

use vstd::prelude::*;

use crate::chars::is_white_space;
use crate::qa_parse::ParseError;
use crate::qa_value::QaTree;

verus! {

/// The characters that a bare string cannot hold unescaped; each of them may
/// follow a backslash.
pub open spec fn is_special(c: char) -> bool {
    ||| c == '{'
    ||| c == '}'
    ||| c == '['
    ||| c == ']'
    ||| c == ','
    ||| c == ':'
    ||| c == '\\'
    ||| c == '"'
    ||| c == '\''
}

/// The characters that end a bare string; a colon ends it only in a key.
pub open spec fn is_bare_stop(c: char, key_mode: bool) -> bool {
    ||| (key_mode && c == ':')
    ||| is_white_space(c)
    ||| c == '{'
    ||| c == '}'
    ||| c == '['
    ||| c == ']'
    ||| c == ','
    ||| c == '"'
    ||| c == '\''
}

/// The character at `p`, if there is one.
pub open spec fn peek_at(s: Seq<char>, p: int) -> Option<char> {
    if 0 <= p < s.len() {
        Some(s[p])
    } else {
        None
    }
}

/// The number of characters from `p` to the end of the input.
pub open spec fn rem(s: Seq<char>, p: int) -> nat {
    if p <= s.len() {
        (s.len() - p) as nat
    } else {
        0
    }
}

/// The length of the run of whitespace that starts at `p`.
pub open spec fn ws_len(s: Seq<char>, p: int) -> nat
    decreases rem(s, p),
{
    if 0 <= p < s.len() && is_white_space(s[p]) {
        1 + ws_len(s, p + 1)
    } else {
        0
    }
}

/// A parsed string with `prefix` put in front and `k` more characters read.
pub open spec fn prepend(prefix: Seq<char>, k: nat, r: Result<(Seq<char>, nat), ParseError>) -> Result<
    (Seq<char>, nat),
    ParseError,
> {
    match r {
        Ok((t, n)) => Ok((prefix + t, k + n)),
        Err(e) => Err(e),
    }
}

/// A bare (unquoted) string starting at `p`: the string read and the number
/// of characters read.
pub open spec fn bare_spec(s: Seq<char>, p: int, key_mode: bool) -> Result<(Seq<char>, nat), ParseError>
    decreases rem(s, p),
{
    match peek_at(s, p) {
        None => Ok((Seq::empty(), 0)),
        Some(c) => {
            if c == '\\' {
                match peek_at(s, p + 1) {
                    Some(e) => {
                        if is_special(e) {
                            prepend(seq![e], 2, bare_spec(s, p + 2, key_mode))
                        } else {
                            Err(ParseError::InvalidEscape)
                        }
                    },
                    None => Err(ParseError::InvalidEscape),
                }
            } else if is_bare_stop(c, key_mode) {
                Ok((Seq::empty(), 0))
            } else {
                prepend(seq![c], 1, bare_spec(s, p + 1, key_mode))
            }
        },
    }
}

/// The body of a quoted string starting at `p` (just after the opening
/// quote): the string read and the number of characters read, closing quote
/// included.
pub open spec fn quoted_spec(s: Seq<char>, p: int, quote: char) -> Result<(Seq<char>, nat), ParseError>
    decreases rem(s, p),
{
    match peek_at(s, p) {
        None => Err(ParseError::UnterminatedString),
        Some(c) => {
            if c == quote {
                Ok((Seq::empty(), 1))
            } else if c == '\\' {
                match peek_at(s, p + 1) {
                    Some(e) => {
                        if is_special(e) {
                            prepend(seq![e], 2, quoted_spec(s, p + 2, quote))
                        } else {
                            Err(ParseError::InvalidEscape)
                        }
                    },
                    None => Err(ParseError::InvalidEscape),
                }
            } else {
                prepend(seq![c], 1, quoted_spec(s, p + 1, quote))
            }
        },
    }
}

/// A key or string value starting at `p`, after optional whitespace.
pub open spec fn string_spec(s: Seq<char>, p: int, key_mode: bool) -> Result<(Seq<char>, nat), ParseError> {
    let w = ws_len(s, p);
    let p1 = p + w;
    match peek_at(s, p1) {
        None => Err(ParseError::UnexpectedEof),
        Some(c) => {
            if c == '"' || c == '\'' {
                prepend(Seq::empty(), w + 1, quoted_spec(s, p1 + 1, c))
            } else {
                prepend(Seq::empty(), w, bare_spec(s, p1, key_mode))
            }
        },
    }
}

/// The entries `m` with `k` bound to `v`: a key already present keeps its
/// place and takes the new value; a new key goes at the end.
pub open spec fn entries_insert(m: Seq<(Seq<char>, QaTree)>, k: Seq<char>, v: QaTree) -> Seq<
    (Seq<char>, QaTree),
> {
    let i = key_index(m, k);
    if i >= 0 {
        m.update(i, (k, v))
    } else {
        m.push((k, v))
    }
}

/// The first place of key `k` in `m`, or -1 when it is absent.
pub open spec fn key_index(m: Seq<(Seq<char>, QaTree)>, k: Seq<char>) -> int
    decreases m.len(),
{
    if m.len() == 0 {
        -1
    } else if m[0].0 == k {
        0
    } else {
        let r = key_index(m.subrange(1, m.len() as int), k);
        if r < 0 {
            -1
        } else {
            r + 1
        }
    }
}

/// A value starting at `p`: the value read and the number of characters read.
pub open spec fn value_spec(s: Seq<char>, p: int) -> Result<(QaTree, nat), ParseError>
    decreases rem(s, p), 1nat,
{
    let w = ws_len(s, p);
    let p1 = p + w;
    match peek_at(s, p1) {
        None => Err(ParseError::UnexpectedEof),
        Some(c) => {
            if c == '[' {
                shift(array_spec(s, p1), w)
            } else if c == '{' {
                shift(object_spec(s, p1), w)
            } else {
                match string_spec(s, p1, false) {
                    Ok((t, n)) => Ok((QaTree::Str(t), w + n)),
                    Err(e) => Err(e),
                }
            }
        },
    }
}

/// The grammar's result with `k` more characters read.
pub open spec fn shift<T>(r: Result<(T, nat), ParseError>, k: nat) -> Result<(T, nat), ParseError> {
    match r {
        Ok((t, n)) => Ok((t, k + n)),
        Err(e) => Err(e),
    }
}

/// An array whose opening bracket is at `p`.
pub open spec fn array_spec(s: Seq<char>, p: int) -> Result<(QaTree, nat), ParseError>
    decreases rem(s, p), 0nat,
{
    if 0 <= p < s.len() {
        let w2 = ws_len(s, p + 1);
        let p2 = p + 1 + w2;
        if peek_at(s, p2) == Some(']') {
            Ok((QaTree::Arr(Seq::empty()), 1 + w2 + 1))
        } else {
            match items_spec(s, p2) {
                Err(e) => Err(e),
                Ok((items, n)) => {
                    if peek_at(s, p2 + n) == Some(']') {
                        Ok((QaTree::Arr(items), 1 + w2 + n + 1))
                    } else {
                        Err(ParseError::ExpectedCloseBracket)
                    }
                },
            }
        }
    } else {
        Err(ParseError::UnexpectedEof)
    }
}

/// An object whose opening brace is at `p`.
pub open spec fn object_spec(s: Seq<char>, p: int) -> Result<(QaTree, nat), ParseError>
    decreases rem(s, p), 0nat,
{
    if 0 <= p < s.len() {
        let w2 = ws_len(s, p + 1);
        let p2 = p + 1 + w2;
        match pairs_spec(s, p2) {
            Err(e) => Err(e),
            Ok((m, n)) => {
                let w3 = ws_len(s, p2 + n);
                if peek_at(s, p2 + n + w3) == Some('}') {
                    Ok((QaTree::Obj(m), 1 + w2 + n + w3 + 1))
                } else {
                    Err(ParseError::ExpectedCloseBrace)
                }
            },
        }
    } else {
        Err(ParseError::UnexpectedEof)
    }
}

/// The items of a non-empty array starting at `p`: the items read and the
/// number of characters read up to the closing bracket.
pub open spec fn items_spec(s: Seq<char>, p: int) -> Result<(Seq<QaTree>, nat), ParseError>
    decreases rem(s, p), 2nat,
{
    match value_spec(s, p) {
        Err(e) => Err(e),
        Ok((v, n)) => {
            let w = ws_len(s, p + n);
            let q1 = p + n + w;
            match peek_at(s, q1) {
                None => Err(ParseError::ExpectedCloseBracket),
                Some(c) => {
                    if c == ',' {
                        let w2 = ws_len(s, q1 + 1);
                        let q2 = q1 + 1 + w2;
                        if peek_at(s, q2) == Some(']') {
                            Ok((seq![v], n + w + 1 + w2))
                        } else {
                            match items_spec(s, q2) {
                                Ok((rest, m)) => Ok((seq![v] + rest, n + w + 1 + w2 + m)),
                                Err(e) => Err(e),
                            }
                        }
                    } else if c == ']' {
                        Ok((seq![v], n + w))
                    } else {
                        Err(ParseError::UnexpectedChar(c))
                    }
                },
            }
        },
    }
}

/// One `key` or `key:value` entry starting at `p`.
pub open spec fn pair_spec(s: Seq<char>, p: int) -> Result<((Seq<char>, QaTree), nat), ParseError>
    decreases rem(s, p), 0nat,
{
    let w = ws_len(s, p);
    let p1 = p + w;
    match string_spec(s, p1, true) {
        Err(e) => Err(e),
        Ok((k, n)) => {
            let w2 = ws_len(s, p1 + n);
            let q1 = p1 + n + w2;
            if peek_at(s, q1) == Some(':') {
                let w3 = ws_len(s, q1 + 1);
                let q2 = q1 + 1 + w3;
                match value_spec(s, q2) {
                    Ok((v, m)) => Ok(((k, v), w + n + w2 + 1 + w3 + m)),
                    Err(e) => Err(e),
                }
            } else {
                Ok(((k, QaTree::Str(Seq::empty())), w + n + w2))
            }
        },
    }
}

/// The entries from `p` on, bound into `acc` one after another: the entries
/// and the number of characters read up to the closing brace or bracket.
pub open spec fn pairs_loop_spec(s: Seq<char>, p: int, acc: Seq<(Seq<char>, QaTree)>) -> Result<
    (Seq<(Seq<char>, QaTree)>, nat),
    ParseError,
>
    decreases rem(s, p), 1nat,
{
    match pair_spec(s, p) {
        Err(e) => Err(e),
        Ok((kv, n)) => {
            let acc2 = entries_insert(acc, kv.0, kv.1);
            let w = ws_len(s, p + n);
            let q1 = p + n + w;
            match peek_at(s, q1) {
                None => Ok((acc2, n + w)),
                Some(c) => {
                    if c == ',' {
                        let w2 = ws_len(s, q1 + 1);
                        let q2 = q1 + 1 + w2;
                        if peek_at(s, q2) == Some('}') {
                            Ok((acc2, n + w + 1 + w2))
                        } else {
                            match pairs_loop_spec(s, q2, acc2) {
                                Ok((m, k)) => Ok((m, n + w + 1 + w2 + k)),
                                Err(e) => Err(e),
                            }
                        }
                    } else if c == '}' || c == ']' {
                        Ok((acc2, n + w))
                    } else {
                        Err(ParseError::UnexpectedChar(c))
                    }
                },
            }
        },
    }
}

/// The entries of an object body starting at `p`.
pub open spec fn pairs_spec(s: Seq<char>, p: int) -> Result<(Seq<(Seq<char>, QaTree)>, nat), ParseError>
    decreases rem(s, p), 2nat,
{
    let w = ws_len(s, p);
    if peek_at(s, p + w) == Some('}') {
        Ok((Seq::empty(), w))
    } else {
        match pairs_loop_spec(s, p + w, Seq::empty()) {
            Ok((m, n)) => Ok((m, w + n)),
            Err(e) => Err(e),
        }
    }
}

/// What `Qa::parse` gives for an input: its entries, or the error.
pub open spec fn qa_spec(s: Seq<char>) -> Result<Seq<(Seq<char>, QaTree)>, ParseError> {
    let w: int = ws_len(s, 0) as int;
    match peek_at(s, w) {
        None => Err(ParseError::UnexpectedEof),
        Some(c) => {
            if c == '{' {
                match pairs_spec(s, w + 1) {
                    Err(e) => Err(e),
                    Ok((m, n)) => {
                        let p2: int = w + 1 + n;
                        if peek_at(s, p2 + ws_len(s, p2)) == Some('}') {
                            Ok(m)
                        } else {
                            Err(ParseError::ExpectedCloseBrace)
                        }
                    },
                }
            } else {
                Err(ParseError::ExpectedOpenBrace)
            }
        },
    }
}

} // verus!

verus! {

/// Putting two prefixes in front one after the other puts their
/// concatenation in front.
pub proof fn lemma_prepend_prepend(
    a: Seq<char>,
    i: nat,
    b: Seq<char>,
    j: nat,
    r: Result<(Seq<char>, nat), ParseError>,
)
    ensures
        prepend(a, i, prepend(b, j, r)) == prepend(a + b, i + j, r),
{
    match r {
        Ok((t, n)) => {
            assert(a + (b + t) =~= (a + b) + t);
        },
        Err(_) => {},
    }
}

/// `key_index` finds the first entry with the key, and only misses a key
/// that no entry has.
pub proof fn lemma_key_index(m: Seq<(Seq<char>, QaTree)>, k: Seq<char>)
    ensures
        -1 <= key_index(m, k) < m.len(),
        key_index(m, k) >= 0 ==> m[key_index(m, k)].0 == k,
        forall|j: int| 0 <= j < m.len() && (key_index(m, k) < 0 || j < key_index(m, k)) ==> #[trigger] m[j].0 != k,
    decreases m.len(),
{
    if m.len() > 0 && m[0].0 != k {
        let t = m.subrange(1, m.len() as int);
        lemma_key_index(t, k);
        assert forall|j: int| 0 <= j < m.len() && (key_index(m, k) < 0 || j < key_index(m, k)) implies #[trigger] m[j].0 != k by {
            if j > 0 {
                assert(m[j] == t[j - 1]);
            }
        }
    }
}

} // verus!

verus! {

/// Whether a string must be written in quotes: it is empty, or holds
/// whitespace or a special character.
pub open spec fn needs_quoting_spec(s: Seq<char>) -> bool {
    s.len() == 0 || exists|i: int| 0 <= i < s.len() && (is_white_space(#[trigger] s[i]) || is_special(s[i]))
}

/// A character as written inside double quotes.
pub open spec fn escape_char(c: char) -> Seq<char> {
    if c == '"' {
        seq!['\\', '"']
    } else if c == '\\' {
        seq!['\\', '\\']
    } else {
        seq![c]
    }
}

/// A string as written inside double quotes.
pub open spec fn escape(s: Seq<char>) -> Seq<char>
    decreases s.len(),
{
    if s.len() == 0 {
        Seq::empty()
    } else {
        escape_char(s[0]) + escape(s.subrange(1, s.len() as int))
    }
}

/// A string as written: bare when it can be, else in double quotes.
pub open spec fn fmt_string(s: Seq<char>) -> Seq<char> {
    if needs_quoting_spec(s) {
        seq!['"'] + escape(s) + seq!['"']
    } else {
        s
    }
}

/// A value as written.
pub open spec fn fmt_value(v: QaTree) -> Seq<char>
    decreases v,
{
    match v {
        QaTree::Str(s) => fmt_string(s),
        QaTree::Arr(items) => seq!['['] + fmt_items(items) + seq![']'],
        QaTree::Obj(m) => seq!['{'] + fmt_entries(m) + seq!['}'],
    }
}

/// Values as written, separated by commas.
pub open spec fn fmt_items(items: Seq<QaTree>) -> Seq<char>
    decreases items,
{
    if items.len() == 0 {
        Seq::empty()
    } else if items.len() == 1 {
        fmt_value(items[0])
    } else {
        fmt_value(items[0]) + seq![','] + fmt_items(items.subrange(1, items.len() as int))
    }
}

/// Entries of a nested object as written, `key:value` separated by commas.
pub open spec fn fmt_entries(m: Seq<(Seq<char>, QaTree)>) -> Seq<char>
    decreases m,
{
    if m.len() == 0 {
        Seq::empty()
    } else if m.len() == 1 {
        fmt_string(m[0].0) + seq![':'] + fmt_value(m[0].1)
    } else {
        fmt_string(m[0].0) + seq![':'] + fmt_value(m[0].1) + seq![','] + fmt_entries(
            m.subrange(1, m.len() as int),
        )
    }
}

/// Whether a value is the empty string, which a top-level entry writes as a
/// bare key.
pub open spec fn is_empty_string(v: QaTree) -> bool {
    v is Str && v->Str_0.len() == 0
}

/// One top-level entry as written: `key`, or `key:value`.
pub open spec fn fmt_top_entry(k: Seq<char>, v: QaTree) -> Seq<char> {
    if is_empty_string(v) {
        fmt_string(k)
    } else {
        fmt_string(k) + seq![':'] + fmt_value(v)
    }
}

/// Top-level entries as written, separated by commas.
pub open spec fn fmt_top_entries(m: Seq<(Seq<char>, QaTree)>) -> Seq<char>
    decreases m.len(),
{
    if m.len() == 0 {
        Seq::empty()
    } else if m.len() == 1 {
        fmt_top_entry(m[0].0, m[0].1)
    } else {
        fmt_top_entry(m[0].0, m[0].1) + seq![','] + fmt_top_entries(m.subrange(1, m.len() as int))
    }
}

/// A whole JSONqa text as written.
pub open spec fn fmt_qa(m: Seq<(Seq<char>, QaTree)>) -> Seq<char> {
    seq!['{'] + fmt_top_entries(m) + seq!['}']
}

} // verus!
