//! The JSONqa parser.

use vstd::prelude::*;
use vstd::std_specs::iter::IteratorSpec;

use crate::chars::{char_is_whitespace, str_chars, string_from_chars};
use crate::qa_format::{write_string, write_value};
use crate::qa_laws::{lemma_parse_well_formed, wf_entries};
use crate::qa_grammar::{
    bare_spec, entries_insert, is_special, items_spec, key_index, lemma_key_index,
    lemma_prepend_prepend, pair_spec, pairs_loop_spec, pairs_spec, peek_at, prepend, qa_spec,
    quoted_spec, string_spec, value_spec, ws_len, shift, array_spec, object_spec, fmt_qa,
    fmt_top_entries, fmt_top_entry, is_empty_string,
};
use crate::qa_value::{
    entries_tree, items_tree, lemma_entries_tree, lemma_entries_tree_push,
    lemma_entries_tree_update, lemma_items_tree_push, value_tree, QaTree, QaValue,
};

verus! {

/// Parse errors for JSONqa.
#[derive(Debug, PartialEq, Eq)]
pub enum ParseError {
    UnexpectedEof,
    ExpectedOpenBrace,
    ExpectedCloseBrace,
    ExpectedCloseBracket,
    UnterminatedString,
    InvalidEscape,
    UnexpectedChar(char),
}

/// Whether `c` may follow a backslash (and needs one in a bare string).
pub(crate) fn is_special_char(c: char) -> (r: bool)
    ensures
        r == is_special(c),
{
    c == '{' || c == '}' || c == '[' || c == ']' || c == ',' || c == ':' || c == '\\' || c == '"'
        || c == '\''
}

/// A string result read from `p0` to `p1` agrees with the grammar's `spec`.
pub open spec fn string_read(
    r: Result<String, ParseError>,
    spec: Result<(Seq<char>, nat), ParseError>,
    p0: int,
    p1: int,
) -> bool {
    match r {
        Ok(t) => p0 <= p1 && spec == Ok::<(Seq<char>, nat), ParseError>((t@, (p1 - p0) as nat)),
        Err(e) => spec == Err::<(Seq<char>, nat), ParseError>(e),
    }
}

/// A value result read from `p0` to `p1` agrees with the grammar's `spec`.
pub open spec fn value_read(
    r: Result<QaValue, ParseError>,
    spec: Result<(QaTree, nat), ParseError>,
    p0: int,
    p1: int,
) -> bool {
    match r {
        Ok(v) => p0 <= p1 && spec == Ok::<(QaTree, nat), ParseError>((v@, (p1 - p0) as nat)),
        Err(e) => spec == Err::<(QaTree, nat), ParseError>(e),
    }
}

/// The grammar's items with `pre` put in front and `k` more characters read.
pub open spec fn items_prepend(
    pre: Seq<QaTree>,
    k: nat,
    r: Result<(Seq<QaTree>, nat), ParseError>,
) -> Result<(Seq<QaTree>, nat), ParseError> {
    match r {
        Ok((t, n)) => Ok((pre + t, k + n)),
        Err(e) => Err(e),
    }
}

/// The empty sequence is a left unit of concatenation.
proof fn lemma_empty_concat()
    ensures
        forall|t: Seq<char>| #[trigger] (Seq::<char>::empty() + t) == t,
{
    assert forall|t: Seq<char>| #[trigger] (Seq::<char>::empty() + t) == t by {
        assert(Seq::<char>::empty() + t =~= t);
    }
}

/// Parsed JSONqa metadata.
#[derive(Debug, Clone, PartialEq, Eq)]
pub struct Qa {
    entries: Vec<(String, QaValue)>,
}

impl View for Qa {
    type V = Seq<(Seq<char>, QaTree)>;

    closed spec fn view(&self) -> Seq<(Seq<char>, QaTree)> {
        entries_tree(self.entries@)
    }
}

/// The value bound to `key` in entries `m`, if any.
pub open spec fn entries_get(m: Seq<(Seq<char>, QaTree)>, key: Seq<char>) -> Option<QaTree> {
    let i = key_index(m, key);
    if i >= 0 {
        Some(m[i].1)
    } else {
        None
    }
}

/// Binding a key: the key reads back the new value, every other key reads
/// back what it read before, and a key already present keeps its place.
pub proof fn lemma_entries_insert_last_wins(m: Seq<(Seq<char>, QaTree)>, k: Seq<char>, v: QaTree, k2: Seq<char>)
    ensures
        entries_get(entries_insert(m, k, v), k) == Some(v),
        k2 != k ==> entries_get(entries_insert(m, k, v), k2) == entries_get(m, k2),
        key_index(m, k) >= 0 ==> key_index(entries_insert(m, k, v), k) == key_index(m, k),
        key_index(m, k) >= 0 ==> entries_insert(m, k, v).len() == m.len(),
        key_index(m, k) < 0 ==> entries_insert(m, k, v) == m.push((k, v)),
    decreases m.len(),
{
    lemma_key_index(m, k);
    lemma_key_index(m, k2);
    let n = entries_insert(m, k, v);
    lemma_key_index(n, k);
    lemma_key_index(n, k2);
    if m.len() > 0 {
        let t = m.subrange(1, m.len() as int);
        lemma_entries_insert_last_wins(t, k, v, k2);
        if m[0].0 != k {
            assert(n.subrange(1, n.len() as int) =~= entries_insert(t, k, v)) by {
                lemma_key_index(t, k);
            }
        } else {
            assert(n.subrange(1, n.len() as int) =~= t);
        }
    } else {
        assert(n =~= seq![(k, v)]);
        assert(n.subrange(1, n.len() as int) =~= Seq::<(Seq<char>, QaTree)>::empty());
    }
}

/// The fragment of entries `m`: the string bound to `#`, if any.
pub open spec fn fragment_spec(m: Seq<(Seq<char>, QaTree)>) -> Option<Seq<char>> {
    match entries_get(m, seq!['#']) {
        Some(QaTree::Str(t)) => Some(t),
        _ => None,
    }
}

impl Qa {
    /// Parse a JSONqa string. Input must be the `{...}` portion including braces.
    pub fn parse(input: &str) -> (r: Result<Self, ParseError>)
        ensures
            match r {
                Ok(qa) => qa_spec(input@) == Ok::<Seq<(Seq<char>, QaTree)>, ParseError>(qa@)
                    && wf_entries(qa@),
                Err(e) => qa_spec(input@) == Err::<Seq<(Seq<char>, QaTree)>, ParseError>(e),
            },
    {
        proof {
            lemma_parse_well_formed(input@);
        }
        let mut parser = Parser::new(input);
        parser.parse_qa()
    }

    /// Get a value by key.
    pub fn get(&self, key: &str) -> (r: Option<&QaValue>)
        ensures
            match r {
                Some(v) => entries_get(self@, key@) == Some(v@),
                None => entries_get(self@, key@) is None,
            },
    {
        let k = key.to_owned();
        let ghost m = self@;
        proof {
            lemma_entries_tree(self.entries@);
            lemma_key_index(m, k@);
        }
        let mut i: usize = 0;
        while i < self.entries.len()
            invariant
                i <= self.entries.len(),
                m == entries_tree(self.entries@),
                m.len() == self.entries.len(),
                forall|j: int| 0 <= j < self.entries.len() ==> #[trigger] m[j] == (self.entries@[j].0@, self.entries@[j].1@),
                forall|j: int| 0 <= j < i ==> #[trigger] m[j].0 != k@,
                k@ == key@,
            decreases self.entries.len() - i,
        {
            if self.entries[i].0 == k {
                proof {
                    lemma_key_index(m, k@);
                    if key_index(m, k@) < 0 || i < key_index(m, k@) {
                        assert(m[i as int].0 == k@);
                    }
                    if key_index(m, k@) < i {
                        assert(m[key_index(m, k@)].0 != k@);
                    }
                }
                return Some(&self.entries[i].1);
            }
            i = i + 1;
        }
        proof {
            if key_index(m, k@) >= 0 {
                assert(m[key_index(m, k@)].0 != k@);
            }
        }
        None
    }

    /// Get the fragment value (shortcut for entries["#"]).
    pub fn fragment(&self) -> (r: Option<&str>)
        ensures
            match r {
                Some(t) => fragment_spec(self@) == Some(t@),
                None => fragment_spec(self@) is None,
            },
    {
        let hash = "#";
        proof {
            reveal_strlit("#");
            assert(hash@ =~= seq!['#']);
        }
        match self.get(hash) {
            Some(v) => v.as_str(),
            None => None,
        }
    }

    /// Returns true if there are no entries.
    pub fn is_empty(&self) -> (r: bool)
        ensures
            r == (self@.len() == 0),
    {
        proof {
            lemma_entries_tree(self.entries@);
        }
        self.entries.len() == 0
    }

    /// Returns the number of entries.
    pub fn len(&self) -> (r: usize)
        ensures
            r == self@.len(),
    {
        proof {
            lemma_entries_tree(self.entries@);
        }
        self.entries.len()
    }

    /// The entries, in order.
    pub fn entries(&self) -> (r: &[(String, QaValue)])
        ensures
            entries_tree(r@) == self@,
    {
        self.entries.as_slice()
    }

    /// Iterate over entries.
    pub fn iter(&self) -> (r: std::slice::Iter<'_, (String, QaValue)>)
        ensures
            entries_tree(IteratorSpec::remaining(&r).unref()) == self@,
    {
        let entries = self.entries.as_slice();
        let r = entries.iter();
        proof {
            broadcast use vstd::std_specs::slice::axiom_spec_slice_iter;
            assert(IteratorSpec::remaining(&r).unref() =~= self.entries@);
        }
        r
    }

    /// The metadata as written in JSONqa syntax.
    pub fn to_string(&self) -> (r: String)
        ensures
            r@ == fmt_qa(self@),
    {
        let mut out: Vec<char> = Vec::new();
        out.push('{');
        let ghost t = self@;
        proof {
            lemma_entries_tree(self.entries@);
        }
        let mut i: usize = 0;
        assert(seq!['{'] + fmt_top_entries(t.take(0)) =~= seq!['{']);
        while i < self.entries.len()
            invariant
                i <= self.entries.len(),
                t == entries_tree(self.entries@),
                t.len() == self.entries.len(),
                forall|j: int| 0 <= j < self.entries.len() ==> #[trigger] t[j] == (self.entries@[j].0@, self.entries@[j].1@),
                out@ == seq!['{'] + fmt_top_entries(t.take(i as int)),
            decreases self.entries.len() - i,
        {
            proof {
                lemma_fmt_top_entries_snoc(t.take(i as int), t[i as int]);
                assert(t.take(i as int).push(t[i as int]) =~= t.take(i + 1));
            }
            let ghost e = t[i as int];
            if i > 0 {
                out.push(',');
            }
            let ghost before = out@;
            write_string(self.entries[i].0.as_str(), &mut out);
            // Only omit value if it's empty string (key-only syntax)
            let omit = match &self.entries[i].1 {
                QaValue::String(s) => s.as_str().is_empty(),
                _ => false,
            };
            if !omit {
                out.push(':');
                write_value(&self.entries[i].1, &mut out);
            }
            proof {
                assert(is_empty_string(e.1) == omit);
                if i > 0 {
                    assert(out@ =~= seq!['{'] + (fmt_top_entries(t.take(i as int)) + seq![','] + fmt_top_entry(e.0, e.1)));
                } else {
                    assert(out@ =~= seq!['{'] + fmt_top_entry(e.0, e.1));
                }
            }
            i = i + 1;
        }
        out.push('}');
        assert(t.take(self.entries.len() as int) =~= t);
        assert(out@ =~= fmt_qa(self@));
        string_from_chars(out.as_slice())
    }
}

impl Default for Qa {
    fn default() -> (r: Self)
        ensures
            r@ == Seq::<(Seq<char>, QaTree)>::empty(),
            wf_entries(r@),
    {
        let r = Qa { entries: Vec::new() };
        assert(r@ =~= Seq::<(Seq<char>, QaTree)>::empty());
        r
    }
}

/// Writing one more top-level entry after some entries.
pub proof fn lemma_fmt_top_entries_snoc(m: Seq<(Seq<char>, QaTree)>, e: (Seq<char>, QaTree))
    ensures
        fmt_top_entries(m.push(e)) == if m.len() == 0 {
            fmt_top_entry(e.0, e.1)
        } else {
            fmt_top_entries(m) + seq![','] + fmt_top_entry(e.0, e.1)
        },
    decreases m.len(),
{
    if m.len() == 0 {
        assert(m.push(e) =~= seq![e]);
    } else {
        let t = m.subrange(1, m.len() as int);
        assert(m.push(e).subrange(1, m.len() as int + 1) =~= t.push(e));
        lemma_fmt_top_entries_snoc(t, e);
        if m.len() == 1 {
            assert(t =~= Seq::<(Seq<char>, QaTree)>::empty());
            assert(t.push(e) =~= seq![e]);
        } else {
            assert(fmt_top_entries(m.push(e)) =~= fmt_top_entry(m[0].0, m[0].1) + seq![','] + (
            fmt_top_entries(t) + seq![','] + fmt_top_entry(e.0, e.1)));
        }
    }
}

/// Binds `key` to `value` in `entries`: a key already present keeps its
/// place and takes the new value; a new key goes at the end.
fn insert_entry(entries: &mut Vec<(String, QaValue)>, key: String, value: QaValue)
    ensures
        entries_tree(final(entries)@) == entries_insert(entries_tree(old(entries)@), key@, value@),
{
    let ghost m = entries_tree(entries@);
    proof {
        lemma_entries_tree(entries@);
        lemma_key_index(m, key@);
    }
    let n = entries.len();
    let mut i: usize = 0;
    loop
        invariant
            0 <= i <= n,
            n == entries.len(),
            entries@ == old(entries)@,
            m == entries_tree(entries@),
            forall|j: int| 0 <= j < i ==> #[trigger] entries@[j].0@ != key@,
        ensures
            i < n ==> entries@[i as int].0@ == key@,
            i <= n,
            forall|j: int| 0 <= j < i ==> #[trigger] entries@[j].0@ != key@,
        decreases n - i,
    {
        if i == n {
            break ;
        }
        if entries[i].0 == key {
            break ;
        }
        i = i + 1;
    }
    proof {
        assert forall|j: int| 0 <= j < i implies #[trigger] m[j].0 != key@ by {
            assert(entries@[j].0@ != key@);
        }
    }
    if i < n {
        proof {
            assert(m[i as int].0 == key@);
            if key_index(m, key@) < 0 || i < key_index(m, key@) {
                assert(m[i as int].0 != key@);
            }
            if key_index(m, key@) < i {
                assert(m[key_index(m, key@)].0 != key@);
            }
            lemma_entries_tree_update(entries@, i as int, (key, value));
        }
        entries.set(i, (key, value));
    } else {
        proof {
            if key_index(m, key@) >= 0 {
                assert(m[key_index(m, key@)].0 != key@);
            }
            lemma_entries_tree_push(entries@, (key, value));
        }
        entries.push((key, value));
    }
}

/// Parser state: the input's characters and the position of the next one.
struct Parser {
    input: Vec<char>,
    pos: usize,
}

impl Parser {
    spec fn wf(&self) -> bool {
        self.pos <= self.input.len()
    }

    fn new(input: &str) -> (r: Self)
        ensures
            r.input@ == input@,
            r.pos == 0,
    {
        Parser { input: str_chars(input), pos: 0 }
    }

    fn peek(&self) -> (r: Option<char>)
        requires
            self.wf(),
        ensures
            r == peek_at(self.input@, self.pos as int),
    {
        if self.pos < self.input.len() {
            Some(self.input[self.pos])
        } else {
            None
        }
    }

    fn advance(&mut self)
        requires
            old(self).wf(),
        ensures
            final(self).wf(),
            final(self).input == old(self).input,
            final(self).pos == if old(self).pos < old(self).input.len() {
                old(self).pos + 1
            } else {
                old(self).pos as int
            },
    {
        if let Some(_c) = self.peek() {
            self.pos = self.pos + 1;
        }
    }

    fn skip_ws(&mut self)
        requires
            old(self).wf(),
        ensures
            final(self).wf(),
            final(self).input == old(self).input,
            final(self).pos == old(self).pos + ws_len(old(self).input@, old(self).pos as int),
    {
        let ghost s = self.input@;
        let ghost p0 = self.pos as int;
        loop
            invariant
                self.wf(),
                self.input == old(self).input,
                s == self.input@,
                p0 == old(self).pos,
                p0 <= self.pos,
                ws_len(s, p0) == (self.pos - p0) + ws_len(s, self.pos as int),
            ensures
                ws_len(s, self.pos as int) == 0,
            decreases self.input.len() - self.pos,
        {
            match self.peek() {
                Some(c) => {
                    if char_is_whitespace(c) {
                        self.advance();
                    } else {
                        break ;
                    }
                },
                None => {
                    break ;
                },
            }
        }
    }

    fn parse_bare(&mut self, key_mode: bool) -> (r: Result<String, ParseError>)
        requires
            old(self).wf(),
        ensures
            final(self).wf(),
            final(self).input == old(self).input,
            string_read(
                r,
                bare_spec(old(self).input@, old(self).pos as int, key_mode),
                old(self).pos as int,
                final(self).pos as int,
            ),
    {
        let ghost s = self.input@;
        let ghost p0 = self.pos as int;
        let mut result: Vec<char> = Vec::new();
        loop
            invariant
                self.wf(),
                self.input == old(self).input,
                s == self.input@,
                p0 == old(self).pos,
                p0 <= self.pos,
                bare_spec(s, p0, key_mode) == prepend(
                    result@,
                    (self.pos - p0) as nat,
                    bare_spec(s, self.pos as int, key_mode),
                ),
            ensures
                bare_spec(s, self.pos as int, key_mode) == Ok::<(Seq<char>, nat), ParseError>((Seq::<char>::empty(), 0nat)),
            decreases self.input.len() - self.pos,
        {
            let ghost before = self.pos as int;
            match self.peek() {
                Some(c) => {
                    if c == '\\' {
                        self.advance();
                        match self.peek() {
                            Some(e) => {
                                if is_special_char(e) {
                                    proof {
                                        lemma_prepend_prepend(
                                            result@,
                                            (before - p0) as nat,
                                            seq![e],
                                            2,
                                            bare_spec(s, before + 2, key_mode),
                                        );
                                    }
                                    let ghost prev = result@;
                                    result.push(e);
                                    assert(result@ =~= prev + seq![e]);
                                    self.advance();
                                } else {
                                    return Err(ParseError::InvalidEscape);
                                }
                            },
                            None => {
                                return Err(ParseError::InvalidEscape);
                            },
                        }
                    } else if key_mode && c == ':' {
                        break ;
                    } else if char_is_whitespace(c) || c == '{' || c == '}' || c == '[' || c == ']'
                        || c == ',' || c == '"' || c == '\'' {
                        break ;
                    } else {
                        proof {
                            lemma_prepend_prepend(
                                result@,
                                (before - p0) as nat,
                                seq![c],
                                1,
                                bare_spec(s, before + 1, key_mode),
                            );
                        }
                        let ghost prev = result@;
                        result.push(c);
                        assert(result@ =~= prev + seq![c]);
                        self.advance();
                    }
                },
                None => {
                    break ;
                },
            }
        }
        assert(result@ + Seq::<char>::empty() =~= result@);
        Ok(string_from_chars(result.as_slice()))
    }

    fn parse_quoted(&mut self, quote: char) -> (r: Result<String, ParseError>)
        requires
            old(self).wf(),
            old(self).pos < old(self).input.len(),
        ensures
            final(self).wf(),
            final(self).input == old(self).input,
            string_read(
                r,
                prepend(
                    Seq::empty(),
                    1,
                    quoted_spec(old(self).input@, old(self).pos + 1, quote),
                ),
                old(self).pos as int,
                final(self).pos as int,
            ),
    {
        let ghost s = self.input@;
        let ghost p0 = self.pos as int;
        self.advance();
        let mut result: Vec<char> = Vec::new();
        assert(Seq::<char>::empty() + result@ =~= result@);
        loop
            invariant
                self.wf(),
                self.input == old(self).input,
                s == self.input@,
                p0 == old(self).pos,
                p0 < self.pos,
                prepend(Seq::empty(), 1, quoted_spec(s, p0 + 1, quote)) == prepend(
                    result@,
                    (self.pos - p0) as nat,
                    quoted_spec(s, self.pos as int, quote),
                ),
            decreases self.input.len() - self.pos,
        {
            let ghost before = self.pos as int;
            match self.peek() {
                Some(c) => {
                    if c == quote {
                        self.advance();
                        assert(result@ + Seq::<char>::empty() =~= result@);
                        return Ok(string_from_chars(result.as_slice()));
                    } else if c == '\\' {
                        self.advance();
                        match self.peek() {
                            Some(e) => {
                                if is_special_char(e) {
                                    proof {
                                        lemma_prepend_prepend(
                                            result@,
                                            (before - p0) as nat,
                                            seq![e],
                                            2,
                                            quoted_spec(s, before + 2, quote),
                                        );
                                    }
                                    let ghost prev = result@;
                                    result.push(e);
                                    assert(result@ =~= prev + seq![e]);
                                    self.advance();
                                } else {
                                    return Err(ParseError::InvalidEscape);
                                }
                            },
                            None => {
                                return Err(ParseError::InvalidEscape);
                            },
                        }
                    } else {
                        proof {
                            lemma_prepend_prepend(
                                result@,
                                (before - p0) as nat,
                                seq![c],
                                1,
                                quoted_spec(s, before + 1, quote),
                            );
                        }
                        let ghost prev = result@;
                        result.push(c);
                        assert(result@ =~= prev + seq![c]);
                        self.advance();
                    }
                },
                None => {
                    return Err(ParseError::UnterminatedString);
                },
            }
        }
    }

    fn parse_string(&mut self, key_mode: bool) -> (r: Result<String, ParseError>)
        requires
            old(self).wf(),
        ensures
            final(self).wf(),
            final(self).input == old(self).input,
            string_read(
                r,
                string_spec(old(self).input@, old(self).pos as int, key_mode),
                old(self).pos as int,
                final(self).pos as int,
            ),
    {
        let ghost s = self.input@;
        let ghost p0 = self.pos as int;
        self.skip_ws();
        let ghost w = ws_len(s, p0);
        match self.peek() {
            Some(c) => {
                if c == '"' || c == '\'' {
                    let r = self.parse_quoted(c);
                    proof {
                        lemma_prepend_prepend(Seq::empty(), w, Seq::empty(), 1, quoted_spec(s, p0 + w + 1, c));
                        assert(Seq::<char>::empty() + Seq::<char>::empty() =~= Seq::<char>::empty());
                        lemma_empty_concat();
                    }
                    r
                } else {
                    let r = self.parse_bare(key_mode);
                    proof {
                        lemma_empty_concat();
                    }
                    r
                }
            },
            None => Err(ParseError::UnexpectedEof),
        }
    }

    fn parse_qa(&mut self) -> (r: Result<Qa, ParseError>)
        requires
            old(self).wf(),
            old(self).pos == 0,
        ensures
            match r {
                Ok(qa) => qa_spec(old(self).input@) == Ok::<Seq<(Seq<char>, QaTree)>, ParseError>(qa@),
                Err(e) => qa_spec(old(self).input@) == Err::<Seq<(Seq<char>, QaTree)>, ParseError>(e),
            },
    {
        self.skip_ws();
        // Expect opening brace
        match self.peek() {
            Some(c) => {
                if c == '{' {
                    self.advance();
                } else {
                    return Err(ParseError::ExpectedOpenBrace);
                }
            },
            None => {
                return Err(ParseError::UnexpectedEof);
            },
        }
        let entries = match self.parse_pairs() {
            Ok(m) => m,
            Err(e) => {
                return Err(e);
            },
        };
        self.skip_ws();
        // Expect closing brace
        if self.peek() == Some('}') {
            self.advance();
        } else {
            return Err(ParseError::ExpectedCloseBrace);
        }
        self.skip_ws();
        Ok(Qa { entries })
    }

    fn parse_value(&mut self) -> (r: Result<QaValue, ParseError>)
        requires
            old(self).wf(),
        ensures
            final(self).wf(),
            final(self).input == old(self).input,
            value_read(
                r,
                value_spec(old(self).input@, old(self).pos as int),
                old(self).pos as int,
                final(self).pos as int,
            ),
        decreases old(self).input.len() - old(self).pos, 1nat,
    {
        let ghost s = self.input@;
        let ghost p0 = self.pos as int;
        self.skip_ws();
        match self.peek() {
            Some(c) => {
                if c == '[' {
                    self.parse_array()
                } else if c == '{' {
                    self.parse_object()
                } else {
                    match self.parse_string(false) {
                        Ok(t) => Ok(QaValue::String(t)),
                        Err(e) => Err(e),
                    }
                }
            },
            None => Err(ParseError::UnexpectedEof),
        }
    }

    fn parse_array(&mut self) -> (r: Result<QaValue, ParseError>)
        requires
            old(self).wf(),
            old(self).pos < old(self).input.len(),
        ensures
            final(self).wf(),
            final(self).input == old(self).input,
            value_read(
                r,
                array_spec(old(self).input@, old(self).pos as int),
                old(self).pos as int,
                final(self).pos as int,
            ),
        decreases old(self).input.len() - old(self).pos, 0nat,
    {
        let ghost s = self.input@;
        let ghost p0 = self.pos as int;
        // Consume [
        self.advance();
        self.skip_ws();
        let ghost p2 = self.pos as int;
        let mut items: Vec<QaValue> = Vec::new();
        // Empty array
        if self.peek() == Some(']') {
            self.advance();
            proof {
                assert(items_tree(items@) =~= Seq::<QaTree>::empty());
            }
            return Ok(QaValue::Array(items));
        }
        proof {
            assert(Seq::<QaTree>::empty() + Seq::<QaTree>::empty() =~= Seq::<QaTree>::empty());
            assert forall|t: Seq<QaTree>| #[trigger] (Seq::<QaTree>::empty() + t) == t by {
                assert(Seq::<QaTree>::empty() + t =~= t);
            }
            assert(items_tree(items@) =~= Seq::<QaTree>::empty());
        }
        loop
            invariant_except_break
                items_spec(s, p2) == items_prepend(
                    items_tree(items@),
                    (self.pos - p2) as nat,
                    items_spec(s, self.pos as int),
                ),
            invariant
                self.wf(),
                self.input == old(self).input,
                s == self.input@,
                p0 == old(self).pos,
                p0 < p2 <= self.pos,
                p0 < s.len(),
                p2 == p0 + 1 + ws_len(s, p0 + 1),
                peek_at(s, p2) != Some(']'),
            ensures
                p2 <= self.pos,
                peek_at(s, self.pos as int) == Some(']'),
                items_spec(s, p2) == Ok::<(Seq<QaTree>, nat), ParseError>((items_tree(items@), (self.pos - p2) as nat)),
            decreases self.input.len() - self.pos,
        {
            let ghost q = self.pos as int;
            let ghost prev = items@;
            let value = match self.parse_value() {
                Ok(v) => v,
                Err(e) => {
                    return Err(e);
                },
            };
            let ghost n = (self.pos - q) as nat;
            let ghost vt = value_tree(value);
            proof {
                lemma_items_tree_push(prev, value);
            }
            items.push(value);
            self.skip_ws();
            let ghost q1 = self.pos as int;
            match self.peek() {
                Some(c) => {
                    if c == ',' {
                        self.advance();
                        self.skip_ws();
                        // Allow trailing comma
                        if self.peek() == Some(']') {
                            proof {
                                assert(items_tree(prev) + seq![vt] =~= items_tree(items@));
                            }
                            break ;
                        }
                        proof {
                            let rest = items_spec(s, self.pos as int);
                            match rest {
                                Ok((t, m)) => {
                                    assert(items_tree(prev) + (seq![vt] + t) =~= items_tree(items@) + t);
                                },
                                Err(_) => {},
                            }
                        }
                    } else if c == ']' {
                        proof {
                            assert(items_tree(prev) + seq![vt] =~= items_tree(items@));
                        }
                        break ;
                    } else {
                        return Err(ParseError::UnexpectedChar(c));
                    }
                },
                None => {
                    return Err(ParseError::ExpectedCloseBracket);
                },
            }
        }
        // Consume ]
        self.advance();
        Ok(QaValue::Array(items))
    }

    fn parse_object(&mut self) -> (r: Result<QaValue, ParseError>)
        requires
            old(self).wf(),
            old(self).pos < old(self).input.len(),
        ensures
            final(self).wf(),
            final(self).input == old(self).input,
            value_read(
                r,
                object_spec(old(self).input@, old(self).pos as int),
                old(self).pos as int,
                final(self).pos as int,
            ),
        decreases old(self).input.len() - old(self).pos, 0nat,
    {
        // Consume {
        self.advance();
        self.skip_ws();
        let entries = match self.parse_pairs() {
            Ok(m) => m,
            Err(e) => {
                return Err(e);
            },
        };
        self.skip_ws();
        // Expect closing brace
        if self.peek() == Some('}') {
            self.advance();
            Ok(QaValue::Object(entries))
        } else {
            Err(ParseError::ExpectedCloseBrace)
        }
    }

    #[verifier::rlimit(60)]
    fn parse_pairs(&mut self) -> (r: Result<Vec<(String, QaValue)>, ParseError>)
        requires
            old(self).wf(),
        ensures
            final(self).wf(),
            final(self).input == old(self).input,
            match r {
                Ok(m) => old(self).pos <= final(self).pos && pairs_spec(old(self).input@, old(self).pos as int)
                    == Ok::<(Seq<(Seq<char>, QaTree)>, nat), ParseError>(
                    (entries_tree(m@), (final(self).pos - old(self).pos) as nat),
                ),
                Err(e) => pairs_spec(old(self).input@, old(self).pos as int) == Err::<
                    (Seq<(Seq<char>, QaTree)>, nat),
                    ParseError,
                >(e),
            },
        decreases old(self).input.len() - old(self).pos, 2nat,
    {
        let ghost s = self.input@;
        let ghost p0 = self.pos as int;
        let mut entries: Vec<(String, QaValue)> = Vec::new();
        self.skip_ws();
        let ghost p1 = self.pos as int;
        // Empty object
        if self.peek() == Some('}') {
            proof {
                assert(entries_tree(entries@) =~= Seq::<(Seq<char>, QaTree)>::empty());
            }
            return Ok(entries);
        }
        proof {
            assert(entries_tree(entries@) =~= Seq::<(Seq<char>, QaTree)>::empty());
        }
        loop
            invariant_except_break
                pairs_loop_spec(s, p1, Seq::empty()) == shift(
                    pairs_loop_spec(s, self.pos as int, entries_tree(entries@)),
                    (self.pos - p1) as nat,
                ),
            invariant
                self.wf(),
                self.input == old(self).input,
                s == self.input@,
                p0 == old(self).pos,
                p0 <= p1 <= self.pos,
                p1 == p0 + ws_len(s, p0),
                peek_at(s, p1) != Some('}'),
            ensures
                p1 <= self.pos,
                pairs_loop_spec(s, p1, Seq::empty()) == Ok::<(Seq<(Seq<char>, QaTree)>, nat), ParseError>(
                    (entries_tree(entries@), (self.pos - p1) as nat),
                ),
            decreases self.input.len() - self.pos,
        {
            let ghost q = self.pos as int;
            let ghost acc = entries_tree(entries@);
            let (key, value) = match self.parse_pair() {
                Ok(kv) => kv,
                Err(e) => {
                    return Err(e);
                },
            };
            let ghost n = (self.pos - q) as nat;
            let ghost kv = (key@, value@);
            // Last-wins for duplicate keys
            insert_entry(&mut entries, key, value);
            let ghost acc2 = entries_tree(entries@);
            assert(acc2 == entries_insert(acc, kv.0, kv.1));
            self.skip_ws();
            let ghost q1 = self.pos as int;
            match self.peek() {
                Some(c) => {
                    if c == ',' {
                        self.advance();
                        self.skip_ws();
                        let ghost q2 = self.pos as int;
                        // Allow trailing comma before }
                        if self.peek() == Some('}') {
                            assert(pairs_loop_spec(s, q, acc) == Ok::<(Seq<(Seq<char>, QaTree)>, nat), ParseError>((acc2, (q2 - q) as nat)));
                            break ;
                        }
                        assert(pairs_loop_spec(s, q, acc) == shift(pairs_loop_spec(s, q2, acc2), (q2 - q) as nat));
                    } else if c == '}' || c == ']' {
                        assert(pairs_loop_spec(s, q, acc) == Ok::<(Seq<(Seq<char>, QaTree)>, nat), ParseError>((acc2, (q1 - q) as nat)));
                        break ;
                    } else {
                        assert(pairs_loop_spec(s, q, acc) == Err::<(Seq<(Seq<char>, QaTree)>, nat), ParseError>(ParseError::UnexpectedChar(c)));
                        return Err(ParseError::UnexpectedChar(c));
                    }
                },
                None => {
                    assert(pairs_loop_spec(s, q, acc) == Ok::<(Seq<(Seq<char>, QaTree)>, nat), ParseError>((acc2, (q1 - q) as nat)));
                    break ;
                },
            }
        }
        Ok(entries)
    }

    fn parse_pair(&mut self) -> (r: Result<(String, QaValue), ParseError>)
        requires
            old(self).wf(),
        ensures
            final(self).wf(),
            final(self).input == old(self).input,
            match r {
                Ok(kv) => old(self).pos <= final(self).pos && pair_spec(old(self).input@, old(self).pos as int)
                    == Ok::<((Seq<char>, QaTree), nat), ParseError>(
                    ((kv.0@, kv.1@), (final(self).pos - old(self).pos) as nat),
                ),
                Err(e) => pair_spec(old(self).input@, old(self).pos as int) == Err::<
                    ((Seq<char>, QaTree), nat),
                    ParseError,
                >(e),
            },
        decreases old(self).input.len() - old(self).pos, 0nat,
    {
        self.skip_ws();
        let key = match self.parse_string(true) {
            Ok(k) => k,
            Err(e) => {
                return Err(e);
            },
        };
        self.skip_ws();
        // Check for :value
        if self.peek() == Some(':') {
            self.advance();
            self.skip_ws();
            let value = match self.parse_value() {
                Ok(v) => v,
                Err(e) => {
                    return Err(e);
                },
            };
            Ok((key, value))
        } else {
            // Key without value gets empty string
            let value = QaValue::String(String::new());
            Ok((key, value))
        }
    }

}

} // verus!
