//! Laws of the JSONqa syntax: parsing yields well-formed metadata, and what
//! the formatter writes parses back to the same metadata.

use vstd::prelude::*;

use crate::chars::is_white_space;
use crate::qa_grammar::{
    array_spec, bare_spec, entries_insert, escape, escape_char, fmt_entries, fmt_items, fmt_qa,
    fmt_string, fmt_top_entries, fmt_top_entry, fmt_value, is_bare_stop, is_empty_string,
    is_special, items_spec, key_index, lemma_key_index, needs_quoting_spec, object_spec,
    pair_spec, pairs_loop_spec, pairs_spec, peek_at, prepend, qa_spec, quoted_spec, string_spec,
    value_spec, ws_len, rem,
};
use crate::qa_value::QaTree;

verus! {

/// No key occurs twice among the entries.
pub open spec fn keys_distinct(m: Seq<(Seq<char>, QaTree)>) -> bool {
    forall|i: int, j: int| 0 <= i < j < m.len() ==> #[trigger] m[i].0 != #[trigger] m[j].0
}

/// Every object in the value, at any depth, has distinct keys.
pub open spec fn wf_tree(v: QaTree) -> bool
    decreases v,
{
    match v {
        QaTree::Str(_) => true,
        QaTree::Arr(items) => forall|i: int| 0 <= i < items.len() ==> wf_tree(#[trigger] items[i]),
        QaTree::Obj(m) => keys_distinct(m) && forall|i: int| 0 <= i < m.len() ==> wf_tree(#[trigger] m[i].1),
    }
}


/// Well-formed top-level entries: distinct keys, well-formed values.
pub open spec fn wf_entries(m: Seq<(Seq<char>, QaTree)>) -> bool {
    keys_distinct(m) && forall|i: int| 0 <= i < m.len() ==> wf_tree(#[trigger] m[i].1)
}

/// `t` is written in `s` from position `p` on.
pub open spec fn occurs_at(s: Seq<char>, p: int, t: Seq<char>) -> bool {
    0 <= p && p + t.len() <= s.len() && s.subrange(p, p + t.len()) == t
}

/// A string that can be written bare: no whitespace and no special character.
pub open spec fn plain(t: Seq<char>) -> bool {
    forall|i: int| 0 <= i < t.len() ==> !is_white_space(#[trigger] t[i]) && !is_special(t[i])
}

/// What a bare string may be followed by: the end of the input or a
/// character that ends it.
pub open spec fn bare_end(s: Seq<char>, q: int, key_mode: bool) -> bool {
    q == s.len() || (0 <= q < s.len() && is_bare_stop(s[q], key_mode))
}

/// A character that may begin a written value: no whitespace and none of the
/// characters that close or separate.
pub open spec fn opens_value(c: char) -> bool {
    !is_white_space(c) && c != ']' && c != '}' && c != ',' && c != ':' && c != '\\'
}

proof fn lemma_occurs_split(s: Seq<char>, p: int, a: Seq<char>, b: Seq<char>)
    requires
        occurs_at(s, p, a + b),
    ensures
        occurs_at(s, p, a),
        occurs_at(s, p + a.len(), b),
{
    let w = s.subrange(p, p + (a + b).len());
    assert(w == a + b);
    assert forall|i: int| 0 <= i < a.len() implies #[trigger] s.subrange(p, p + a.len())[i] == a[i] by {
        assert(s[p + i] == w[i]);
        assert(w[i] == (a + b)[i]);
    }
    assert(s.subrange(p, p + a.len()) =~= a);
    assert forall|i: int| 0 <= i < b.len() implies #[trigger] s.subrange(p + a.len(), p + a.len() + b.len())[i] == b[i] by {
        assert(s[p + a.len() + i] == w[a.len() + i]);
        assert(w[a.len() + i] == (a + b)[a.len() + i]);
    }
    assert(s.subrange(p + a.len(), p + a.len() + b.len()) =~= b);
}

proof fn lemma_occurs_peek(s: Seq<char>, p: int, t: Seq<char>, i: int)
    requires
        occurs_at(s, p, t),
        0 <= i < t.len(),
    ensures
        peek_at(s, p + i) == Some(t[i]),
{
    assert(s.subrange(p, p + t.len())[i] == s[p + i]);
}

/// The first character written for a string may begin a value.
proof fn lemma_fmt_string_first(t: Seq<char>)
    ensures
        fmt_string(t).len() > 0,
        opens_value(fmt_string(t)[0]),
        fmt_string(t)[0] != '[' && fmt_string(t)[0] != '{',
{
    if !needs_quoting_spec(t) {
        assert(!(is_white_space(t[0]) || is_special(t[0])));
    }
}

/// The first character written for a value may begin a value.
proof fn lemma_fmt_value_first(v: QaTree)
    ensures
        fmt_value(v).len() > 0,
        opens_value(fmt_value(v)[0]),
{
    match v {
        QaTree::Str(t) => lemma_fmt_string_first(t),
        QaTree::Arr(_) => {},
        QaTree::Obj(_) => {},
    }
}

/// A plain string followed by a stop reads back as itself.
proof fn lemma_bare_reads(s: Seq<char>, p: int, t: Seq<char>, key_mode: bool)
    requires
        plain(t),
        occurs_at(s, p, t),
        bare_end(s, p + t.len(), key_mode),
    ensures
        bare_spec(s, p, key_mode) == Ok::<(Seq<char>, nat), crate::qa_parse::ParseError>((t, t.len())),
    decreases t.len(),
{
    if t.len() == 0 {
        assert(t =~= Seq::<char>::empty());
    } else {
        let c = t[0];
        lemma_occurs_peek(s, p, t, 0);
        let rest = t.subrange(1, t.len() as int);
        assert(t =~= seq![c] + rest);
        lemma_occurs_split(s, p, seq![c], rest);
        assert(plain(rest)) by {
            assert forall|i: int| 0 <= i < rest.len() implies !is_white_space(#[trigger] rest[i]) && !is_special(rest[i]) by {
                assert(rest[i] == t[i + 1]);
            }
        }
        lemma_bare_reads(s, p + 1, rest, key_mode);
        assert(!is_white_space(c) && !is_special(c));
    }
}

/// An escaped string followed by a closing double quote reads back as
/// itself.
proof fn lemma_quoted_reads(s: Seq<char>, p: int, t: Seq<char>)
    requires
        occurs_at(s, p, escape(t) + seq!['"']),
    ensures
        quoted_spec(s, p, '"') == Ok::<(Seq<char>, nat), crate::qa_parse::ParseError>((t, escape(t).len() + 1)),
    decreases t.len(),
{
    if t.len() == 0 {
        assert(t =~= Seq::<char>::empty());
        assert(escape(t) =~= Seq::<char>::empty());
        lemma_occurs_peek(s, p, escape(t) + seq!['"'], 0);
    } else {
        let c = t[0];
        let rest = t.subrange(1, t.len() as int);
        assert(t =~= seq![c] + rest);
        let e = escape_char(c);
        assert(escape(t) == e + escape(rest));
        assert(escape(t) + seq!['"'] =~= e + (escape(rest) + seq!['"']));
        lemma_occurs_split(s, p, e, escape(rest) + seq!['"']);
        lemma_quoted_reads(s, p + e.len(), rest);
        lemma_occurs_peek(s, p, e, 0);
        if c == '"' || c == '\\' {
            lemma_occurs_peek(s, p, e, 1);
        }
    }
}

/// A written string reads back as itself.
proof fn lemma_string_reads(s: Seq<char>, p: int, t: Seq<char>, key_mode: bool)
    requires
        occurs_at(s, p, fmt_string(t)),
        bare_end(s, p + fmt_string(t).len(), key_mode),
    ensures
        string_spec(s, p, key_mode) == Ok::<(Seq<char>, nat), crate::qa_parse::ParseError>((t, fmt_string(t).len())),
{
    lemma_fmt_string_first(t);
    lemma_occurs_peek(s, p, fmt_string(t), 0);
    assert(ws_len(s, p) == 0);
    if needs_quoting_spec(t) {
        assert(fmt_string(t) =~= seq!['"'] + (escape(t) + seq!['"']));
        lemma_occurs_split(s, p, seq!['"'], escape(t) + seq!['"']);
        lemma_quoted_reads(s, p + 1, t);
        assert(Seq::<char>::empty() + t =~= t);
    } else {
        assert(plain(t)) by {
            assert forall|i: int| 0 <= i < t.len() implies !is_white_space(#[trigger] t[i]) && !is_special(t[i]) by {
                if is_white_space(t[i]) || is_special(t[i]) {
                    assert(needs_quoting_spec(t));
                }
            }
        }
        assert(t[0] != '"' && t[0] != '\'');
        lemma_bare_reads(s, p, t, key_mode);
        assert(Seq::<char>::empty() + t =~= t);
    }
}


/// What a written value may be followed by: the end of the input, a comma or
/// a closing bracket or brace.
pub open spec fn value_end(s: Seq<char>, q: int) -> bool {
    q == s.len() || (0 <= q < s.len() && (s[q] == ',' || s[q] == ']' || s[q] == '}'))
}

/// Written values start with the first character of the first value.
proof fn lemma_fmt_items_first(items: Seq<QaTree>)
    requires
        items.len() > 0,
    ensures
        fmt_items(items).len() > 0,
        fmt_items(items)[0] == fmt_value(items[0])[0],
{
    lemma_fmt_value_first(items[0]);
}

/// Written entries start with the first character of the first key.
proof fn lemma_fmt_entries_first(m: Seq<(Seq<char>, QaTree)>)
    requires
        m.len() > 0,
    ensures
        fmt_entries(m).len() > 0,
        fmt_entries(m)[0] == fmt_string(m[0].0)[0],
{
    lemma_fmt_string_first(m[0].0);
}

/// Written top-level entries start with the first character of the first
/// key.
proof fn lemma_fmt_top_entries_first(m: Seq<(Seq<char>, QaTree)>)
    requires
        m.len() > 0,
    ensures
        fmt_top_entries(m).len() > 0,
        fmt_top_entries(m)[0] == fmt_string(m[0].0)[0],
{
    lemma_fmt_string_first(m[0].0);
}

/// A written well-formed value reads back as itself.
proof fn lemma_value_reads(s: Seq<char>, p: int, v: QaTree)
    requires
        wf_tree(v),
        occurs_at(s, p, fmt_value(v)),
        value_end(s, p + fmt_value(v).len()),
    ensures
        value_spec(s, p) == Ok::<(QaTree, nat), crate::qa_parse::ParseError>((v, fmt_value(v).len())),
    decreases v,
{
    lemma_fmt_value_first(v);
    lemma_occurs_peek(s, p, fmt_value(v), 0);
    assert(ws_len(s, p) == 0);
    match v {
        QaTree::Str(t) => {
            lemma_fmt_string_first(t);
            lemma_string_reads(s, p, t, false);
        },
        QaTree::Arr(items) => {
            let body = fmt_items(items);
            assert(fmt_value(v) =~= seq!['['] + (body + seq![']']));
            lemma_occurs_split(s, p, seq!['['], body + seq![']']);
            lemma_occurs_split(s, p + 1, body, seq![']']);
            lemma_occurs_peek(s, p + 1 + body.len(), seq![']'], 0);
            if items.len() == 0 {
                assert(body.len() == 0);
                assert(ws_len(s, p + 1) == 0);
                assert(items =~= Seq::<QaTree>::empty());
            } else {
                lemma_fmt_items_first(items);
                lemma_fmt_value_first(items[0]);
                lemma_occurs_peek(s, p + 1, body, 0);
                assert(ws_len(s, p + 1) == 0);
                lemma_items_reads(s, p + 1, items);
                assert(ws_len(s, p + 1 + body.len()) == 0);
            }
            assert(array_spec(s, p) == Ok::<(QaTree, nat), crate::qa_parse::ParseError>((v, fmt_value(v).len())));
        },
        QaTree::Obj(m) => {
            let body = fmt_entries(m);
            assert(fmt_value(v) =~= seq!['{'] + (body + seq!['}']));
            lemma_occurs_split(s, p, seq!['{'], body + seq!['}']);
            lemma_occurs_split(s, p + 1, body, seq!['}']);
            lemma_occurs_peek(s, p + 1 + body.len(), seq!['}'], 0);
            if m.len() == 0 {
                assert(body.len() == 0);
                assert(ws_len(s, p + 1) == 0);
                assert(m =~= Seq::<(Seq<char>, QaTree)>::empty());
                assert(pairs_spec(s, p + 1) == Ok::<(Seq<(Seq<char>, QaTree)>, nat), crate::qa_parse::ParseError>((m, 0)));
            } else {
                lemma_fmt_entries_first(m);
                lemma_fmt_string_first(m[0].0);
                lemma_occurs_peek(s, p + 1, body, 0);
                assert(ws_len(s, p + 1) == 0);
                lemma_entries_reads(s, p + 1, m, Seq::empty());
                assert(Seq::<(Seq<char>, QaTree)>::empty() + m =~= m);
                assert(pairs_spec(s, p + 1) == Ok::<(Seq<(Seq<char>, QaTree)>, nat), crate::qa_parse::ParseError>((m, body.len())));
            }
            assert(ws_len(s, p + 1 + body.len()) == 0);
            assert(object_spec(s, p) == Ok::<(QaTree, nat), crate::qa_parse::ParseError>((v, fmt_value(v).len())));
        },
    }
}

/// Written well-formed values read back as themselves, up to the closing
/// bracket.
proof fn lemma_items_reads(s: Seq<char>, p: int, items: Seq<QaTree>)
    requires
        items.len() > 0,
        forall|i: int| 0 <= i < items.len() ==> wf_tree(#[trigger] items[i]),
        occurs_at(s, p, fmt_items(items)),
        peek_at(s, p + fmt_items(items).len()) == Some(']'),
    ensures
        items_spec(s, p) == Ok::<(Seq<QaTree>, nat), crate::qa_parse::ParseError>((items, fmt_items(items).len())),
    decreases items,
{
    let v = items[0];
    let fv = fmt_value(v);
    assert(wf_tree(v));
    if items.len() == 1 {
        assert(fmt_items(items) == fv);
        lemma_value_reads(s, p, v);
        assert(ws_len(s, p + fv.len()) == 0);
        assert(seq![v] =~= items);
    } else {
        let rest = items.subrange(1, items.len() as int);
        let fr = fmt_items(rest);
        assert(fmt_items(items) =~= fv + (seq![','] + fr));
        lemma_occurs_split(s, p, fv, seq![','] + fr);
        lemma_occurs_split(s, p + fv.len(), seq![','], fr);
        lemma_occurs_peek(s, p + fv.len(), seq![','], 0);
        lemma_value_reads(s, p, v);
        assert(ws_len(s, p + fv.len()) == 0);
        lemma_fmt_items_first(rest);
        lemma_fmt_value_first(rest[0]);
        lemma_occurs_peek(s, p + fv.len() + 1, fr, 0);
        assert(ws_len(s, p + fv.len() + 1) == 0);
        assert forall|i: int| 0 <= i < rest.len() implies wf_tree(#[trigger] rest[i]) by {
            assert(rest[i] == items[i + 1]);
        }
        lemma_items_reads(s, p + fv.len() + 1, rest);
        assert(seq![v] + rest =~= items);
    }
}

/// The entry `k:v` written at `p` reads back as itself, given that the value
/// does.
proof fn lemma_pair_reads(s: Seq<char>, p: int, k: Seq<char>, v: QaTree)
    requires
        occurs_at(s, p, fmt_string(k) + seq![':'] + fmt_value(v)),
        value_spec(s, p + fmt_string(k).len() + 1) == Ok::<(QaTree, nat), crate::qa_parse::ParseError>(
            (v, fmt_value(v).len()),
        ),
    ensures
        pair_spec(s, p) == Ok::<((Seq<char>, QaTree), nat), crate::qa_parse::ParseError>(
            ((k, v), (fmt_string(k) + seq![':'] + fmt_value(v)).len()),
        ),
{
    let fk = fmt_string(k);
    let fv = fmt_value(v);
    assert(fk + seq![':'] + fv =~= fk + (seq![':'] + fv));
    lemma_occurs_split(s, p, fk, seq![':'] + fv);
    lemma_occurs_split(s, p + fk.len(), seq![':'], fv);
    lemma_occurs_peek(s, p + fk.len(), seq![':'], 0);
    lemma_fmt_string_first(k);
    lemma_occurs_peek(s, p, fk, 0);
    assert(ws_len(s, p) == 0);
    lemma_string_reads(s, p, k, true);
    assert(ws_len(s, p + fk.len()) == 0);
    lemma_fmt_value_first(v);
    lemma_occurs_peek(s, p + fk.len() + 1, fv, 0);
    assert(ws_len(s, p + fk.len() + 1) == 0);
}

/// The key `k` written alone at `p`, followed by a comma or closing brace,
/// reads back as a key bound to the empty string.
proof fn lemma_key_only_reads(s: Seq<char>, p: int, k: Seq<char>)
    requires
        occurs_at(s, p, fmt_string(k)),
        0 <= p + fmt_string(k).len() < s.len(),
        s[p + fmt_string(k).len()] == ',' || s[p + fmt_string(k).len()] == '}',
    ensures
        pair_spec(s, p) == Ok::<((Seq<char>, QaTree), nat), crate::qa_parse::ParseError>(
            ((k, QaTree::Str(Seq::empty())), fmt_string(k).len()),
        ),
{
    let fk = fmt_string(k);
    lemma_fmt_string_first(k);
    lemma_occurs_peek(s, p, fk, 0);
    assert(ws_len(s, p) == 0);
    lemma_string_reads(s, p, k, true);
    assert(ws_len(s, p + fk.len()) == 0);
}

/// Binding a key that `acc` lacks appends the entry.
proof fn lemma_insert_new_key(acc: Seq<(Seq<char>, QaTree)>, e: (Seq<char>, QaTree))
    requires
        forall|i: int| 0 <= i < acc.len() ==> #[trigger] acc[i].0 != e.0,
    ensures
        entries_insert(acc, e.0, e.1) == acc.push(e),
{
    lemma_key_index(acc, e.0);
    if key_index(acc, e.0) >= 0 {
        assert(acc[key_index(acc, e.0)].0 != e.0);
    }
}

/// The rest of distinct, well-formed entries is distinct and well-formed,
/// and none of its keys is in `acc` with the first entry appended.
proof fn lemma_entries_rest(m: Seq<(Seq<char>, QaTree)>, acc: Seq<(Seq<char>, QaTree)>)
    requires
        m.len() > 0,
        keys_distinct(m),
        forall|i: int| 0 <= i < m.len() ==> wf_tree(#[trigger] m[i].1),
        forall|i: int, j: int| 0 <= i < acc.len() && 0 <= j < m.len() ==> #[trigger] acc[i].0 != #[trigger] m[j].0,
    ensures
        ({
            let rest = m.subrange(1, m.len() as int);
            let acc2 = acc.push(m[0]);
            &&& keys_distinct(rest)
            &&& forall|i: int| 0 <= i < rest.len() ==> wf_tree(#[trigger] rest[i].1)
            &&& forall|i: int, j: int| 0 <= i < acc2.len() && 0 <= j < rest.len() ==> #[trigger] acc2[i].0 != #[trigger] rest[j].0
            &&& acc2 + rest == acc + m
            &&& forall|i: int| 0 <= i < acc.len() ==> #[trigger] acc[i].0 != m[0].0
        }),
{
    let rest = m.subrange(1, m.len() as int);
    let acc2 = acc.push(m[0]);
    assert forall|i: int, j: int| 0 <= i < j < rest.len() implies #[trigger] rest[i].0 != #[trigger] rest[j].0 by {
        assert(rest[i] == m[i + 1] && rest[j] == m[j + 1]);
    }
    assert forall|i: int| 0 <= i < rest.len() implies wf_tree(#[trigger] rest[i].1) by {
        assert(rest[i] == m[i + 1]);
    }
    assert forall|i: int, j: int| 0 <= i < acc2.len() && 0 <= j < rest.len() implies #[trigger] acc2[i].0 != #[trigger] rest[j].0 by {
        assert(rest[j] == m[j + 1]);
        if i < acc.len() {
            assert(acc2[i] == acc[i]);
        } else {
            assert(acc2[i] == m[0]);
        }
    }
    assert forall|i: int| 0 <= i < acc.len() implies #[trigger] acc[i].0 != m[0].0 by {
        assert(acc[i].0 != m[0].0);
    }
    assert(acc2 + rest =~= acc + m);
}

/// Written entries with distinct keys, none of them among `acc`, read back
/// into `acc` as themselves, up to the closing brace.
proof fn lemma_entries_reads(
    s: Seq<char>,
    p: int,
    m: Seq<(Seq<char>, QaTree)>,
    acc: Seq<(Seq<char>, QaTree)>,
)
    requires
        m.len() > 0,
        keys_distinct(m),
        forall|i: int| 0 <= i < m.len() ==> wf_tree(#[trigger] m[i].1),
        forall|i: int, j: int| 0 <= i < acc.len() && 0 <= j < m.len() ==> #[trigger] acc[i].0 != #[trigger] m[j].0,
        occurs_at(s, p, fmt_entries(m)),
        peek_at(s, p + fmt_entries(m).len()) == Some('}'),
    ensures
        pairs_loop_spec(s, p, acc) == Ok::<(Seq<(Seq<char>, QaTree)>, nat), crate::qa_parse::ParseError>(
            (acc + m, fmt_entries(m).len()),
        ),
    decreases m,
{
    let e = m[0];
    let fk = fmt_string(e.0);
    let fv = fmt_value(e.1);
    let fe = fk + seq![':'] + fv;
    let rest = m.subrange(1, m.len() as int);
    let tail = if m.len() == 1 {
        Seq::<char>::empty()
    } else {
        seq![','] + fmt_entries(rest)
    };
    assert(fmt_entries(m) =~= fe + tail);
    lemma_occurs_split(s, p, fe, tail);
    assert(fe =~= fk + (seq![':'] + fv));
    lemma_occurs_split(s, p, fk, seq![':'] + fv);
    lemma_occurs_split(s, p + fk.len(), seq![':'], fv);
    let q = p + fe.len();
    if m.len() > 1 {
        lemma_occurs_peek(s, q, tail, 0);
    }
    assert(wf_tree(e.1));
    assert(decreases_to!(m => m[0]));
    lemma_value_reads(s, p + fk.len() + 1, e.1);
    lemma_pair_reads(s, p, e.0, e.1);
    lemma_entries_rest(m, acc);
    lemma_insert_new_key(acc, e);
    assert(ws_len(s, q) == 0);
    if m.len() > 1 {
        let fr = fmt_entries(rest);
        lemma_occurs_split(s, q, seq![','], fr);
        lemma_fmt_entries_first(rest);
        lemma_fmt_string_first(rest[0].0);
        lemma_occurs_peek(s, q + 1, fr, 0);
        assert(ws_len(s, q + 1) == 0);
        lemma_entries_reads(s, q + 1, rest, acc.push(e));
    } else {
        assert(acc.push(e) =~= acc + m);
    }
}


/// Written top-level entries with distinct keys, none of them among `acc`,
/// read back into `acc` as themselves, up to the closing brace.
proof fn lemma_top_entries_reads(
    s: Seq<char>,
    p: int,
    m: Seq<(Seq<char>, QaTree)>,
    acc: Seq<(Seq<char>, QaTree)>,
)
    requires
        m.len() > 0,
        keys_distinct(m),
        forall|i: int| 0 <= i < m.len() ==> wf_tree(#[trigger] m[i].1),
        forall|i: int, j: int| 0 <= i < acc.len() && 0 <= j < m.len() ==> #[trigger] acc[i].0 != #[trigger] m[j].0,
        occurs_at(s, p, fmt_top_entries(m)),
        peek_at(s, p + fmt_top_entries(m).len()) == Some('}'),
    ensures
        pairs_loop_spec(s, p, acc) == Ok::<(Seq<(Seq<char>, QaTree)>, nat), crate::qa_parse::ParseError>(
            (acc + m, fmt_top_entries(m).len()),
        ),
    decreases m.len(),
{
    let e = m[0];
    let fe = fmt_top_entry(e.0, e.1);
    let rest = m.subrange(1, m.len() as int);
    let tail = if m.len() == 1 {
        Seq::<char>::empty()
    } else {
        seq![','] + fmt_top_entries(rest)
    };
    assert(fmt_top_entries(m) =~= fe + tail);
    lemma_occurs_split(s, p, fe, tail);
    let q = p + fe.len();
    if m.len() > 1 {
        lemma_occurs_peek(s, q, tail, 0);
    }
    assert(wf_tree(e.1));
    if is_empty_string(e.1) {
        assert(e.1 == QaTree::Str(Seq::empty())) by {
            assert(e.1->Str_0 =~= Seq::<char>::empty());
        }
        lemma_key_only_reads(s, p, e.0);
    } else {
        let fk = fmt_string(e.0);
        let fv = fmt_value(e.1);
        assert(fe =~= fk + (seq![':'] + fv));
        lemma_occurs_split(s, p, fk, seq![':'] + fv);
        lemma_occurs_split(s, p + fk.len(), seq![':'], fv);
        lemma_value_reads(s, p + fk.len() + 1, e.1);
        lemma_pair_reads(s, p, e.0, e.1);
    }
    lemma_entries_rest(m, acc);
    lemma_insert_new_key(acc, e);
    assert(ws_len(s, q) == 0);
    if m.len() > 1 {
        let fr = fmt_top_entries(rest);
        lemma_occurs_split(s, q, seq![','], fr);
        lemma_fmt_top_entries_first(rest);
        lemma_fmt_string_first(rest[0].0);
        lemma_occurs_peek(s, q + 1, fr, 0);
        assert(ws_len(s, q + 1) == 0);
        lemma_top_entries_reads(s, q + 1, rest, acc.push(e));
    } else {
        assert(acc.push(e) =~= acc + m);
    }
}

/// Round trip: the text that the formatter writes for well-formed metadata
/// parses back to the same metadata, entry for entry and in the same order.
pub proof fn lemma_format_then_parse(m: Seq<(Seq<char>, QaTree)>)
    requires
        wf_entries(m),
    ensures
        qa_spec(fmt_qa(m)) == Ok::<Seq<(Seq<char>, QaTree)>, crate::qa_parse::ParseError>(m),
{
    let s = fmt_qa(m);
    let body = fmt_top_entries(m);
    assert(s =~= seq!['{'] + (body + seq!['}']));
    assert(occurs_at(s, 0, s)) by {
        assert(s.subrange(0, s.len() as int) =~= s);
    }
    lemma_occurs_split(s, 0, seq!['{'], body + seq!['}']);
    lemma_occurs_split(s, 1, body, seq!['}']);
    lemma_occurs_peek(s, 0, seq!['{'], 0);
    lemma_occurs_peek(s, 1 + body.len() as int, seq!['}'], 0);
    assert(ws_len(s, 0) == 0);
    if m.len() == 0 {
        assert(body.len() == 0);
        assert(ws_len(s, 1) == 0);
        assert(m =~= Seq::<(Seq<char>, QaTree)>::empty());
    } else {
        lemma_fmt_top_entries_first(m);
        lemma_fmt_string_first(m[0].0);
        lemma_occurs_peek(s, 1, body, 0);
        assert(ws_len(s, 1) == 0);
        lemma_top_entries_reads(s, 1, m, Seq::empty());
        assert(Seq::<(Seq<char>, QaTree)>::empty() + m =~= m);
        assert(ws_len(s, 1 + body.len() as int) == 0);
    }
}


/// Binding a well-formed value keeps entries well-formed.
proof fn lemma_insert_wf(m: Seq<(Seq<char>, QaTree)>, k: Seq<char>, v: QaTree)
    requires
        wf_entries(m),
        wf_tree(v),
    ensures
        wf_entries(entries_insert(m, k, v)),
{
    lemma_key_index(m, k);
    let i = key_index(m, k);
    let r = entries_insert(m, k, v);
    if i >= 0 {
        assert forall|a: int, b: int| 0 <= a < b < r.len() implies #[trigger] r[a].0 != #[trigger] r[b].0 by {
            assert(r[a].0 == m[a].0 && r[b].0 == m[b].0);
        }
        assert forall|a: int| 0 <= a < r.len() implies wf_tree(#[trigger] r[a].1) by {
            if a != i {
                assert(r[a] == m[a]);
            }
        }
    } else {
        assert forall|a: int, b: int| 0 <= a < b < r.len() implies #[trigger] r[a].0 != #[trigger] r[b].0 by {
            if b == m.len() {
                assert(m[a].0 != k);
            } else {
                assert(r[a] == m[a] && r[b] == m[b]);
            }
        }
        assert forall|a: int| 0 <= a < r.len() implies wf_tree(#[trigger] r[a].1) by {
            if a < m.len() {
                assert(r[a] == m[a]);
            }
        }
    }
}

/// Every value that the parser reads is well-formed.
proof fn lemma_value_wf(s: Seq<char>, p: int)
    ensures
        value_spec(s, p) is Ok ==> wf_tree(value_spec(s, p)->Ok_0.0),
    decreases rem(s, p), 1nat,
{
    let w = ws_len(s, p);
    let p1 = p + w;
    match peek_at(s, p1) {
        None => {},
        Some(c) => {
            if c == '[' {
                lemma_array_wf(s, p1);
            } else if c == '{' {
                lemma_object_wf(s, p1);
            }
        },
    }
}

/// Every array that the parser reads is well-formed.
proof fn lemma_array_wf(s: Seq<char>, p: int)
    ensures
        array_spec(s, p) is Ok ==> wf_tree(array_spec(s, p)->Ok_0.0),
    decreases rem(s, p), 0nat,
{
    if 0 <= p < s.len() {
        let w2 = ws_len(s, p + 1);
        let p2 = p + 1 + w2;
        if peek_at(s, p2) != Some(']') {
            lemma_items_wf(s, p2);
        }
    }
}

/// Every object that the parser reads is well-formed.
proof fn lemma_object_wf(s: Seq<char>, p: int)
    ensures
        object_spec(s, p) is Ok ==> wf_tree(object_spec(s, p)->Ok_0.0),
    decreases rem(s, p), 0nat,
{
    if 0 <= p < s.len() {
        let w2 = ws_len(s, p + 1);
        let p2 = p + 1 + w2;
        lemma_pairs_wf(s, p2);
    }
}

/// Every array body that the parser reads holds well-formed values.
proof fn lemma_items_wf(s: Seq<char>, p: int)
    ensures
        items_spec(s, p) is Ok ==> forall|i: int|
            0 <= i < items_spec(s, p)->Ok_0.0.len() ==> wf_tree(#[trigger] items_spec(s, p)->Ok_0.0[i]),
    decreases rem(s, p), 2nat,
{
    lemma_value_wf(s, p);
    match value_spec(s, p) {
        Err(_) => {},
        Ok((v, n)) => {
            let w = ws_len(s, p + n);
            let q1 = p + n + w;
            match peek_at(s, q1) {
                None => {},
                Some(c) => {
                    if c == ',' {
                        let w2 = ws_len(s, q1 + 1);
                        let q2 = q1 + 1 + w2;
                        if peek_at(s, q2) != Some(']') {
                            lemma_items_wf(s, q2);
                            match items_spec(s, q2) {
                                Ok((rest, _)) => {
                                    let all = seq![v] + rest;
                                    assert forall|i: int| 0 <= i < all.len() implies wf_tree(#[trigger] all[i]) by {
                                        if i > 0 {
                                            assert(all[i] == rest[i - 1]);
                                        }
                                    }
                                },
                                Err(_) => {},
                            }
                        }
                    }
                },
            }
        },
    }
}

/// Every entry that the parser reads holds a well-formed value.
proof fn lemma_pair_wf(s: Seq<char>, p: int)
    ensures
        pair_spec(s, p) is Ok ==> wf_tree(pair_spec(s, p)->Ok_0.0.1),
    decreases rem(s, p), 0nat,
{
    let w = ws_len(s, p);
    let p1 = p + w;
    match string_spec(s, p1, true) {
        Err(_) => {},
        Ok((k, n)) => {
            let w2 = ws_len(s, p1 + n);
            let q1 = p1 + n + w2;
            if peek_at(s, q1) == Some(':') {
                let w3 = ws_len(s, q1 + 1);
                let q2 = q1 + 1 + w3;
                lemma_value_wf(s, q2);
            }
        },
    }
}

/// Entries that the parser binds into well-formed entries stay well-formed.
proof fn lemma_pairs_loop_wf(s: Seq<char>, p: int, acc: Seq<(Seq<char>, QaTree)>)
    requires
        wf_entries(acc),
    ensures
        pairs_loop_spec(s, p, acc) is Ok ==> wf_entries(pairs_loop_spec(s, p, acc)->Ok_0.0),
    decreases rem(s, p), 1nat,
{
    lemma_pair_wf(s, p);
    match pair_spec(s, p) {
        Err(_) => {},
        Ok((kv, n)) => {
            lemma_insert_wf(acc, kv.0, kv.1);
            let acc2 = entries_insert(acc, kv.0, kv.1);
            let w = ws_len(s, p + n);
            let q1 = p + n + w;
            match peek_at(s, q1) {
                None => {},
                Some(c) => {
                    if c == ',' {
                        let w2 = ws_len(s, q1 + 1);
                        let q2 = q1 + 1 + w2;
                        if peek_at(s, q2) != Some('}') {
                            lemma_pairs_loop_wf(s, q2, acc2);
                        }
                    }
                },
            }
        },
    }
}

/// Every object body that the parser reads is well-formed.
proof fn lemma_pairs_wf(s: Seq<char>, p: int)
    ensures
        pairs_spec(s, p) is Ok ==> wf_entries(pairs_spec(s, p)->Ok_0.0),
    decreases rem(s, p), 2nat,
{
    let w = ws_len(s, p);
    if peek_at(s, p + w) != Some('}') {
        lemma_pairs_loop_wf(s, p + w, Seq::empty());
    }
}

/// Every key occurs once: whatever `Qa::parse` accepts is well-formed
/// metadata, at every depth (a repeated key keeps its first place and its
/// last value).
pub proof fn lemma_parse_well_formed(s: Seq<char>)
    ensures
        qa_spec(s) is Ok ==> wf_entries(qa_spec(s)->Ok_0),
{
    let w: int = ws_len(s, 0) as int;
    lemma_pairs_wf(s, w + 1);
}

/// Parse, format, parse again: the second parse gives what the first gave.
pub proof fn lemma_reparse_formatted(s: Seq<char>)
    requires
        qa_spec(s) is Ok,
    ensures
        qa_spec(fmt_qa(qa_spec(s)->Ok_0)) == qa_spec(s),
{
    lemma_parse_well_formed(s);
    lemma_format_then_parse(qa_spec(s)->Ok_0);
}

} // verus!
