//! Writing JSONqa values back to text.

use vstd::prelude::*;

use crate::chars::{char_is_whitespace, is_white_space, str_chars, string_from_chars};
use crate::qa_grammar::{
    escape, escape_char, fmt_entries, fmt_items, fmt_string, fmt_value, is_special,
    needs_quoting_spec,
};
use crate::qa_parse::is_special_char;
use crate::qa_value::{
    entries_tree, items_tree, lemma_entries_tree, lemma_items_tree, value_tree, QaValue,
};

verus! {

/// Escaping a concatenation escapes each part.
pub proof fn lemma_escape_concat(a: Seq<char>, b: Seq<char>)
    ensures
        escape(a + b) == escape(a) + escape(b),
    decreases a.len(),
{
    if a.len() == 0 {
        assert(a + b =~= b);
        assert(escape(a) + escape(b) =~= escape(b));
    } else {
        let t = a.subrange(1, a.len() as int);
        lemma_escape_concat(t, b);
        assert((a + b).subrange(1, (a + b).len() as int) =~= t + b);
        assert(escape(a + b) =~= escape_char(a[0]) + (escape(t) + escape(b)));
    }
}

/// Escaping a single character.
pub proof fn lemma_escape_one(c: char)
    ensures
        escape(seq![c]) == escape_char(c),
{
    let s = seq![c];
    assert(s[0] == c);
    assert(s.subrange(1, 1) =~= Seq::<char>::empty());
    assert(escape(Seq::<char>::empty()) == Seq::<char>::empty());
    assert(escape_char(c) + Seq::<char>::empty() =~= escape_char(c));
}

/// Check if a string needs quoting (contains whitespace or special chars).
pub fn needs_quoting(s: &str) -> (r: bool)
    ensures
        r == needs_quoting_spec(s@),
{
    let chars = str_chars(s);
    if chars.len() == 0 {
        return true;
    }
    let mut i: usize = 0;
    while i < chars.len()
        invariant
            i <= chars.len(),
            chars@ == s@,
            chars@.len() > 0,
            forall|j: int| 0 <= j < i ==> !(is_white_space(#[trigger] chars@[j]) || is_special(chars@[j])),
        decreases chars.len() - i,
    {
        let c = chars[i];
        if char_is_whitespace(c) || is_special_char(c) {
            assert(is_white_space(s@[i as int]) || is_special(s@[i as int]));
            return true;
        }
        i = i + 1;
    }
    false
}

/// Appends `c` as written inside double quotes.
fn write_escaped_char(c: char, out: &mut Vec<char>)
    ensures
        final(out)@ == old(out)@ + escape_char(c),
{
    if c == '"' {
        out.push('\\');
        out.push('"');
        assert(final(out)@ =~= old(out)@ + escape_char(c));
    } else if c == '\\' {
        out.push('\\');
        out.push('\\');
        assert(final(out)@ =~= old(out)@ + escape_char(c));
    } else {
        out.push(c);
        assert(final(out)@ =~= old(out)@ + escape_char(c));
    }
}

/// Appends a string, quoting it if necessary.
pub fn write_string(s: &str, out: &mut Vec<char>)
    ensures
        final(out)@ == old(out)@ + fmt_string(s@),
{
    let chars = str_chars(s);
    if needs_quoting(s) {
        // Use double quotes
        out.push('"');
        let ghost start = out@;
        let mut i: usize = 0;
        assert(chars@.take(0) =~= Seq::<char>::empty());
        assert(start + escape(Seq::<char>::empty()) =~= start);
        while i < chars.len()
            invariant
                i <= chars.len(),
                chars@ == s@,
                start == old(out)@ + seq!['"'],
                out@ == start + escape(chars@.take(i as int)),
            decreases chars.len() - i,
        {
            let c = chars[i];
            proof {
                lemma_escape_concat(chars@.take(i as int), seq![c]);
                lemma_escape_one(c);
                assert(chars@.take(i as int) + seq![c] =~= chars@.take(i + 1));
            }
            write_escaped_char(c, out);
            i = i + 1;
        }
        out.push('"');
        assert(chars@.take(chars.len() as int) =~= chars@);
        assert(final(out)@ =~= old(out)@ + fmt_string(s@));
    } else {
        let mut i: usize = 0;
        let ghost start = out@;
        while i < chars.len()
            invariant
                i <= chars.len(),
                chars@ == s@,
                start == old(out)@,
                out@ == start + chars@.take(i as int),
            decreases chars.len() - i,
        {
            out.push(chars[i]);
            assert(chars@.take(i + 1) =~= chars@.take(i as int).push(chars@[i as int]));
            i = i + 1;
        }
        assert(chars@.take(chars.len() as int) =~= chars@);
    }
}

/// Appends a value as written.
pub fn write_value(v: &QaValue, out: &mut Vec<char>)
    ensures
        final(out)@ == old(out)@ + fmt_value(v@),
    decreases v,
{
    match v {
        QaValue::String(s) => write_string(s.as_str(), out),
        QaValue::Array(arr) => {
            out.push('[');
            let ghost start = out@;
            let ghost t = items_tree(arr@);
            proof {
                lemma_items_tree(arr@);
            }
            let mut i: usize = 0;
            assert(start + fmt_items(t.take(0)) =~= start);
            while i < arr.len()
                invariant
                    i <= arr.len(),
                    *v == QaValue::Array(*arr),
                    t == items_tree(arr@),
                    t.len() == arr.len(),
                    forall|j: int| 0 <= j < arr.len() ==> #[trigger] t[j] == value_tree(arr@[j]),
                    start == old(out)@ + seq!['['],
                    out@ == start + fmt_items(t.take(i as int)),
                decreases arr.len() - i,
            {
                proof {
                    lemma_fmt_items_snoc(t.take(i as int), t[i as int]);
                    assert(t.take(i as int).push(t[i as int]) =~= t.take(i + 1));
                }
                if i > 0 {
                    out.push(',');
                }
                proof {
                    assert(decreases_to!(*v => (*v)->Array_0));
                    assert((*v)->Array_0 == *arr);
                    assert(decreases_to!(*arr => arr@));
                    assert(decreases_to!(arr@ => arr@[i as int]));
                }
                write_value(&arr[i], out);
                proof {
                    if i > 0 {
                        assert(out@ =~= start + (fmt_items(t.take(i as int)) + seq![','] + fmt_value(t[i as int])));
                    } else {
                        assert(out@ =~= start + fmt_value(t[i as int]));
                    }
                }
                i = i + 1;
            }
            out.push(']');
            assert(t.take(arr.len() as int) =~= t);
            assert(final(out)@ =~= old(out)@ + fmt_value(v@));
        },
        QaValue::Object(obj) => {
            out.push('{');
            let ghost start = out@;
            let ghost t = entries_tree(obj@);
            proof {
                lemma_entries_tree(obj@);
            }
            let mut i: usize = 0;
            assert(start + fmt_entries(t.take(0)) =~= start);
            while i < obj.len()
                invariant
                    i <= obj.len(),
                    *v == QaValue::Object(*obj),
                    t == entries_tree(obj@),
                    t.len() == obj.len(),
                    forall|j: int| 0 <= j < obj.len() ==> #[trigger] t[j] == (obj@[j].0@, value_tree(obj@[j].1)),
                    start == old(out)@ + seq!['{'],
                    out@ == start + fmt_entries(t.take(i as int)),
                decreases obj.len() - i,
            {
                proof {
                    lemma_fmt_entries_snoc(t.take(i as int), t[i as int]);
                    assert(t.take(i as int).push(t[i as int]) =~= t.take(i + 1));
                }
                if i > 0 {
                    out.push(',');
                }
                let ghost before = out@;
                write_string(obj[i].0.as_str(), out);
                out.push(':');
                proof {
                    assert(decreases_to!(*v => (*v)->Object_0));
                    assert((*v)->Object_0 == *obj);
                    assert(decreases_to!(*obj => obj@));
                    assert(decreases_to!(obj@ => obj@[i as int]));
                    assert(decreases_to!(obj@[i as int] => obj@[i as int].1));
                }
                write_value(&obj[i].1, out);
                proof {
                    let e = t[i as int];
                    if i > 0 {
                        assert(out@ =~= start + (fmt_entries(t.take(i as int)) + seq![','] + (fmt_string(e.0) + seq![':'] + fmt_value(e.1))));
                    } else {
                        assert(out@ =~= start + (fmt_string(e.0) + seq![':'] + fmt_value(e.1)));
                    }
                }
                i = i + 1;
            }
            out.push('}');
            assert(t.take(obj.len() as int) =~= t);
            assert(final(out)@ =~= old(out)@ + fmt_value(v@));
        },
    }
}

/// Writing one more value after some values.
pub proof fn lemma_fmt_items_snoc(items: Seq<crate::qa_value::QaTree>, v: crate::qa_value::QaTree)
    ensures
        fmt_items(items.push(v)) == if items.len() == 0 {
            fmt_value(v)
        } else {
            fmt_items(items) + seq![','] + fmt_value(v)
        },
    decreases items.len(),
{
    if items.len() == 0 {
        assert(items.push(v) =~= seq![v]);
    } else {
        let t = items.subrange(1, items.len() as int);
        assert(items.push(v).subrange(1, items.len() as int + 1) =~= t.push(v));
        lemma_fmt_items_snoc(t, v);
        if items.len() == 1 {
            assert(t =~= Seq::<crate::qa_value::QaTree>::empty());
            assert(t.push(v) =~= seq![v]);
        } else {
            assert(fmt_items(items.push(v)) =~= fmt_value(items[0]) + seq![','] + (fmt_items(t) + seq![',']
                + fmt_value(v)));
        }
    }
}

/// Writing one more entry after some entries.
pub proof fn lemma_fmt_entries_snoc(
    m: Seq<(Seq<char>, crate::qa_value::QaTree)>,
    e: (Seq<char>, crate::qa_value::QaTree),
)
    ensures
        fmt_entries(m.push(e)) == if m.len() == 0 {
            fmt_string(e.0) + seq![':'] + fmt_value(e.1)
        } else {
            fmt_entries(m) + seq![','] + (fmt_string(e.0) + seq![':'] + fmt_value(e.1))
        },
    decreases m.len(),
{
    if m.len() == 0 {
        assert(m.push(e) =~= seq![e]);
    } else {
        let t = m.subrange(1, m.len() as int);
        assert(m.push(e).subrange(1, m.len() as int + 1) =~= t.push(e));
        lemma_fmt_entries_snoc(t, e);
        if m.len() == 1 {
            assert(t =~= Seq::<(Seq<char>, crate::qa_value::QaTree)>::empty());
            assert(t.push(e) =~= seq![e]);
        } else {
            assert(fmt_entries(m.push(e)) =~= fmt_string(m[0].0) + seq![':'] + fmt_value(m[0].1) + seq![',']
                + (fmt_entries(t) + seq![','] + (fmt_string(e.0) + seq![':'] + fmt_value(e.1))));
        }
    }
}

/// Format a string for output, quoting if necessary.
pub fn format_string(s: &str) -> (r: String)
    ensures
        r@ == fmt_string(s@),
{
    let mut out: Vec<char> = Vec::new();
    write_string(s, &mut out);
    assert(out@ =~= fmt_string(s@));
    string_from_chars(out.as_slice())
}

/// Format a value for output.
pub fn format_value(v: &QaValue) -> (r: String)
    ensures
        r@ == fmt_value(v@),
{
    let mut out: Vec<char> = Vec::new();
    write_value(v, &mut out);
    assert(out@ =~= fmt_value(v@));
    string_from_chars(out.as_slice())
}

impl QaValue {
    /// The value as written in JSONqa syntax.
    pub fn to_string(&self) -> (r: String)
        ensures
            r@ == fmt_value(self@),
    {
        format_value(self)
    }
}

} // verus!
