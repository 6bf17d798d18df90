//! The last steps of the `innerText` getter: joining the collected items,
//! strings and required line break counts, into the element's text.
use vstd::prelude::*;
use vstd::string::StringExecFns;

verus! {

/// An item of the rendered text collection: a string, or a count of line
/// breaks required between the strings around it.
#[derive(Clone, Debug, PartialEq, Eq)]
pub enum InnerOrOuterTextItem {
    Text(String),
    RequiredLineBreakCount(usize),
}

/// The model of an item: a string, or a count of line breaks.
pub enum TextItem {
    Text(Seq<char>),
    LineBreaks(nat),
}

impl View for InnerOrOuterTextItem {
    type V = TextItem;

    open spec fn view(&self) -> TextItem {
        match self {
            InnerOrOuterTextItem::Text(s) => TextItem::Text(s@),
            InnerOrOuterTextItem::RequiredLineBreakCount(c) => TextItem::LineBreaks(*c as nat),
        }
    }
}

/// The models of a list of items.
pub open spec fn items_view(items: Seq<InnerOrOuterTextItem>) -> Seq<TextItem> {
    items.map_values(|i: InnerOrOuterTextItem| i@)
}

/// The text joined so far and the line breaks owed before the next string.
pub struct JoinState {
    pub out: Seq<char>,
    pub pending: nat,
}

/// `n` line feeds.
pub open spec fn newlines(n: nat) -> Seq<char> {
    Seq::new(n, |i: int| '\n')
}

/// One item of the join: a non-empty string is appended after the line
/// breaks owed; a count raises the line breaks owed to it, unless nothing
/// has been written yet.
pub open spec fn join_step(st: JoinState, item: TextItem) -> JoinState {
    match item {
        TextItem::Text(s) => if s.len() == 0 {
            st
        } else {
            JoinState { out: st.out + newlines(st.pending) + s, pending: 0 }
        },
        TextItem::LineBreaks(c) => if st.out.len() == 0 {
            st
        } else {
            JoinState { pending: if c > st.pending { c } else { st.pending }, ..st }
        },
    }
}

/// The join of `items` from state `st`.
pub open spec fn join_from(st: JoinState, items: Seq<TextItem>) -> JoinState
    decreases items.len(),
{
    if items.len() == 0 {
        st
    } else {
        join_step(join_from(st, items.drop_last()), items.last())
    }
}

/// The text that the items join into: line breaks owed at the end are
/// dropped.
pub open spec fn joined_text(items: Seq<TextItem>) -> Seq<char> {
    join_from(JoinState { out: Seq::empty(), pending: 0 }, items).out
}

/// Joins the collected items into the element's text (see `joined_text`).
pub fn join_text_items(items: &Vec<InnerOrOuterTextItem>) -> (r: String)
    ensures
        r@ == joined_text(items_view(items@)),
{
    let mut output = String::new();
    let mut max_req_line_break_count: usize = 0;
    let mut wrote = false;
    let mut i: usize = 0;
    proof {
        assert(output@ =~= Seq::<char>::empty());
    }
    while i < items.len()
        invariant
            i <= items.len(),
            wrote == (output@.len() > 0),
            ({
                let st = join_from(JoinState { out: Seq::empty(), pending: 0 }, items_view(items@.take(i as int)));
                st.out == output@ && st.pending == max_req_line_break_count
            }),
        decreases items.len() - i,
    {
        proof {
            assert(items_view(items@.take(i + 1)).drop_last() =~= items_view(items@.take(i as int)));
            assert(items_view(items@.take(i + 1)).last() == items@[i as int]@);
        }
        match &items[i] {
            InnerOrOuterTextItem::Text(s) => {
                if s.as_str().unicode_len() > 0 {
                    let ghost before = output@;
                    let mut k: usize = 0;
                    while k < max_req_line_break_count
                        invariant
                            k <= max_req_line_break_count,
                            output@ == before + newlines(k as nat),
                        decreases max_req_line_break_count - k,
                    {
                        output.append("\n");
                        k = k + 1;
                        proof {
                            reveal_strlit("\n");
                            assert(output@ =~= before + newlines(k as nat));
                        }
                    }
                    max_req_line_break_count = 0;
                    output.append(s.as_str());
                    wrote = true;
                }
            },
            InnerOrOuterTextItem::RequiredLineBreakCount(count) => {
                if wrote {
                    if *count > max_req_line_break_count {
                        max_req_line_break_count = *count;
                    }
                }
            },
        }
        i = i + 1;
    }
    proof {
        assert(items@.take(items.len() as int) =~= items@);
    }
    output
}

/// Whether an item writes nothing: a count, or an empty string.
pub open spec fn writes_nothing(item: TextItem) -> bool {
    match item {
        TextItem::Text(s) => s.len() == 0,
        TextItem::LineBreaks(_) => true,
    }
}

/// Joining in two parts is joining the second from where the first ended.
pub proof fn lemma_join_concat(st: JoinState, a: Seq<TextItem>, b: Seq<TextItem>)
    ensures
        join_from(st, a + b) == join_from(join_from(st, a), b),
    decreases b.len(),
{
    if b.len() == 0 {
        assert(a + b =~= a);
    } else {
        assert((a + b).drop_last() =~= a + b.drop_last());
        lemma_join_concat(st, a, b.drop_last());
    }
}

/// Items that write nothing leave the written text as it is.
proof fn lemma_nothing_written(st: JoinState, items: Seq<TextItem>)
    requires
        forall|i: int| 0 <= i < items.len() ==> writes_nothing(#[trigger] items[i]),
    ensures
        join_from(st, items).out == st.out,
        st.out.len() == 0 ==> join_from(st, items) == st,
    decreases items.len(),
{
    if items.len() > 0 {
        lemma_nothing_written(st, items.drop_last());
        assert(writes_nothing(items[items.len() - 1]));
    }
}

/// Line breaks required after the last string are dropped.
pub proof fn lemma_trailing_line_breaks_dropped(items: Seq<TextItem>, tail: Seq<TextItem>)
    requires
        forall|i: int| 0 <= i < tail.len() ==> writes_nothing(#[trigger] tail[i]),
    ensures
        joined_text(items + tail) == joined_text(items),
{
    let st0 = JoinState { out: Seq::empty(), pending: 0 };
    lemma_join_concat(st0, items, tail);
    lemma_nothing_written(join_from(st0, items), tail);
}

/// Line breaks required before the first string are dropped.
pub proof fn lemma_leading_line_breaks_dropped(head: Seq<TextItem>, items: Seq<TextItem>)
    requires
        forall|i: int| 0 <= i < head.len() ==> writes_nothing(#[trigger] head[i]),
    ensures
        joined_text(head + items) == joined_text(items),
{
    let st0 = JoinState { out: Seq::empty(), pending: 0 };
    lemma_join_concat(st0, head, items);
    lemma_nothing_written(st0, head);
}

/// Between two strings, a run of required line break counts gives as many
/// line breaks as its largest count.
pub proof fn lemma_line_breaks_between_strings(a: Seq<char>, c1: nat, c2: nat, b: Seq<char>)
    requires
        a.len() > 0,
        b.len() > 0,
    ensures
        joined_text(seq![TextItem::Text(a), TextItem::LineBreaks(c1), TextItem::LineBreaks(c2), TextItem::Text(b)])
            == a + newlines(if c1 > c2 { c1 } else { c2 }) + b,
{
    let items = seq![TextItem::Text(a), TextItem::LineBreaks(c1), TextItem::LineBreaks(c2), TextItem::Text(b)];
    let st0 = JoinState { out: Seq::empty(), pending: 0 };
    let m = if c1 > c2 { c1 } else { c2 };
    assert(items.take(0) =~= Seq::<TextItem>::empty());
    assert(items.take(1).drop_last() =~= items.take(0));
    assert(items.take(2).drop_last() =~= items.take(1));
    assert(items.take(3).drop_last() =~= items.take(2));
    assert(items.drop_last() =~= items.take(3));
    let s1 = join_from(st0, items.take(1));
    assert(s1.out =~= a && s1.pending == 0) by {
        assert(items.take(1).last() == TextItem::Text(a));
        assert(join_from(st0, items.take(0)) == st0);
        assert(newlines(0) =~= Seq::<char>::empty());
        assert(Seq::<char>::empty() + newlines(0) + a =~= a);
    }
    let s2 = join_from(st0, items.take(2));
    assert(items.take(2).last() == TextItem::LineBreaks(c1));
    assert(s2.out == a && s2.pending == c1);
    assert(items.take(3).last() == TextItem::LineBreaks(c2));
    let s3 = join_from(st0, items.take(3));
    assert(s3.out == a && s3.pending == m);
}

} // verus!
