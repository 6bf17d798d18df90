//! The rendered text collection steps of the `innerText` getter, over the
//! properties of the DOM nodes that they read: node and element kinds,
//! visibility, display, floating or absolute positioning, and the text of
//! each text node after the white-space and text-transform rules, with and
//! without its leading white space.
use vstd::prelude::*;
use vstd::string::StringExecFns;

use crate::chars::string_from_chars;
use crate::inner_text::{items_view, join_text_items, joined_text, InnerOrOuterTextItem, TextItem};

verus! {

/// The elements that the collection tells apart.
#[derive(Clone, Copy, Debug, PartialEq, Eq, Structural)]
pub enum TextElementKind {
    Canvas,
    Image,
    IFrame,
    Object,
    Input,
    TextArea,
    Media,
    OptGroup,
    Option,
    Select,
    Paragraph,
    Br,
    Other,
}

/// The values of `display` that the collection tells apart; `Hidden` is
/// `display: none`.
#[derive(Clone, Copy, Debug, PartialEq, Eq, Structural)]
pub enum TextDisplay {
    Hidden,
    Block,
    Table,
    TableRow,
    TableCell,
    TableCaption,
    InlineBlock,
    InlineFlex,
    InlineGrid,
    Other,
}

/// What the collection reads of an element's computed style.
#[derive(Clone, Copy, Debug, PartialEq, Eq, Structural)]
pub struct TextStyle {
    /// `visibility` is `visible`.
    pub visible: bool,
    pub display: TextDisplay,
    /// The element is absolutely positioned or floats.
    pub out_of_flow: bool,
    /// `white-space-collapse` is `preserve`.
    pub preserve_white_space: bool,
}

/// The parent element of a text node.
#[derive(Clone, Copy, Debug)]
pub struct TextParent {
    pub kind: TextElementKind,
    /// The parent's own parent is a `select` element.
    pub parent_is_select: bool,
    /// The parent's style, where it has been styled.
    pub style: Option<TextStyle>,
}

/// A DOM node as the collection reads it.
#[derive(Debug)]
pub enum RenderedNode {
    /// A node that is not connected, or that is neither an element nor
    /// text.
    Skipped,
    /// A text node: its parent, its text content, and its text after the
    /// white-space and text-transform rules of its parent, with and without
    /// its leading white space.
    Text { parent: Option<TextParent>, content: String, collapsed: String, collapsed_trimmed: String },
    /// An element, its style where it has been styled, and its children.
    Element { kind: TextElementKind, style: Option<TextStyle>, children: Vec<RenderedNode> },
}

/// What the collection carries from node to node.
#[derive(Clone, Copy, Debug, PartialEq, Eq, Structural)]
pub struct RenderedTextCollectionState {
    /// No table row has been seen yet, so none is preceded by a line feed.
    pub first_table_row: bool,
    /// No cell of the current row has been seen yet, so none is preceded
    /// by a tab.
    pub first_table_cell: bool,
    /// Inside a table, only cells and captions render text.
    pub within_table: bool,
    /// Leading white space of the next text may be dropped.
    pub may_start_with_whitespace: bool,
    /// A trailing white space was dropped and is put back, as one space,
    /// before the next text that does not start with white space.
    pub did_truncate_trailing_white_space: bool,
    /// Inside a table cell or caption.
    pub within_table_content: bool,
}

impl Default for RenderedTextCollectionState {
    fn default() -> (r: Self)
        ensures
            r == initial_state(),
    {
        RenderedTextCollectionState {
            first_table_row: true,
            first_table_cell: true,
            within_table: false,
            may_start_with_whitespace: true,
            did_truncate_trailing_white_space: false,
            within_table_content: false,
        }
    }
}

/// The state before the first node.
pub open spec fn initial_state() -> RenderedTextCollectionState {
    RenderedTextCollectionState {
        first_table_row: true,
        first_table_cell: true,
        within_table: false,
        may_start_with_whitespace: true,
        did_truncate_trailing_white_space: false,
        within_table_content: false,
    }
}

/// Elements whose content is not rendered as text.
pub open spec fn is_replaced(k: TextElementKind) -> bool {
    ||| k is Canvas
    ||| k is Image
    ||| k is IFrame
    ||| k is Object
    ||| k is Input
    ||| k is TextArea
    ||| k is Media
}

/// The inline-level boxes that keep white space around them.
pub open spec fn is_inline_level_box(d: TextDisplay) -> bool {
    d is InlineBlock || d is InlineFlex || d is InlineGrid
}

/// ASCII white space: space, tab, line feed, form feed, carriage return.
pub open spec fn is_ascii_white_space(c: char) -> bool {
    c == ' ' || c == '\t' || c == '\n' || c == '\x0C' || c == '\r'
}

pub open spec fn text_item(s: Seq<char>) -> Seq<TextItem> {
    seq![TextItem::Text(s)]
}

/// Whether a text node under `parent` renders nothing, whatever its text.
pub open spec fn text_is_hidden(parent: TextParent, st: RenderedTextCollectionState) -> bool {
    ||| is_replaced(parent.kind)
    ||| (parent.kind is OptGroup && !parent.parent_is_select)
    ||| parent.kind is Select
    ||| (st.within_table && !st.within_table_content)
    ||| match parent.style {
        None => true,
        Some(style) => !style.visible || (style.display is Hidden && !(parent.kind is OptGroup
            || parent.kind is Option)),
    }
}

/// The items of a rendered text node whose parent has `style`: the text,
/// without its leading white space where the previous text allows, and
/// without a trailing white space that is put back before the next text.
pub open spec fn text_items(
    style: TextStyle,
    collapsed: Seq<char>,
    trimmed: Seq<char>,
    st: RenderedTextCollectionState,
) -> (Seq<TextItem>, RenderedTextCollectionState) {
    let preserve = style.preserve_white_space;
    let trim = !preserve && (st.may_start_with_whitespace || is_inline_level_box(style.display));
    let text = if trim {
        trimmed
    } else {
        collapsed
    };
    let first_ws = text.len() > 0 && is_ascii_white_space(text[0]);
    let final_ws = text.len() > 0 && is_ascii_white_space(text.last());
    let lead = if st.did_truncate_trailing_white_space && !first_ws {
        text_item(seq![' '])
    } else {
        Seq::empty()
    };
    if text.len() == 0 {
        (lead, st)
    } else if final_ws && !preserve {
        (
            lead + text_item(text.drop_last()),
            RenderedTextCollectionState {
                may_start_with_whitespace: false,
                did_truncate_trailing_white_space: true,
                ..st
            },
        )
    } else {
        (
            lead + text_item(text),
            RenderedTextCollectionState {
                may_start_with_whitespace: final_ws,
                did_truncate_trailing_white_space: false,
                ..st
            },
        )
    }
}

/// The items that the children of an element give, in order, and the state
/// after them.
pub open spec fn collect_all(nodes: Seq<RenderedNode>, st: RenderedTextCollectionState) -> (
    Seq<TextItem>,
    RenderedTextCollectionState,
)
    decreases nodes, 0nat,
{
    if nodes.len() == 0 {
        (Seq::empty(), st)
    } else {
        let (a, s1) = collect_all(nodes.drop_last(), st);
        let (b, s2) = collect(nodes.last(), s1);
        (a + b, s2)
    }
}

/// A line break count before and after an element's items, and the state
/// after it.
pub open spec fn breaks(n: nat, st: RenderedTextCollectionState) -> (Seq<TextItem>, RenderedTextCollectionState) {
    if n > 0 {
        (
            seq![TextItem::LineBreaks(n)],
            RenderedTextCollectionState {
                did_truncate_trailing_white_space: false,
                may_start_with_whitespace: true,
                ..st
            },
        )
    } else {
        (Seq::empty(), st)
    }
}

/// What opening an element with display `d` gives before its content: the
/// items, the state, and the line break count around the element.
pub open spec fn open_display(d: TextDisplay, out_of_flow: bool, st: RenderedTextCollectionState) -> (
    Seq<TextItem>,
    RenderedTextCollectionState,
    nat,
) {
    let n: nat = if out_of_flow {
        1
    } else {
        0
    };
    match d {
        TextDisplay::Table => (Seq::empty(), RenderedTextCollectionState { within_table: true, ..st }, 1),
        TextDisplay::TableCell => {
            let (p, s) = if !st.first_table_cell {
                (text_item(seq!['\t']), RenderedTextCollectionState { did_truncate_trailing_white_space: false, ..st })
            } else {
                (Seq::empty(), st)
            };
            (p, RenderedTextCollectionState { first_table_cell: false, within_table_content: true, ..s }, n)
        },
        TextDisplay::TableRow => {
            let (p, s) = if !st.first_table_row {
                (text_item(seq!['\n']), RenderedTextCollectionState { did_truncate_trailing_white_space: false, ..st })
            } else {
                (Seq::empty(), st)
            };
            (p, RenderedTextCollectionState { first_table_row: false, first_table_cell: true, ..s }, n)
        },
        TextDisplay::Block => (Seq::empty(), st, 1),
        TextDisplay::TableCaption => (Seq::empty(), RenderedTextCollectionState { within_table_content: true, ..st }, 1),
        TextDisplay::InlineBlock | TextDisplay::InlineFlex | TextDisplay::InlineGrid => if st.did_truncate_trailing_white_space {
            (
                text_item(seq![' ']),
                RenderedTextCollectionState {
                    did_truncate_trailing_white_space: false,
                    may_start_with_whitespace: true,
                    ..st
                },
                n,
            )
        } else {
            (Seq::empty(), st, n)
        },
        _ => (Seq::empty(), st, n),
    }
}

/// What closing an element with display `d` does to the state.
pub open spec fn close_display(d: TextDisplay, st: RenderedTextCollectionState) -> RenderedTextCollectionState {
    match d {
        TextDisplay::InlineBlock | TextDisplay::InlineFlex | TextDisplay::InlineGrid => RenderedTextCollectionState {
            did_truncate_trailing_white_space: false,
            may_start_with_whitespace: false,
            ..st
        },
        TextDisplay::Table => RenderedTextCollectionState { within_table: false, ..st },
        TextDisplay::TableCell | TextDisplay::TableCaption => RenderedTextCollectionState {
            within_table_content: false,
            ..st
        },
        _ => st,
    }
}

/// What a replaced element gives in place of its content: a space put
/// back unless it is a block, and no leading white space dropped after it.
pub open spec fn replaced_body(d: TextDisplay, st: RenderedTextCollectionState) -> (Seq<TextItem>, RenderedTextCollectionState) {
    let (p, s) = if !(d is Block) && st.did_truncate_trailing_white_space {
        (text_item(seq![' ']), RenderedTextCollectionState { did_truncate_trailing_white_space: false, ..st })
    } else {
        (Seq::empty(), st)
    };
    (p, RenderedTextCollectionState { may_start_with_whitespace: false, ..s })
}

/// The line break count around an element of kind `k`: two around a
/// paragraph, one around an option or option group, else what its display
/// gave.
pub open spec fn element_breaks(k: TextElementKind, from_display: nat) -> nat {
    if k is Paragraph {
        2
    } else if k is Option || k is OptGroup {
        1
    } else {
        from_display
    }
}

/// The rendered text collection steps of one node: its items and the state
/// after it.
pub open spec fn collect(node: RenderedNode, st: RenderedTextCollectionState) -> (
    Seq<TextItem>,
    RenderedTextCollectionState,
)
    decreases node, 1nat,
{
    match node {
        RenderedNode::Skipped => (Seq::empty(), st),
        RenderedNode::Text { parent, content, collapsed, collapsed_trimmed } => match parent {
            None => (text_item(content@), st),
            Some(p) => if text_is_hidden(p, st) {
                (Seq::empty(), st)
            } else {
                text_items(p.style->0, collapsed@, collapsed_trimmed@, st)
            },
        },
        RenderedNode::Element { kind, style, children } => if kind is Br {
            (
                text_item(seq!['\n']),
                RenderedTextCollectionState {
                    did_truncate_trailing_white_space: false,
                    may_start_with_whitespace: true,
                    ..st
                },
            )
        } else {
            match style {
                None => (Seq::empty(), st),
                Some(style) => if !style.visible {
                    collect_all(children@, st)
                } else {
                    let d = style.display;
                    let (pre, s1, n1) = open_display(d, style.out_of_flow, st);
                    let n = element_breaks(kind, n1);
                    let (open, s2) = breaks(n, s1);
                    let (body, s3) = if is_replaced(kind) {
                        replaced_body(d, s2)
                    } else {
                        collect_all(children@, s2)
                    };
                    let s4 = close_display(d, s3);
                    let (close, s5) = breaks(n, s4);
                    (pre + open + body + close, s5)
                },
            }
        },
    }
}

/// The text of an element whose children are `children`: the items of
/// each child, in order, joined.
pub open spec fn inner_text(children: Seq<RenderedNode>) -> Seq<char> {
    joined_text(collect_all(children, initial_state()).0)
}


/// Whether `c` is ASCII white space.
fn ascii_white_space(c: char) -> (r: bool)
    ensures
        r == is_ascii_white_space(c),
{
    c == ' ' || c == '\t' || c == '\n' || c == '\x0C' || c == '\r'
}

/// A one-string item.
fn text_of(s: &str) -> (r: Vec<InnerOrOuterTextItem>)
    ensures
        items_view(r@) == text_item(s@),
{
    let r = vec![InnerOrOuterTextItem::Text(String::from_str(s))];
    proof {
        assert(items_view(r@) =~= text_item(s@));
    }
    r
}

/// A one-character item.
fn char_item(c: char) -> (r: Vec<InnerOrOuterTextItem>)
    ensures
        items_view(r@) == text_item(seq![c]),
{
    let v = vec![c];
    let r = vec![InnerOrOuterTextItem::Text(string_from_chars(v.as_slice()))];
    proof {
        assert(v@ =~= seq![c]);
        assert(items_view(r@) =~= text_item(seq![c]));
    }
    r
}

/// The items of a rendered text node whose parent has `style` (see
/// `text_items`).
fn text_node_steps(
    style: TextStyle,
    collapsed: &String,
    trimmed: &String,
    state: &mut RenderedTextCollectionState,
) -> (items: Vec<InnerOrOuterTextItem>)
    ensures
        (items_view(items@), *final(state)) == text_items(style, collapsed@, trimmed@, *old(state)),
{
    let preserve = style.preserve_white_space;
    let is_inline = match style.display {
        TextDisplay::InlineBlock | TextDisplay::InlineFlex | TextDisplay::InlineGrid => true,
        _ => false,
    };
    let trim = !preserve && (state.may_start_with_whitespace || is_inline);
    let text: &str = if trim {
        trimmed.as_str()
    } else {
        collapsed.as_str()
    };
    let n = text.unicode_len();
    let first_ws = n > 0 && ascii_white_space(text.get_char(0));
    let final_ws = n > 0 && ascii_white_space(text.get_char(n - 1));
    let mut items: Vec<InnerOrOuterTextItem> = Vec::new();
    proof {
        assert(items_view(items@) =~= Seq::<TextItem>::empty());
    }
    if state.did_truncate_trailing_white_space && !first_ws {
        items = char_item(' ');
    }
    let ghost lead = items_view(items@);
    if n > 0 {
        let mut last = if final_ws && !preserve {
            state.may_start_with_whitespace = false;
            state.did_truncate_trailing_white_space = true;
            text_of(text.substring_char(0, n - 1))
        } else {
            state.may_start_with_whitespace = final_ws;
            state.did_truncate_trailing_white_space = false;
            text_of(text)
        };
        let ghost tail = items_view(last@);
        items.append(&mut last);
        proof {
            assert(text@.subrange(0, n - 1) =~= text@.drop_last());
            assert(items_view(items@) =~= lead + tail);
        }
    }
    items
}

/// The rendered text collection steps of one node: its items, with the
/// state carried on (see `collect`).
pub fn rendered_text_collection_steps(node: &RenderedNode, state: &mut RenderedTextCollectionState) -> (items: Vec<
    InnerOrOuterTextItem,
>)
    ensures
        (items_view(items@), *final(state)) == collect(*node, *old(state)),
    decreases node, 1nat,
{
    match node {
        RenderedNode::Skipped => {
            proof {
                assert(items_view(Seq::<InnerOrOuterTextItem>::empty()) =~= Seq::<TextItem>::empty());
            }
            Vec::new()
        },
        RenderedNode::Text { parent, content, collapsed, collapsed_trimmed } => match parent {
            None => text_of(content.as_str()),
            Some(p) => {
                let hidden = match p.kind {
                    TextElementKind::Canvas | TextElementKind::Image | TextElementKind::IFrame
                    | TextElementKind::Object | TextElementKind::Input | TextElementKind::TextArea
                    | TextElementKind::Media | TextElementKind::Select => true,
                    TextElementKind::OptGroup => !p.parent_is_select,
                    _ => false,
                } || (state.within_table && !state.within_table_content) || match p.style {
                    None => true,
                    Some(style) => !style.visible || (match style.display {
                        TextDisplay::Hidden => true,
                        _ => false,
                    } && !match p.kind {
                        TextElementKind::OptGroup | TextElementKind::Option => true,
                        _ => false,
                    }),
                };
                if hidden {
                    proof {
                        assert(items_view(Seq::<InnerOrOuterTextItem>::empty()) =~= Seq::<TextItem>::empty());
                    }
                    Vec::new()
                } else {
                    let style = match p.style {
                        Some(style) => style,
                        None => {
                            proof {
                                assert(false);
                            }
                            return Vec::new();
                        },
                    };
                    text_node_steps(style, collapsed, collapsed_trimmed, state)
                }
            },
        },
        RenderedNode::Element { kind, style, children } => {
            if let TextElementKind::Br = kind {
                state.did_truncate_trailing_white_space = false;
                state.may_start_with_whitespace = true;
                return char_item('\n');
            }
            let style = match style {
                Some(style) => *style,
                None => {
                    proof {
                        assert(items_view(Seq::<InnerOrOuterTextItem>::empty()) =~= Seq::<TextItem>::empty());
                    }
                    return Vec::new();
                },
            };
            if !style.visible {
                return collect_children(children, state);
            }
            element_steps(*kind, style, children, state)
        },
    }
}

/// Opening an element with display `d` (see `open_display`).
fn open_steps(d: TextDisplay, out_of_flow: bool, state: &mut RenderedTextCollectionState) -> (r: (
    Vec<InnerOrOuterTextItem>,
    usize,
))
    ensures
        (items_view(r.0@), *final(state), r.1 as nat) == open_display(d, out_of_flow, *old(state)),
{
    let mut items: Vec<InnerOrOuterTextItem> = Vec::new();
    proof {
        assert(items_view(items@) =~= Seq::<TextItem>::empty());
    }
    let mut n: usize = if out_of_flow {
        1
    } else {
        0
    };
    match d {
        TextDisplay::Table => {
            n = 1;
            state.within_table = true;
        },
        TextDisplay::TableCell => {
            if !state.first_table_cell {
                items = char_item('\t');
                state.did_truncate_trailing_white_space = false;
            }
            state.first_table_cell = false;
            state.within_table_content = true;
        },
        TextDisplay::TableRow => {
            if !state.first_table_row {
                items = char_item('\n');
                state.did_truncate_trailing_white_space = false;
            }
            state.first_table_row = false;
            state.first_table_cell = true;
        },
        TextDisplay::Block => {
            n = 1;
        },
        TextDisplay::TableCaption => {
            n = 1;
            state.within_table_content = true;
        },
        TextDisplay::InlineBlock | TextDisplay::InlineFlex | TextDisplay::InlineGrid => {
            if state.did_truncate_trailing_white_space {
                items = char_item(' ');
                state.did_truncate_trailing_white_space = false;
                state.may_start_with_whitespace = true;
            }
        },
        _ => {},
    }
    (items, n)
}

/// The line break count `n` around an element (see `breaks`).
fn break_steps(n: usize, state: &mut RenderedTextCollectionState) -> (items: Vec<InnerOrOuterTextItem>)
    ensures
        (items_view(items@), *final(state)) == breaks(n as nat, *old(state)),
{
    let mut items: Vec<InnerOrOuterTextItem> = Vec::new();
    if n > 0 {
        items.push(InnerOrOuterTextItem::RequiredLineBreakCount(n));
        state.did_truncate_trailing_white_space = false;
        state.may_start_with_whitespace = true;
    }
    proof {
        assert(items_view(items@) =~= breaks(n as nat, *old(state)).0);
    }
    items
}

/// A replaced element's place in the text (see `replaced_body`).
fn replaced_steps(d: TextDisplay, state: &mut RenderedTextCollectionState) -> (items: Vec<InnerOrOuterTextItem>)
    ensures
        (items_view(items@), *final(state)) == replaced_body(d, *old(state)),
{
    let mut items: Vec<InnerOrOuterTextItem> = Vec::new();
    proof {
        assert(items_view(items@) =~= Seq::<TextItem>::empty());
    }
    let is_block = match d {
        TextDisplay::Block => true,
        _ => false,
    };
    if !is_block && state.did_truncate_trailing_white_space {
        items = char_item(' ');
        state.did_truncate_trailing_white_space = false;
    }
    state.may_start_with_whitespace = false;
    items
}

/// Closing an element with display `d` (see `close_display`).
fn close_steps(d: TextDisplay, state: &mut RenderedTextCollectionState)
    ensures
        *final(state) == close_display(d, *old(state)),
{
    match d {
        TextDisplay::InlineBlock | TextDisplay::InlineFlex | TextDisplay::InlineGrid => {
            state.did_truncate_trailing_white_space = false;
            state.may_start_with_whitespace = false;
        },
        TextDisplay::Table => {
            state.within_table = false;
        },
        TextDisplay::TableCell | TextDisplay::TableCaption => {
            state.within_table_content = false;
        },
        _ => {},
    }
}

/// The items of a visible, styled element other than `br`.
fn element_steps(
    kind: TextElementKind,
    style: TextStyle,
    children: &Vec<RenderedNode>,
    state: &mut RenderedTextCollectionState,
) -> (items: Vec<InnerOrOuterTextItem>)
    requires
        !(kind is Br),
        style.visible,
    ensures
        (items_view(items@), *final(state)) == collect(
            RenderedNode::Element { kind, style: Some(style), children: *children },
            *old(state),
        ),
    decreases children@, 2nat,
{
    let d = style.display;
    let (mut items, n1) = open_steps(d, style.out_of_flow, state);
    let n = match kind {
        TextElementKind::Paragraph => 2,
        TextElementKind::Option | TextElementKind::OptGroup => 1,
        _ => n1,
    };
    let ghost v1 = items_view(items@);
    let mut open = break_steps(n, state);
    let ghost v2 = items_view(open@);
    items.append(&mut open);
    let is_replaced_kind = match kind {
        TextElementKind::Canvas | TextElementKind::Image | TextElementKind::IFrame | TextElementKind::Object
        | TextElementKind::Input | TextElementKind::TextArea | TextElementKind::Media => true,
        _ => false,
    };
    let mut body = if is_replaced_kind {
        replaced_steps(d, state)
    } else {
        collect_children(children, state)
    };
    let ghost v3 = items_view(body@);
    items.append(&mut body);
    close_steps(d, state);
    let mut close = break_steps(n, state);
    let ghost v4 = items_view(close@);
    items.append(&mut close);
    proof {
        assert(items_view(items@) =~= v1 + v2 + v3 + v4);
    }
    items
}

/// The items of the nodes, in order (see `collect_all`).
fn collect_children(nodes: &Vec<RenderedNode>, state: &mut RenderedTextCollectionState) -> (items: Vec<
    InnerOrOuterTextItem,
>)
    ensures
        (items_view(items@), *final(state)) == collect_all(nodes@, *old(state)),
    decreases nodes@, 0nat,
{
    let ghost st0 = *state;
    let mut items: Vec<InnerOrOuterTextItem> = Vec::new();
    let mut i: usize = 0;
    proof {
        assert(items_view(items@) =~= Seq::<TextItem>::empty());
        assert(nodes@.take(0) =~= Seq::<RenderedNode>::empty());
    }
    while i < nodes.len()
        invariant
            i <= nodes.len(),
            (items_view(items@), *state) == collect_all(nodes@.take(i as int), st0),
        decreases nodes.len() - i,
    {
        let ghost before = items_view(items@);
        let mut more = rendered_text_collection_steps(&nodes[i], state);
        let ghost added = items_view(more@);
        items.append(&mut more);
        proof {
            assert(nodes@.take(i + 1).drop_last() =~= nodes@.take(i as int));
            assert(nodes@.take(i + 1).last() == nodes@[i as int]);
            assert(items_view(items@) =~= before + added);
        }
        i = i + 1;
    }
    proof {
        assert(nodes@.take(nodes.len() as int) =~= nodes@);
    }
    items
}

/// The `innerText` of an element whose children are `children`: the
/// rendered text collection steps of each child, joined (see
/// `inner_text`).
pub fn get_the_text_steps(children: &Vec<RenderedNode>) -> (r: String)
    ensures
        r@ == inner_text(children@),
{
    let mut state = RenderedTextCollectionState::default();
    let items = collect_children(children, &mut state);
    join_text_items(&items)
}

} // verus!
