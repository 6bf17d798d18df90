//! Finding the character under a point among text fragments: the
//! distance from a fragment's end to the point, the character a point falls
//! on within a fragment, the closest fragment, and the offset of that
//! character in its DOM text node. Lengths are app units.
use vstd::prelude::*;

use crate::au::{au_add, au_sub, clamp_app_units, is_app_units};
use crate::svg_resources::OpaqueNode;

verus! {

/// The advance of a glyph and the characters it shows.
#[derive(Clone, Copy, Debug, PartialEq, Eq, Structural)]
pub struct GlyphAdvance {
    pub advance: i32,
    pub char_count: u32,
}

/// A text fragment as the search reads it: its DOM node, its size, the
/// index of its first character, its glyphs, and the point relative to its
/// origin.
#[derive(Clone, Debug)]
pub struct TextFragmentEntry {
    pub node: Option<OpaqueNode>,
    pub width: i32,
    pub height: i32,
    pub character_range_start: usize,
    pub glyphs: Vec<GlyphAdvance>,
    pub point_x: i32,
    pub point_y: i32,
}

/// Half an advance, rounded half away from zero: `Au::scale_by(0.5)`.
pub open spec fn half_rounded(a: int) -> int {
    if a >= 0 {
        (a + 1) / 2
    } else {
        -((-a + 1) / 2)
    }
}

/// How far right of the fragment's end the point lies, where the point is
/// within the fragment's height and not left of it.
pub open spec fn distance_past_end(width: int, height: int, x: int, y: int) -> Option<int> {
    if y < 0 || y > height || x < 0 {
        None
    } else {
        Some(clamp_app_units(x - if width >= 0 { width } else { 0 }))
    }
}

/// The characters of the glyphs.
pub open spec fn glyph_chars(glyphs: Seq<GlyphAdvance>) -> int
    decreases glyphs.len(),
{
    if glyphs.len() == 0 {
        0
    } else {
        glyphs[0].char_count + glyph_chars(glyphs.drop_first())
    }
}

/// The character that `x` falls on, counting from `character`, with the
/// glyphs so far taking `offset`: the first glyph whose middle is at or
/// past `x`, else the end.
pub open spec fn character_at(glyphs: Seq<GlyphAdvance>, x: int, offset: int, character: int) -> int
    decreases glyphs.len(),
{
    if glyphs.len() == 0 {
        character
    } else if clamp_app_units(offset + half_rounded(glyphs[0].advance as int)) >= x {
        character
    } else {
        character_at(
            glyphs.drop_first(),
            x,
            clamp_app_units(offset + glyphs[0].advance),
            character + glyphs[0].char_count,
        )
    }
}

/// Whether every advance is a valid app-unit value.
pub open spec fn advances_valid(glyphs: Seq<GlyphAdvance>) -> bool {
    forall|i: int| 0 <= i < glyphs.len() ==> is_app_units(#[trigger] glyphs[i].advance as int)
}

/// The distance of an entry (see `distance_past_end`).
pub open spec fn entry_distance(e: TextFragmentEntry) -> Option<int> {
    distance_past_end(e.width as int, e.height as int, e.point_x as int, e.point_y as int)
}

/// The closest of the entries, with its distance: the one nearest past its
/// end, the last of those equally near.
pub open spec fn closest(entries: Seq<TextFragmentEntry>) -> Option<(int, int)>
    decreases entries.len(),
{
    if entries.len() == 0 {
        None
    } else {
        let prev = closest(entries.drop_last());
        match entry_distance(entries.last()) {
            None => prev,
            Some(d) => match prev {
                Some((j, cd)) => if d <= cd {
                    Some((entries.len() - 1, d))
                } else {
                    prev
                },
                None => Some((entries.len() - 1, d)),
            },
        }
    }
}

/// Half an advance, rounded half away from zero (`Au::scale_by(0.5)`).
fn half_advance(a: i32) -> (r: i32)
    requires
        is_app_units(a as int),
    ensures
        r == half_rounded(a as int),
        is_app_units(r as int),
{
    if a >= 0 {
        (a + 1) / 2
    } else {
        -((-a + 1) / 2)
    }
}

/// How far right of the fragment's end the point lies (see
/// `distance_past_end`).
pub fn text_fragment_distance_to_point_for_glyph_offset(width: i32, height: i32, x: i32, y: i32) -> (r: Option<i32>)
    requires
        is_app_units(width as int),
        is_app_units(x as int),
    ensures
        match distance_past_end(width as int, height as int, x as int, y as int) {
            Some(d) => r == Some(d as i32),
            None => r is None,
        },
{
    if y < 0 || y > height {
        return None;
    }
    if x < 0 {
        return None;
    }
    let w = if width >= 0 {
        width
    } else {
        0
    };
    Some(au_sub(x, w))
}

/// The character that `x` falls on in a fragment whose first character is
/// `starting_character` (see `character_at`).
pub fn text_fragment_character_offset(glyphs: &Vec<GlyphAdvance>, x: i32, starting_character: usize) -> (r: usize)
    requires
        advances_valid(glyphs@),
        starting_character + glyph_chars(glyphs@) <= usize::MAX,
    ensures
        r == character_at(glyphs@, x as int, 0, starting_character as int),
{
    let mut current_character = starting_character;
    let mut current_offset: i32 = 0;
    let mut i: usize = 0;
    proof {
        assert(glyphs@.skip(0) =~= glyphs@);
    }
    while i < glyphs.len()
        invariant
            i <= glyphs.len(),
            advances_valid(glyphs@),
            is_app_units(current_offset as int),
            current_character + glyph_chars(glyphs@.skip(i as int)) <= usize::MAX,
            character_at(glyphs@, x as int, 0, starting_character as int) == character_at(
                glyphs@.skip(i as int),
                x as int,
                current_offset as int,
                current_character as int,
            ),
        decreases glyphs.len() - i,
    {
        let g = glyphs[i];
        proof {
            assert(is_app_units(glyphs@[i as int].advance as int));
            assert(glyphs@.skip(i as int)[0] == g);
            assert(glyphs@.skip(i as int).drop_first() =~= glyphs@.skip(i + 1));
            lemma_glyph_chars_nonneg(glyphs@.skip(i + 1));
        }
        let half = half_advance(g.advance);
        if au_add(current_offset, half) >= x {
            return current_character;
        }
        current_offset = au_add(current_offset, g.advance);
        current_character = current_character + g.char_count as usize;
        i = i + 1;
    }
    current_character
}

/// The closest text fragment to the point (see `closest`).
pub fn find_closest_text_fragment(entries: &Vec<TextFragmentEntry>) -> (r: Option<usize>)
    requires
        forall|i: int| 0 <= i < entries@.len() ==> is_app_units(#[trigger] entries@[i].width as int) && is_app_units(
            entries@[i].point_x as int,
        ),
    ensures
        match closest(entries@) {
            Some((j, _)) => r == Some(j as usize),
            None => r is None,
        },
{
    let mut closest_idx: Option<usize> = None;
    let mut closest_dist: i32 = 0;
    let mut i: usize = 0;
    while i < entries.len()
        invariant
            i <= entries.len(),
            forall|k: int| 0 <= k < entries@.len() ==> is_app_units(#[trigger] entries@[k].width as int)
                && is_app_units(entries@[k].point_x as int),
            match closest(entries@.take(i as int)) {
                Some((j, d)) => closest_idx == Some(j as usize) && closest_dist == d,
                None => closest_idx is None,
            },
        decreases entries.len() - i,
    {
        let e = &entries[i];
        proof {
            assert(entries@.take(i + 1).drop_last() =~= entries@.take(i as int));
            assert(entries@.take(i + 1).last() == entries@[i as int]);
            assert(is_app_units(entries@[i as int].width as int));
        }
        match text_fragment_distance_to_point_for_glyph_offset(e.width, e.height, e.point_x, e.point_y) {
            None => {},
            Some(distance) => {
                if closest_idx.is_none() || distance <= closest_dist {
                    closest_idx = Some(i);
                    closest_dist = distance;
                }
            },
        }
        i = i + 1;
    }
    proof {
        assert(entries@.take(entries.len() as int) =~= entries@);
    }
    closest_idx
}

/// Whether an entry's lengths are app units and its characters fit,
/// counted from its first character.
pub open spec fn entry_fits(e: TextFragmentEntry) -> bool {
    &&& is_app_units(e.width as int)
    &&& is_app_units(e.point_x as int)
    &&& advances_valid(e.glyphs@)
    &&& e.character_range_start + glyph_chars(e.glyphs@) <= usize::MAX
}

/// Whether every entry fits (see `entry_fits`).
pub open spec fn entries_fit(entries: Seq<TextFragmentEntry>) -> bool {
    forall|i: int| 0 <= i < entries.len() ==> entry_fits(#[trigger] entries[i])
}

/// The character offset of the point in the closest fragment, counted from
/// the fragment's first character.
pub open spec fn character_offset_answer(entries: Seq<TextFragmentEntry>) -> Option<int> {
    match closest(entries) {
        Some((j, _)) => Some(
            character_at(entries[j].glyphs@, entries[j].point_x as int, 0, entries[j].character_range_start as int),
        ),
        None => None,
    }
}

proof fn lemma_closest_in_range(entries: Seq<TextFragmentEntry>)
    ensures
        closest(entries) matches Some((j, d)) ==> 0 <= j < entries.len() && entry_distance(entries[j]) == Some(d),
    decreases entries.len(),
{
    if entries.len() > 0 {
        lemma_closest_in_range(entries.drop_last());
    }
}

/// The character under the point, in the closest fragment (see
/// `character_offset_answer`).
pub fn find_character_offset_in_fragment_descendants(entries: &Vec<TextFragmentEntry>) -> (r: Option<usize>)
    requires
        entries_fit(entries@),
    ensures
        match character_offset_answer(entries@) {
            Some(c) => r == Some(c as usize),
            None => r is None,
        },
{
    proof {
        lemma_closest_in_range(entries@);
    }
    let idx = match find_closest_text_fragment(entries) {
        Some(idx) => idx,
        None => {
            return None;
        },
    };
    let e = &entries[idx];
    proof {
        let (j, d) = closest(entries@)->0;
        assert(entries@.len() == entries.len());
        assert(idx as int == j);
        assert(entry_fits(entries@[idx as int]));
    }
    let c = text_fragment_character_offset(&e.glyphs, e.point_x, e.character_range_start);
    proof {
        assert(character_offset_answer(entries@) == Some(c as int));
    }
    Some(c)
}

/// The characters of the entries before `k` that belong to `node`.
pub open spec fn chars_before(entries: Seq<TextFragmentEntry>, k: int, node: OpaqueNode) -> int
    decreases k,
{
    if k <= 0 {
        0
    } else {
        chars_before(entries, k - 1, node) + if entries[k - 1].node == Some(node) {
            glyph_chars(entries[k - 1].glyphs@)
        } else {
            0
        }
    }
}

/// The DOM text node under the point and the offset of the character in
/// it: the closest fragment's node, and its characters in that fragment
/// after those of the node's fragments before it.
pub open spec fn text_node_offset_answer(entries: Seq<TextFragmentEntry>) -> Option<(OpaqueNode, int)> {
    match closest(entries) {
        Some((j, _)) => match entries[j].node {
            Some(n) => Some((n, chars_before(entries, j, n) + character_at(entries[j].glyphs@, entries[j].point_x as int, 0, 0))),
            None => None,
        },
        None => None,
    }
}

/// Whether all the characters of all the entries fit in a `usize`.
pub open spec fn total_chars_fit(entries: Seq<TextFragmentEntry>) -> bool {
    forall|node: OpaqueNode, k: int| 0 <= k <= entries.len() ==> #[trigger] chars_before(entries, k, node) + (
    if k < entries.len() {
        glyph_chars(entries[k].glyphs@)
    } else {
        0
    }) <= usize::MAX
}

proof fn lemma_character_at_bound(glyphs: Seq<GlyphAdvance>, x: int, offset: int, character: int)
    ensures
        character <= character_at(glyphs, x, offset, character) <= character + glyph_chars(glyphs),
    decreases glyphs.len(),
{
    if glyphs.len() > 0 {
        lemma_character_at_bound(
            glyphs.drop_first(),
            x,
            clamp_app_units(offset + glyphs[0].advance),
            character + glyphs[0].char_count,
        );
    }
}

/// The characters of the glyphs (see `glyph_chars`).
fn count_chars(glyphs: &Vec<GlyphAdvance>) -> (r: usize)
    requires
        glyph_chars(glyphs@) <= usize::MAX,
    ensures
        r == glyph_chars(glyphs@),
{
    let mut total: usize = 0;
    let mut i: usize = 0;
    proof {
        assert(glyphs@.skip(0) =~= glyphs@);
    }
    while i < glyphs.len()
        invariant
            i <= glyphs.len(),
            total + glyph_chars(glyphs@.skip(i as int)) == glyph_chars(glyphs@),
            glyph_chars(glyphs@) <= usize::MAX,
        decreases glyphs.len() - i,
    {
        proof {
            assert(glyphs@.skip(i as int).drop_first() =~= glyphs@.skip(i + 1));
            assert(glyphs@.skip(i as int)[0] == glyphs@[i as int]);
            lemma_glyph_chars_nonneg(glyphs@.skip(i + 1));
        }
        total = total + glyphs[i].char_count as usize;
        i = i + 1;
    }
    total
}

/// The DOM text node under the point and the character offset in it (see
/// `text_node_offset_answer`).
pub fn find_text_node_and_offset_in_fragment_descendants(entries: &Vec<TextFragmentEntry>) -> (r: Option<(OpaqueNode, usize)>)
    requires
        entries_fit(entries@),
        total_chars_fit(entries@),
    ensures
        match text_node_offset_answer(entries@) {
            Some((n, c)) => r == Some((n, c as usize)),
            None => r is None,
        },
{
    proof {
        lemma_closest_in_range(entries@);
    }
    let idx = match find_closest_text_fragment(entries) {
        Some(idx) => idx,
        None => {
            return None;
        },
    };
    proof {
        let (j, d) = closest(entries@)->0;
        assert(entries@.len() == entries.len());
        assert(idx as int == j);
    }
    let target = match entries[idx].node {
        Some(n) => n,
        None => {
            return None;
        },
    };
    proof {
        assert(entry_fits(entries@[idx as int]));
        assert(chars_before(entries@, idx as int, target) + glyph_chars(entries@[idx as int].glyphs@) <= usize::MAX);
        assert(chars_before(entries@, idx as int, target) >= 0) by {
            lemma_chars_before_nonneg(entries@, idx as int, target);
        }
    }
    let mut chars: usize = 0;
    let mut i: usize = 0;
    while i < idx
        invariant
            i <= idx < entries@.len(),
            total_chars_fit(entries@),
            chars == chars_before(entries@, i as int, target),
        decreases idx - i,
    {
        proof {
            assert(chars_before(entries@, i + 1, target) + glyph_chars(entries@[i + 1].glyphs@) <= usize::MAX);
            lemma_chars_before_nonneg(entries@, i + 1, target);
            lemma_glyph_chars_nonneg(entries@[i + 1].glyphs@);
            lemma_glyph_chars_nonneg(entries@[i as int].glyphs@);
        }
        if entries[i].node == Some(target) {
            let n = count_chars(&entries[i].glyphs);
            chars = chars + n;
        }
        i = i + 1;
    }
    proof {
        lemma_character_at_bound(entries@[idx as int].glyphs@, entries@[idx as int].point_x as int, 0, 0);
        assert(glyph_chars(entries@[idx as int].glyphs@) <= usize::MAX) by {
            lemma_chars_before_nonneg(entries@, idx as int, target);
        }
    }
    let local = text_fragment_character_offset(&entries[idx].glyphs, entries[idx].point_x, 0);
    Some((target, chars + local))
}

proof fn lemma_chars_before_nonneg(entries: Seq<TextFragmentEntry>, k: int, node: OpaqueNode)
    ensures
        chars_before(entries, k, node) >= 0,
    decreases k,
{
    if k > 0 {
        lemma_chars_before_nonneg(entries, k - 1, node);
        lemma_glyph_chars_nonneg(entries[k - 1].glyphs@);
    }
}

proof fn lemma_glyph_chars_nonneg(glyphs: Seq<GlyphAdvance>)
    ensures
        glyph_chars(glyphs) >= 0,
    decreases glyphs.len(),
{
    if glyphs.len() > 0 {
        lemma_glyph_chars_nonneg(glyphs.drop_first());
    }
}

/// The closest fragment lies at most as far past its end as every other
/// fragment that the point is level with, and any later one as near would
/// have been chosen.
pub proof fn lemma_closest_is_nearest(entries: Seq<TextFragmentEntry>, i: int)
    requires
        0 <= i < entries.len(),
        entry_distance(entries[i]) is Some,
    ensures
        closest(entries) matches Some((j, d)) && d <= entry_distance(entries[i])->0 && (entry_distance(entries[i])->0
            == d ==> i <= j),
    decreases entries.len(),
{
    if i < entries.len() - 1 {
        lemma_closest_is_nearest(entries.drop_last(), i);
        assert(entries.drop_last()[i] == entries[i]);
    } else {
        lemma_closest_in_range(entries.drop_last());
    }
}

/// Whether `e2` is `e` with other glyphs and a different first character:
/// the same node, size and point.
pub open spec fn same_but_glyphs(e: TextFragmentEntry, e2: TextFragmentEntry) -> bool {
    &&& e2.node == e.node
    &&& e2.width == e.width
    &&& e2.height == e.height
    &&& e2.point_x == e.point_x
    &&& e2.point_y == e.point_y
}

/// The closest fragment depends on the fragments' sizes and points, not on
/// their glyphs.
proof fn lemma_closest_ignores_glyphs(entries: Seq<TextFragmentEntry>, j: int, e2: TextFragmentEntry)
    requires
        0 <= j < entries.len(),
        same_but_glyphs(entries[j], e2),
    ensures
        closest(entries.update(j, e2)) == closest(entries),
    decreases entries.len(),
{
    let u = entries.update(j, e2);
    if j < entries.len() - 1 {
        assert(u.drop_last() =~= entries.drop_last().update(j, e2));
        lemma_closest_ignores_glyphs(entries.drop_last(), j, e2);
        assert(u.last() == entries.last());
    } else {
        assert(u.drop_last() =~= entries.drop_last());
        assert(entry_distance(u.last()) == entry_distance(entries.last()));
    }
}

/// With no fragment of `node` before `k`, no character comes before.
proof fn lemma_chars_before_none(entries: Seq<TextFragmentEntry>, k: int, node: OpaqueNode)
    requires
        k <= entries.len(),
        forall|j: int| 0 <= j < k ==> (#[trigger] entries[j]).node != Some(node),
    ensures
        chars_before(entries, k, node) == 0,
    decreases k,
{
    if k > 0 {
        lemma_chars_before_none(entries, k - 1, node);
    }
}

/// Changing the glyphs of fragment `j` changes the characters counted
/// before `k` for `node` by the change in its characters, where it is a
/// fragment of `node` before `k`, and not at all otherwise.
proof fn lemma_chars_before_update(entries: Seq<TextFragmentEntry>, j: int, e2: TextFragmentEntry, k: int, node: OpaqueNode)
    requires
        0 <= j < entries.len(),
        k <= entries.len(),
        same_but_glyphs(entries[j], e2),
    ensures
        chars_before(entries.update(j, e2), k, node) == chars_before(entries, k, node) + if j < k
            && entries[j].node == Some(node) {
            glyph_chars(e2.glyphs@) - glyph_chars(entries[j].glyphs@)
        } else {
            0
        },
    decreases k,
{
    if k > 0 {
        lemma_chars_before_update(entries, j, e2, k - 1, node);
        let u = entries.update(j, e2);
        if k - 1 != j {
            assert(u[k - 1] == entries[k - 1]);
        }
    }
}

/// The offset in a text node counts only the node's own fragments: where no
/// fragment of the node comes before the closest one, the offset is the
/// character under the point within the closest fragment.
pub proof fn lemma_offset_without_earlier_fragments_of_node(entries: Seq<TextFragmentEntry>)
    ensures
        closest(entries) matches Some((k, d)) ==> (entries[k].node matches Some(n) ==> ((forall|j: int|
            0 <= j < k ==> (#[trigger] entries[j]).node != Some(n)) ==> text_node_offset_answer(entries) == Some(
            (n, character_at(entries[k].glyphs@, entries[k].point_x as int, 0, 0)),
        ))),
{
    lemma_closest_in_range(entries);
    if let Some((k, d)) = closest(entries) {
        if let Some(n) = entries[k].node {
            if forall|j: int| 0 <= j < k ==> (#[trigger] entries[j]).node != Some(n) {
                lemma_chars_before_none(entries, k, n);
            }
        }
    }
}

/// Each earlier fragment of the same text node adds its characters to the
/// offset: giving fragment `j` other glyphs moves the offset by the change
/// in its characters.
pub proof fn lemma_earlier_fragment_of_node_adds_its_characters(
    entries: Seq<TextFragmentEntry>,
    j: int,
    e2: TextFragmentEntry,
)
    requires
        0 <= j < entries.len(),
        same_but_glyphs(entries[j], e2),
    ensures
        closest(entries) matches Some((k, d)) ==> (j < k && entries[k].node is Some && entries[j].node == entries[k].node
            ==> (text_node_offset_answer(entries) matches Some((n1, o1)) && text_node_offset_answer(
            entries.update(j, e2),
        ) matches Some((n2, o2)) && n2 == n1 && o2 == o1 + glyph_chars(e2.glyphs@) - glyph_chars(entries[j].glyphs@))),
{
    lemma_closest_in_range(entries);
    lemma_closest_ignores_glyphs(entries, j, e2);
    if let Some((k, d)) = closest(entries) {
        if j < k && entries[k].node is Some && entries[j].node == entries[k].node {
            let n = entries[k].node->0;
            lemma_chars_before_update(entries, j, e2, k, n);
            assert(entries.update(j, e2)[k] == entries[k]);
        }
    }
}

/// Fragments of other text nodes add nothing: giving a fragment of another
/// node other glyphs leaves the answer as it is.
pub proof fn lemma_other_nodes_add_nothing(entries: Seq<TextFragmentEntry>, j: int, e2: TextFragmentEntry)
    requires
        0 <= j < entries.len(),
        same_but_glyphs(entries[j], e2),
    ensures
        closest(entries) matches Some((k, d)) ==> (j != k && entries[j].node != entries[k].node ==> text_node_offset_answer(
            entries.update(j, e2),
        ) == text_node_offset_answer(entries)),
{
    lemma_closest_in_range(entries);
    lemma_closest_ignores_glyphs(entries, j, e2);
    if let Some((k, d)) = closest(entries) {
        if j != k && entries[j].node != entries[k].node {
            assert(entries.update(j, e2)[k] == entries[k]);
            if let Some(n) = entries[k].node {
                lemma_chars_before_update(entries, j, e2, k, n);
            }
        }
    }
}

/// The character under a point lies within the fragment's characters, and
/// moves forward, never back, as the point moves right.
pub proof fn lemma_character_at_monotonic(glyphs: Seq<GlyphAdvance>, x1: int, x2: int, offset: int, character: int)
    requires
        x1 <= x2,
    ensures
        character <= character_at(glyphs, x1, offset, character) <= character_at(glyphs, x2, offset, character)
            <= character + glyph_chars(glyphs),
    decreases glyphs.len(),
{
    lemma_character_at_bound(glyphs, x1, offset, character);
    lemma_character_at_bound(glyphs, x2, offset, character);
    if glyphs.len() > 0 {
        lemma_character_at_monotonic(
            glyphs.drop_first(),
            x1,
            x2,
            clamp_app_units(offset + glyphs[0].advance),
            character + glyphs[0].char_count,
        );
    }
}

/// A point at or left of the fragment's start falls on its first character,
/// where the first advance is not negative.
pub proof fn lemma_character_at_ends(glyphs: Seq<GlyphAdvance>, x: int, character: int)
    requires
        advances_valid(glyphs),
    ensures
        x <= 0 && (glyphs.len() == 0 || glyphs[0].advance >= 0) ==> character_at(glyphs, x, 0, character) == character,
{
}

} // verus!
