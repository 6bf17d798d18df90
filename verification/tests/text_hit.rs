use havi::svg_resources::OpaqueNode;
use havi::text_hit::{
    find_character_offset_in_fragment_descendants, find_closest_text_fragment, find_text_node_and_offset_in_fragment_descendants,
    text_fragment_character_offset, text_fragment_distance_to_point_for_glyph_offset, GlyphAdvance, TextFragmentEntry,
};

fn glyphs() -> Vec<GlyphAdvance> {
    vec![
        GlyphAdvance { advance: 120, char_count: 1 },
        GlyphAdvance { advance: 121, char_count: 1 },
        GlyphAdvance { advance: 120, char_count: 2 },
        GlyphAdvance { advance: 240, char_count: 1 },
    ]
}

fn entry(node: usize, start: usize, x: i32, y: i32) -> TextFragmentEntry {
    TextFragmentEntry {
        node: Some(OpaqueNode(node)),
        width: 601,
        height: 1200,
        character_range_start: start,
        glyphs: glyphs(),
        point_x: x,
        point_y: y,
    }
}

#[test]
fn distance_is_measured_past_the_fragment_end() {
    assert_eq!(text_fragment_distance_to_point_for_glyph_offset(600, 1200, 700, 10), Some(100));
    assert_eq!(text_fragment_distance_to_point_for_glyph_offset(600, 1200, 300, 10), Some(-300));
    assert_eq!(text_fragment_distance_to_point_for_glyph_offset(-5, 1200, 300, 10), Some(300));
    assert_eq!(text_fragment_distance_to_point_for_glyph_offset(600, 1200, -1, 10), None);
    assert_eq!(text_fragment_distance_to_point_for_glyph_offset(600, 1200, 10, 1201), None);
    assert_eq!(text_fragment_distance_to_point_for_glyph_offset(600, 1200, 10, -1), None);
}

#[test]
fn a_point_falls_on_the_glyph_whose_middle_it_has_not_passed() {
    let g = glyphs();
    assert_eq!(text_fragment_character_offset(&g, 0, 7), 7);
    assert_eq!(text_fragment_character_offset(&g, 60, 0), 0);
    assert_eq!(text_fragment_character_offset(&g, 61, 0), 1);
    // The second glyph's middle is 120 + 61 (half of 121, rounded up).
    assert_eq!(text_fragment_character_offset(&g, 181, 0), 1);
    assert_eq!(text_fragment_character_offset(&g, 182, 0), 2);
    assert_eq!(text_fragment_character_offset(&g, 10_000, 3), 8);
}

#[test]
fn the_nearest_fragment_wins_and_the_last_of_equals() {
    let entries = vec![entry(1, 0, 700, 10), entry(1, 5, 650, 10), entry(2, 0, 650, -5), entry(3, 0, 650, 10)];
    assert_eq!(find_closest_text_fragment(&entries), Some(3));
    assert_eq!(find_closest_text_fragment(&vec![entry(1, 0, 650, -5)]), None);
}

#[test]
fn character_offsets_count_from_the_fragment_or_the_node() {
    let entries = vec![entry(1, 0, 900, 10), entry(2, 0, 900, 10), entry(1, 5, 100, 10)];
    assert_eq!(find_character_offset_in_fragment_descendants(&entries), Some(5 + 1));
    assert_eq!(find_text_node_and_offset_in_fragment_descendants(&entries), Some((OpaqueNode(1), 5 + 1)));
    let mut anonymous = entry(1, 0, 100, 10);
    anonymous.node = None;
    assert_eq!(find_text_node_and_offset_in_fragment_descendants(&vec![anonymous]), None);
    assert_eq!(find_text_node_and_offset_in_fragment_descendants(&vec![]), None);
}
