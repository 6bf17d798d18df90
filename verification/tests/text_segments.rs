use havi::text_segments::{segment_text_by_font, CharFontInput, FontId, ScriptClass, TextSegment};

const LATIN: ScriptClass = ScriptClass::Specific(1);
const CYRILLIC: ScriptClass = ScriptClass::Specific(2);

fn font(index: u32) -> FontId {
    FontId { key_namespace: 1, key_index: index, pt_size: 960 }
}

fn ch(index: usize, script: ScriptClass, font_index: Option<u32>) -> CharFontInput {
    CharFontInput { index, keeps_font: false, script, bidi_level: 0, font: font_index.map(font) }
}

fn seg(f: u32, script: ScriptClass, bidi_level: u8, start: usize, end: usize) -> TextSegment {
    TextSegment { font: font(f), script, bidi_level, start, end }
}

#[test]
fn one_font_one_script_is_one_run() {
    let chars = vec![ch(0, LATIN, Some(1)), ch(1, LATIN, Some(1))];
    assert_eq!(segment_text_by_font(&chars, Some(font(9)), 2), vec![seg(1, LATIN, 0, 0, 2)]);
}

#[test]
fn a_common_run_takes_the_first_specific_script() {
    let chars = vec![ch(0, ScriptClass::Common, Some(1)), ch(1, LATIN, Some(1)), ch(2, ScriptClass::Inherited, Some(1))];
    assert_eq!(segment_text_by_font(&chars, None, 3), vec![seg(1, LATIN, 0, 0, 3)]);
}

#[test]
fn a_new_font_or_script_or_level_starts_a_run() {
    let chars = vec![ch(0, LATIN, Some(1)), ch(1, CYRILLIC, Some(2)), ch(3, CYRILLIC, Some(2))];
    assert_eq!(
        segment_text_by_font(&chars, None, 5),
        vec![seg(1, LATIN, 0, 0, 1), seg(2, CYRILLIC, 0, 1, 5)]
    );
    let chars = vec![ch(0, LATIN, Some(1)), ch(1, CYRILLIC, Some(1))];
    assert_eq!(
        segment_text_by_font(&chars, None, 3),
        vec![seg(1, LATIN, 0, 0, 1), seg(1, CYRILLIC, 0, 1, 3)]
    );
    let mut rtl = ch(1, LATIN, Some(1));
    rtl.bidi_level = 1;
    let chars = vec![ch(0, LATIN, Some(1)), rtl];
    assert_eq!(
        segment_text_by_font(&chars, None, 2),
        vec![seg(1, LATIN, 0, 0, 1), seg(1, LATIN, 1, 1, 2)]
    );
}

#[test]
fn skipped_and_uncovered_characters_stay_in_the_runs_around_them() {
    let mut control = ch(0, ScriptClass::Common, Some(7));
    control.keeps_font = true;
    let chars = vec![control, ch(1, LATIN, Some(1)), ch(2, LATIN, None), ch(3, CYRILLIC, Some(2))];
    assert_eq!(
        segment_text_by_font(&chars, None, 5),
        vec![seg(1, LATIN, 0, 0, 3), seg(2, CYRILLIC, 0, 3, 5)]
    );
}

#[test]
fn without_covered_characters_the_first_font_takes_the_text() {
    let chars = vec![ch(0, LATIN, None)];
    assert_eq!(segment_text_by_font(&chars, Some(font(4)), 1), vec![seg(4, ScriptClass::Common, 0, 0, 1)]);
    assert_eq!(segment_text_by_font(&chars, None, 1), vec![]);
    assert_eq!(segment_text_by_font(&vec![], Some(font(4)), 0), vec![seg(4, ScriptClass::Common, 0, 0, 0)]);
}
