//! Splitting a text into runs that one font, one script and one bidi level
//! can shape. The caller looks up, for each character, whether it can
//! change the font, its script, its bidi level and the font that covers
//! it; the split is decided here.
use vstd::prelude::*;

verus! {

/// What identifies a font for shaping: its instance key (namespace and
/// index) and its size in app units.
#[derive(Clone, Copy, Debug, PartialEq, Eq, Structural)]
pub struct FontId {
    pub key_namespace: u32,
    pub key_index: u32,
    pub pt_size: i32,
}

/// The script of a character: `Common` and `Inherited` fit any script.
#[derive(Clone, Copy, Debug, PartialEq, Eq, Structural)]
pub enum ScriptClass {
    Common,
    Inherited,
    Specific(u16),
}

/// What the split reads of one character.
#[derive(Clone, Copy, Debug)]
pub struct CharFontInput {
    /// Byte index of the character in the text.
    pub index: usize,
    /// The character never changes the font (controls, no-break space,
    /// combining marks and glue).
    pub keeps_font: bool,
    pub script: ScriptClass,
    pub bidi_level: u8,
    /// The font that covers the character, if any.
    pub font: Option<FontId>,
}

/// A run of the text: bytes `start..end`, shaped with one font, script and
/// bidi level.
#[derive(Clone, Copy, Debug, PartialEq, Eq, Structural)]
pub struct TextSegment {
    pub font: FontId,
    pub script: ScriptClass,
    pub bidi_level: u8,
    pub start: usize,
    pub end: usize,
}

/// Whether a script is a specific one, not `Common` nor `Inherited`.
pub open spec fn is_specific(s: ScriptClass) -> bool {
    s is Specific
}

/// The run `seg` extended by a character with this font, script and level,
/// or `None` where the character cannot join it: another level, another
/// font, or a specific script other than the run's. A run of no specific
/// script takes the first specific script that joins it.
pub open spec fn joined(seg: TextSegment, font: FontId, script: ScriptClass, level: u8) -> Option<TextSegment> {
    if level != seg.bidi_level || font != seg.font {
        None
    } else {
        let s = if !is_specific(seg.script) && is_specific(script) {
            script
        } else {
            seg.script
        };
        if script == s || !is_specific(script) {
            Some(TextSegment { script: s, ..seg })
        } else {
            None
        }
    }
}

/// The state of the split after a prefix of the characters: the finished
/// runs, the open run, and where the open run began.
pub struct SplitState {
    pub done: Seq<TextSegment>,
    pub current: Option<TextSegment>,
    pub start: int,
}

/// A fresh run for character `c`, from `start` to the end of the text.
pub open spec fn fresh_run(c: CharFontInput, font: FontId, start: int, len: int) -> TextSegment {
    TextSegment { font, script: c.script, bidi_level: c.bidi_level, start: start as usize, end: len as usize }
}

/// One character of the split: characters that keep the font or that no
/// font covers change nothing; one that joins the open run extends it;
/// otherwise the open run ends at it and it opens a new one.
pub open spec fn split_step(st: SplitState, c: CharFontInput, len: int) -> SplitState {
    if c.keeps_font {
        st
    } else {
        match c.font {
            None => st,
            Some(font) => match st.current {
                Some(seg) => match joined(seg, font, c.script, c.bidi_level) {
                    Some(s) => SplitState { current: Some(s), ..st },
                    None => SplitState {
                        done: st.done.push(TextSegment { end: c.index, ..seg }),
                        current: Some(fresh_run(c, font, c.index as int, len)),
                        start: c.index as int,
                    },
                },
                None => SplitState { current: Some(fresh_run(c, font, st.start, len)), ..st },
            },
        }
    }
}

/// The split after the characters `chars`.
pub open spec fn split_prefix(chars: Seq<CharFontInput>, len: int) -> SplitState
    decreases chars.len(),
{
    if chars.len() == 0 {
        SplitState { done: Seq::empty(), current: None, start: 0 }
    } else {
        split_step(split_prefix(chars.drop_last(), len), chars.last(), len)
    }
}

/// The runs of a text of `len` bytes: the finished runs and the open one,
/// which ends the text. Where no character opened a run, the whole text is
/// one run of `first_font`, common script and left-to-right level, if the
/// font group has a first font.
pub open spec fn text_segments(chars: Seq<CharFontInput>, first_font: Option<FontId>, len: int) -> Seq<TextSegment> {
    let st = split_prefix(chars, len);
    let last = match st.current {
        Some(s) => Some(s),
        None => match first_font {
            Some(f) => Some(
                TextSegment { font: f, script: ScriptClass::Common, bidi_level: 0, start: 0, end: len as usize },
            ),
            None => None,
        },
    };
    match last {
        Some(s) => st.done.push(TextSegment { end: len as usize, ..s }),
        None => st.done,
    }
}

/// The run `seg` extended by a character, as `joined` says; `seg` is left
/// as it was where the character cannot join.
fn join(seg: &mut TextSegment, font: FontId, script: ScriptClass, level: u8) -> (r: bool)
    ensures
        match joined(*old(seg), font, script, level) {
            Some(s) => r && *final(seg) == s,
            None => !r && *final(seg) == *old(seg),
        },
{
    if level != seg.bidi_level {
        return false;
    }
    if font != seg.font {
        return false;
    }
    let specific_new = match script {
        ScriptClass::Specific(_) => true,
        _ => false,
    };
    let specific_old = match seg.script {
        ScriptClass::Specific(_) => true,
        _ => false,
    };
    if !specific_old && specific_new {
        seg.script = script;
    }
    script == seg.script || !specific_new
}

/// The runs of a text of `len` bytes whose characters are `chars` (see
/// `text_segments`).
pub fn segment_text_by_font(chars: &Vec<CharFontInput>, first_font: Option<FontId>, len: usize) -> (r: Vec<
    TextSegment,
>)
    ensures
        r@ == text_segments(chars@, first_font, len as int),
{
    let mut done: Vec<TextSegment> = Vec::new();
    let mut current: Option<TextSegment> = None;
    let mut start: usize = 0;
    let mut i: usize = 0;
    while i < chars.len()
        invariant
            i <= chars.len(),
            ({
                let st = split_prefix(chars@.take(i as int), len as int);
                &&& st.done == done@
                &&& st.current == current
                &&& st.start == start as int
            }),
        decreases chars.len() - i,
    {
        let c = chars[i];
        proof {
            assert(chars@.take(i + 1).drop_last() =~= chars@.take(i as int));
        }
        if !c.keeps_font {
            match c.font {
                None => {},
                Some(font) => {
                    match current {
                        Some(seg) => {
                            let mut s = seg;
                            if !join(&mut s, font, c.script, c.bidi_level) {
                                done.push(TextSegment { end: c.index, ..seg });
                                current = Some(
                                    TextSegment {
                                        font,
                                        script: c.script,
                                        bidi_level: c.bidi_level,
                                        start: c.index,
                                        end: len,
                                    },
                                );
                                start = c.index;
                            } else {
                                current = Some(s);
                            }
                        },
                        None => {
                            current = Some(
                                TextSegment { font, script: c.script, bidi_level: c.bidi_level, start, end: len },
                            );
                        },
                    }
                },
            }
        }
        i = i + 1;
    }
    proof {
        assert(chars@.take(chars@.len() as int) =~= chars@);
    }
    let last = match current {
        Some(s) => Some(s),
        None => match first_font {
            Some(f) => Some(TextSegment { font: f, script: ScriptClass::Common, bidi_level: 0, start: 0, end: len }),
            None => None,
        },
    };
    match last {
        Some(s) => {
            done.push(TextSegment { end: len, ..s });
        },
        None => {},
    }
    done
}

/// Whether the character indices rise and stay inside a text of `len`
/// bytes, as those of a text's characters do.
pub open spec fn indices_rise_within(chars: Seq<CharFontInput>, len: int) -> bool {
    &&& forall|k: int| 0 <= k < chars.len() ==> #[trigger] chars[k].index < len
    &&& forall|j: int, k: int| 0 <= j < k < chars.len() ==> chars[j].index < chars[k].index
}

/// Whether the runs `segs` follow each other without gap from `0` to
/// `end`, each holding at least one byte.
pub open spec fn tiles(segs: Seq<TextSegment>, end: int) -> bool {
    &&& segs.len() > 0 ==> segs[0].start == 0 && segs.last().end == end
    &&& segs.len() == 0 ==> end == 0
    &&& forall|k: int| 0 <= k < segs.len() ==> #[trigger] segs[k].start < segs[k].end
    &&& forall|k: int| 0 <= k < segs.len() - 1 ==> #[trigger] segs[k].end == segs[k + 1].start
}

/// What holds of the split after each prefix.
pub open spec fn split_invariant(chars: Seq<CharFontInput>, st: SplitState, len: int) -> bool {
    &&& tiles(st.done, st.start)
    &&& st.done.len() > 0 ==> st.current is Some
    &&& st.current matches Some(seg) ==> {
        &&& seg.start == st.start
        &&& seg.end == len
        &&& chars.len() > 0
        &&& st.start <= chars.last().index
    }
    &&& 0 <= st.start <= len
}

proof fn lemma_split_invariant(chars: Seq<CharFontInput>, len: int)
    requires
        indices_rise_within(chars, len),
        0 <= len <= usize::MAX,
    ensures
        split_invariant(chars, split_prefix(chars, len), len),
    decreases chars.len(),
{
    if chars.len() > 0 {
        let prev = chars.drop_last();
        assert(indices_rise_within(prev, len)) by {
            assert forall|j: int, k: int| 0 <= j < k < prev.len() implies prev[j].index < prev[k].index by {
                assert(prev[j] == chars[j] && prev[k] == chars[k]);
            }
            assert forall|k: int| 0 <= k < prev.len() implies #[trigger] prev[k].index < len by {
                assert(prev[k] == chars[k]);
            }
        }
        lemma_split_invariant(prev, len);
        let st = split_prefix(prev, len);
        let c = chars.last();
        assert(c.index < len) by {
            assert(chars[chars.len() - 1].index < len);
        }
        if prev.len() > 0 {
            assert(prev.last().index < c.index) by {
                assert(prev.last() == chars[chars.len() - 2]);
            }
        }
        let st2 = split_step(st, c, len);
        if !c.keeps_font && c.font is Some {
            let font = c.font->0;
            match st.current {
                Some(seg) => {
                    match joined(seg, font, c.script, c.bidi_level) {
                        Some(s) => {},
                        None => {
                            let closed = TextSegment { end: c.index, ..seg };
                            assert(closed.start < closed.end);
                            let d = st.done.push(closed);
                            assert forall|k: int| 0 <= k < d.len() implies #[trigger] d[k].start < d[k].end by {
                                if k < st.done.len() {
                                    assert(d[k] == st.done[k]);
                                }
                            }
                            assert forall|k: int| 0 <= k < d.len() - 1 implies #[trigger] d[k].end == d[k + 1].start by {
                                if k < st.done.len() - 1 {
                                    assert(d[k] == st.done[k] && d[k + 1] == st.done[k + 1]);
                                } else {
                                    assert(d[k] == st.done.last());
                                }
                            }
                            if st.done.len() > 0 {
                                assert(d[0] == st.done[0]);
                            }
                            assert(tiles(d, c.index as int));
                        },
                    }
                },
                None => {},
            }
        }
        assert(split_invariant(chars, st2, len));
    }
}

/// The runs of a non-empty text follow each other without gap and cover
/// it, each holding at least one byte; there is a run where the font group
/// has a first font; an empty text has at most one run.
pub proof fn lemma_segments_tile_text(chars: Seq<CharFontInput>, first_font: Option<FontId>, len: int)
    requires
        indices_rise_within(chars, len),
        0 <= len <= usize::MAX,
    ensures
        len > 0 && text_segments(chars, first_font, len).len() > 0 ==> tiles(
            text_segments(chars, first_font, len),
            len,
        ),
        first_font is Some ==> text_segments(chars, first_font, len).len() > 0,
        len == 0 ==> text_segments(chars, first_font, len).len() <= 1,
{
    lemma_split_invariant(chars, len);
    let st = split_prefix(chars, len);
    let r = text_segments(chars, first_font, len);
    if len > 0 {
        match st.current {
            Some(seg) => {
                assert(seg.start < len) by {
                    assert(chars.last() == chars[chars.len() - 1]);
                }
                let last = TextSegment { end: len as usize, ..seg };
                assert(r == st.done.push(last));
                assert forall|k: int| 0 <= k < r.len() implies #[trigger] r[k].start < r[k].end by {
                    if k < st.done.len() {
                        assert(r[k] == st.done[k]);
                    }
                }
                assert forall|k: int| 0 <= k < r.len() - 1 implies #[trigger] r[k].end == r[k + 1].start by {
                    if k < st.done.len() - 1 {
                        assert(r[k] == st.done[k] && r[k + 1] == st.done[k + 1]);
                    } else {
                        assert(r[k] == st.done.last());
                    }
                }
                if st.done.len() > 0 {
                    assert(r[0] == st.done[0]);
                }
            },
            None => {
                assert(st.done.len() == 0);
            },
        }
    } else {
        if st.current is Some {
            assert(chars.last() == chars[chars.len() - 1]);
        }
        assert(st.done.len() == 0);
    }
}

} // verus!
