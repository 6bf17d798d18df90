//! MIME type policy for media playback: which types the browser reports it
//! can play.

use vstd::prelude::*;
use vstd::string::*;

use crate::chars::str_chars;
use crate::text::{
    find_char, has_prefix_at, lemma_split_at_first, lemma_split_nonempty, split_on,
    str_equals, trim, trim_bounds, trim_char, trim_char_bounds,
};

verus! {

/// The parameter name that introduces the codecs list.
pub open spec fn codecs_key() -> Seq<char> {
    seq!['c', 'o', 'd', 'e', 'c', 's', '=']
}

/// The first `codecs=` parameter among `params`, trimmed and with quotes
/// taken off.
pub open spec fn codecs_param(params: Seq<Seq<char>>) -> Option<Seq<char>>
    decreases params.len(),
{
    if params.len() == 0 {
        None
    } else {
        let p = trim(params[0]);
        if codecs_key().is_prefix_of(p) {
            Some(trim_char(trim_char(p.subrange(7, p.len() as int), '"'), '\''))
        } else {
            codecs_param(params.subrange(1, params.len() as int))
        }
    }
}

/// The base type of a MIME string: its first `;`-separated part, trimmed.
pub open spec fn mime_base(m: Seq<char>) -> Seq<char> {
    trim(split_on(m, ';')[0])
}

/// The value of the first `codecs=` parameter of a MIME string, if any.
pub open spec fn mime_codecs(m: Seq<char>) -> Option<Seq<char>> {
    let parts = split_on(m, ';');
    codecs_param(parts.subrange(1, parts.len() as int))
}

/// Split a MIME string into base type and optional codecs parameter value.
/// E.g. `video/mp4; codecs="av01.0.04M.08"` gives `("video/mp4", Some("av01.0.04M.08"))`.
pub fn parse_mime_codecs(mime: &str) -> (r: (&str, Option<&str>))
    ensures
        r.0@ == mime_base(mime@),
        match r.1 {
            Some(c) => mime_codecs(mime@) == Some(c@),
            None => mime_codecs(mime@) is None,
        },
{
    let s = str_chars(mime);
    let n = s.len();
    let j0 = find_char(s.as_slice(), 0, ';');
    proof {
        lemma_split_at_first(s@, ';', j0 as int);
        assert(s@.subrange(0, n as int) =~= s@);
    }
    let (a, b) = trim_bounds(s.as_slice(), 0, j0);
    let base = mime.substring_char(a, b);
    if j0 == n {
        proof {
            assert(split_on(mime@, ';').subrange(1, 1) =~= Seq::<Seq<char>>::empty());
        }
        return (base, None);
    }
    let key = vec!['c', 'o', 'd', 'e', 'c', 's', '='];
    assert(key@ =~= codecs_key());
    let mut start: usize = j0 + 1;
    proof {
        lemma_split_nonempty(s@.subrange(start as int, n as int), ';');
        let parts = split_on(mime@, ';');
        assert(parts.subrange(1, parts.len() as int) =~= split_on(s@.subrange(start as int, n as int), ';'));
    }
    loop
        invariant
            s@ == mime@,
            n == s.len(),
            start <= n,
            key@ == codecs_key(),
            base@ == mime_base(mime@),
            mime_codecs(mime@) == codecs_param(split_on(s@.subrange(start as int, n as int), ';')),
        decreases n - start,
    {
        let j = find_char(s.as_slice(), start, ';');
        let ghost t = s@.subrange(start as int, n as int);
        proof {
            assert forall|i: int| 0 <= i < j - start implies t[i] != ';' by {
                assert(t[i] == s@[start + i]);
            }
            if j < n {
                assert(t[j - start] == s@[j as int]);
            }
            lemma_split_at_first(t, ';', j - start);
            lemma_split_nonempty(t, ';');
            assert(t.subrange(0, j - start) =~= s@.subrange(start as int, j as int));
        }
        let (a, b) = trim_bounds(s.as_slice(), start, j);
        let ghost parts = split_on(t, ';');
        proof {
            if j < n {
                assert(t.subrange(j - start + 1, t.len() as int) =~= s@.subrange(j + 1, n as int));
                lemma_split_nonempty(s@.subrange(j + 1, n as int), ';');
            }
            assert(parts[0] == s@.subrange(start as int, j as int));
        }
        if has_prefix_at(s.as_slice(), a, b, key.as_slice()) {
            let (c, d) = trim_char_bounds(s.as_slice(), a + 7, b, '"');
            let (e, f) = trim_char_bounds(s.as_slice(), c, d, '\'');
            proof {
                let p = s@.subrange(a as int, b as int);
                assert(p.subrange(7, p.len() as int) =~= s@.subrange(a + 7, b as int));
            }
            let codecs = mime.substring_char(e, f);
            return (base, Some(codecs));
        }
        if j == n {
            proof {
                assert(parts =~= seq![t]);
                assert(trim(parts[0]) == s@.subrange(a as int, b as int));
                assert(parts.subrange(1, 1) =~= Seq::<Seq<char>>::empty());
                assert(codecs_param(parts) == codecs_param(parts.subrange(1, parts.len() as int)));
            }
            return (base, None);
        }
        proof {
            assert(trim(parts[0]) == s@.subrange(a as int, b as int));
            assert(parts.subrange(1, parts.len() as int) =~= split_on(s@.subrange(j + 1, n as int), ';'));
        }
        start = j + 1;
    }
}


/// `video/mp4`.
pub open spec fn mp4_type() -> Seq<char> {
    seq!['v', 'i', 'd', 'e', 'o', '/', 'm', 'p', '4']
}

/// `video/x-m4v`.
pub open spec fn m4v_type() -> Seq<char> {
    seq!['v', 'i', 'd', 'e', 'o', '/', 'x', '-', 'm', '4', 'v']
}

/// A supported video codec: AV1 (`av01`) or H.264 (`avc1`, `avc3`).
pub open spec fn is_video_codec(c: Seq<char>) -> bool {
    ||| seq!['a', 'v', '0', '1'].is_prefix_of(c)
    ||| seq!['a', 'v', 'c', '1'].is_prefix_of(c)
    ||| seq!['a', 'v', 'c', '3'].is_prefix_of(c)
}

/// An audio codec accepted beside a video codec: `mp4a`, `opus`, `flac` or
/// `Opus`.
pub open spec fn is_audio_codec(c: Seq<char>) -> bool {
    ||| seq!['m', 'p', '4', 'a'].is_prefix_of(c)
    ||| seq!['o', 'p', 'u', 's'].is_prefix_of(c)
    ||| seq!['f', 'l', 'a', 'c'].is_prefix_of(c)
    ||| seq!['O', 'p', 'u', 's'].is_prefix_of(c)
}

/// A codec entry that rules playback out: non-empty and neither a supported
/// video codec nor an accepted audio codec.
pub open spec fn codec_rejected(c: Seq<char>) -> bool {
    c.len() > 0 && !is_video_codec(c) && !is_audio_codec(c)
}

/// Some entry of the list, trimmed, rules playback out.
pub open spec fn any_rejected(list: Seq<Seq<char>>) -> bool {
    exists|i: int| 0 <= i < list.len() && codec_rejected(trim(#[trigger] list[i]))
}

/// Some entry of the list, trimmed, is a supported video codec.
pub open spec fn any_video(list: Seq<Seq<char>>) -> bool {
    exists|i: int| 0 <= i < list.len() && is_video_codec(trim(#[trigger] list[i]))
}

/// `"probably"`.
pub open spec fn probably_text() -> Seq<char> {
    seq!['p', 'r', 'o', 'b', 'a', 'b', 'l', 'y']
}

/// `"maybe"`.
pub open spec fn maybe_text() -> Seq<char> {
    seq!['m', 'a', 'y', 'b', 'e']
}

/// The canPlayType answer for a video type: `""` for a container other than
/// MP4 or for an unsupported codec, `"maybe"` without codecs or without a
/// video codec, `"probably"` with a supported video codec.
pub open spec fn video_verdict(base: Seq<char>, codecs: Option<Seq<char>>) -> Seq<char> {
    if base != mp4_type() && base != m4v_type() {
        Seq::empty()
    } else {
        match codecs {
            None => maybe_text(),
            Some(cs) => {
                let list = split_on(cs, ',');
                if any_rejected(list) {
                    Seq::empty()
                } else if any_video(list) {
                    probably_text()
                } else {
                    maybe_text()
                }
            },
        }
    }
}

/// The model of an optional string slice.
pub open spec fn opt_view(o: Option<&str>) -> Option<Seq<char>> {
    match o {
        Some(t) => Some(t@),
        None => None,
    }
}

/// Whether `s[lo..hi]` starts with one of `ps`.
fn has_any_prefix(s: &[char], lo: usize, hi: usize, ps: &Vec<Vec<char>>) -> (r: bool)
    requires
        lo <= hi <= s.len(),
    ensures
        r == exists|i: int| 0 <= i < ps.len() && (#[trigger] ps@[i])@.is_prefix_of(s@.subrange(lo as int, hi as int)),
{
    let mut i: usize = 0;
    while i < ps.len()
        invariant
            i <= ps.len(),
            lo <= hi <= s.len(),
            forall|k: int| 0 <= k < i ==> !(#[trigger] ps@[k])@.is_prefix_of(s@.subrange(lo as int, hi as int)),
        decreases ps.len() - i,
    {
        if has_prefix_at(s, lo, hi, ps[i].as_slice()) {
            return true;
        }
        i = i + 1;
    }
    false
}

/// HAVI video codec policy.
///
/// Supported video codecs: AV1 (`av01`) and H.264 (`avc1`, `avc3`).
///
/// - `video/mp4` without codecs gives `"maybe"`
/// - `video/mp4` with supported video codecs gives `"probably"`
/// - `video/mp4` with unsupported video codecs gives `""`
/// - All other video containers give `""`
pub fn can_play_video_type(base: &str, codecs: Option<&str>) -> (r: &'static str)
    ensures
        r@ == video_verdict(base@, opt_view(codecs)),
{
    let mp4 = "video/mp4";
    let m4v = "video/x-m4v";
    let empty = "";
    let maybe = "maybe";
    let probably = "probably";
    proof {
        reveal_strlit("video/mp4");
        reveal_strlit("video/x-m4v");
        reveal_strlit("");
        reveal_strlit("maybe");
        reveal_strlit("probably");
        assert(mp4@ =~= mp4_type());
        assert(m4v@ =~= m4v_type());
        assert(empty@ =~= Seq::<char>::empty());
        assert(maybe@ =~= maybe_text());
        assert(probably@ =~= probably_text());
    }
    if !str_equals(base, mp4) && !str_equals(base, m4v) {
        return empty;
    }
    let cs = match codecs {
        Some(c) => c,
        None => {
            return maybe;
        },
    };
    // Parse comma-separated codec list. Every video codec must be av01 or avc1/avc3.
    // Known audio codecs (opus, mp4a, flac) are acceptable companions.
    let video_prefixes = vec![vec!['a', 'v', '0', '1'], vec!['a', 'v', 'c', '1'], vec!['a', 'v', 'c', '3']];
    let audio_prefixes = vec![
        vec!['m', 'p', '4', 'a'],
        vec!['o', 'p', 'u', 's'],
        vec!['f', 'l', 'a', 'c'],
        vec!['O', 'p', 'u', 's'],
    ];
    proof {
        assert(video_prefixes@[0]@ =~= seq!['a', 'v', '0', '1']);
        assert(video_prefixes@[1]@ =~= seq!['a', 'v', 'c', '1']);
        assert(video_prefixes@[2]@ =~= seq!['a', 'v', 'c', '3']);
        assert(audio_prefixes@[0]@ =~= seq!['m', 'p', '4', 'a']);
        assert(audio_prefixes@[1]@ =~= seq!['o', 'p', 'u', 's']);
        assert(audio_prefixes@[2]@ =~= seq!['f', 'l', 'a', 'c']);
        assert(audio_prefixes@[3]@ =~= seq!['O', 'p', 'u', 's']);
    }
    let s = str_chars(cs);
    let n = s.len();
    let ghost all = split_on(s@, ',');
    let ghost mut done: Seq<Seq<char>> = Seq::empty();
    let mut has_video_codec = false;
    let mut start: usize = 0;
    proof {
        assert(s@.subrange(0, n as int) =~= s@);
        assert(done + split_on(s@, ',') =~= all);
    }
    loop
        invariant
            n == s.len(),
            start <= n,
            s@ == cs@,
            opt_view(codecs) == Some(cs@),
            all == split_on(s@, ','),
            all == done + split_on(s@.subrange(start as int, n as int), ','),
            video_prefixes.len() == 3,
            audio_prefixes.len() == 4,
            video_prefixes@[0]@ == seq!['a', 'v', '0', '1'],
            video_prefixes@[1]@ == seq!['a', 'v', 'c', '1'],
            video_prefixes@[2]@ == seq!['a', 'v', 'c', '3'],
            audio_prefixes@[0]@ == seq!['m', 'p', '4', 'a'],
            audio_prefixes@[1]@ == seq!['o', 'p', 'u', 's'],
            audio_prefixes@[2]@ == seq!['f', 'l', 'a', 'c'],
            audio_prefixes@[3]@ == seq!['O', 'p', 'u', 's'],
            forall|i: int| 0 <= i < done.len() ==> !codec_rejected(trim(#[trigger] done[i])),
            has_video_codec == exists|i: int| 0 <= i < done.len() && is_video_codec(trim(#[trigger] done[i])),
            empty@ == Seq::<char>::empty(),
            maybe@ == maybe_text(),
            probably@ == probably_text(),
            base@ == mp4_type() || base@ == m4v_type(),
        decreases n - start,
    {
        let j = find_char(s.as_slice(), start, ',');
        let ghost t = s@.subrange(start as int, n as int);
        proof {
            assert forall|i: int| 0 <= i < j - start implies t[i] != ',' by {
                assert(t[i] == s@[start + i]);
            }
            if j < n {
                assert(t[j - start] == s@[j as int]);
                assert(t.subrange(j - start + 1, t.len() as int) =~= s@.subrange(j + 1, n as int));
            }
            lemma_split_at_first(t, ',', j - start);
            assert(t.subrange(0, j - start) =~= s@.subrange(start as int, j as int));
        }
        let (a, b) = trim_bounds(s.as_slice(), start, j);
        let ghost piece = s@.subrange(start as int, j as int);
        let ghost c = s@.subrange(a as int, b as int);
        assert(c == trim(piece));
        let ghost done2 = done.push(piece);
        let video = has_any_prefix(s.as_slice(), a, b, &video_prefixes);
        let audio = has_any_prefix(s.as_slice(), a, b, &audio_prefixes);
        proof {
            if video {
                let i = choose|i: int| 0 <= i < video_prefixes.len() && (#[trigger] video_prefixes@[i])@.is_prefix_of(c);
                assert(i == 0 || i == 1 || i == 2);
            } else {
                assert(!video_prefixes@[0]@.is_prefix_of(c));
                assert(!video_prefixes@[1]@.is_prefix_of(c));
                assert(!video_prefixes@[2]@.is_prefix_of(c));
            }
            assert(video == is_video_codec(c));
            if audio {
                let i = choose|i: int| 0 <= i < audio_prefixes.len() && (#[trigger] audio_prefixes@[i])@.is_prefix_of(c);
                assert(i == 0 || i == 1 || i == 2 || i == 3);
            } else {
                assert(!audio_prefixes@[0]@.is_prefix_of(c));
                assert(!audio_prefixes@[1]@.is_prefix_of(c));
                assert(!audio_prefixes@[2]@.is_prefix_of(c));
                assert(!audio_prefixes@[3]@.is_prefix_of(c));
            }
            assert(audio == is_audio_codec(c));
            assert(done2[done.len() as int] == piece);
            assert forall|i: int| 0 <= i < done.len() implies #[trigger] done2[i] == done[i] by {}
        }
        if a == b {
            // empty entry: skipped
        } else if video {
            has_video_codec = true;
        } else if audio {
            // Acceptable audio companion codec.
        } else {
            // Unsupported video codec (hev1, vp09, etc.)
            proof {
                let k = done.len() as int;
                assert(split_on(t, ',')[0] == piece);
                assert(all[k] == piece);
                assert(c.len() > 0);
                assert(codec_rejected(c));
                assert(codec_rejected(trim(all[k])));
                assert(exists|i: int| 0 <= i < all.len() && codec_rejected(trim(#[trigger] all[i])));
                assert(opt_view(codecs) == Some(s@));
                assert(any_rejected(all));
            }
            return empty;
        }
        proof {
            assert(!codec_rejected(trim(done2[done.len() as int])));
            if has_video_codec {
                if video && a != b {
                    assert(is_video_codec(trim(done2[done.len() as int])));
                } else {
                    let w = choose|i: int| 0 <= i < done.len() && is_video_codec(trim(#[trigger] done[i]));
                    assert(done2[w] == done[w]);
                }
            } else {
                assert forall|i: int| 0 <= i < done2.len() implies !is_video_codec(trim(#[trigger] done2[i])) by {
                    if i < done.len() {
                        assert(done2[i] == done[i]);
                    } else {
                        assert(c.len() == 0 || !video);
                    }
                }
            }
        }
        if j == n {
            proof {
                lemma_split_nonempty(t, ',');
                assert(split_on(t, ',') =~= seq![t]);
                assert(all =~= done2);
                if any_rejected(all) {
                    let w = choose|i: int| 0 <= i < all.len() && codec_rejected(trim(#[trigger] all[i]));
                    assert(all[w] == done2[w]);
                }
            }
            if has_video_codec {
                return probably;
            } else {
                return maybe;
            }
        }
        proof {
            assert(all =~= done2 + split_on(s@.subrange(j + 1, n as int), ','));
            done = done2;
        }
        start = j + 1;
    }
}


/// `video/`.
pub open spec fn video_prefix() -> Seq<char> {
    seq!['v', 'i', 'd', 'e', 'o', '/']
}

/// Returns the canPlayType string for the given MIME type.
/// `""` = cannot play, `"maybe"` = might play, `"probably"` = can play.
///
/// HAVI video policy: AV1 and H.264 in MP4. All other video containers and
/// codecs return `""`. Audio and other types are answered by the platform
/// backend when one is registered, and with `""` otherwise.
pub fn can_play_type<F: Fn(&str) -> &'static str>(mime: &str, platform: Option<&F>) -> (r: &'static str)
    requires
        platform matches Some(f) ==> f.requires((mime,)),
    ensures
        video_prefix().is_prefix_of(mime_base(mime@)) ==> r@ == video_verdict(mime_base(mime@), mime_codecs(mime@)),
        !video_prefix().is_prefix_of(mime_base(mime@)) ==> match platform {
            Some(f) => f.ensures((mime,), r),
            None => r@ == Seq::<char>::empty(),
        },
{
    let (base, codecs) = parse_mime_codecs(mime);
    let b = str_chars(base);
    let prefix = vec!['v', 'i', 'd', 'e', 'o', '/'];
    assert(prefix@ =~= video_prefix());
    assert(b@.subrange(0, b@.len() as int) =~= b@);
    if has_prefix_at(b.as_slice(), 0, b.len(), prefix.as_slice()) {
        return can_play_video_type(base, codecs);
    }
    // Audio types: delegate to platform backend.
    match platform {
        Some(f) => f(mime),
        None => {
            let empty = "";
            proof {
                reveal_strlit("");
            }
            assert(empty@ =~= Seq::<char>::empty());
            empty
        },
    }
}

} // verus!
