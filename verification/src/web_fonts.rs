//! Which `@font-face` sources the font loader can use.

use vstd::prelude::*;

use crate::text::str_equals;

verus! {

/// The format keywords of a `format()` hint.
#[derive(Clone, Copy, Debug, PartialEq, Eq)]
pub enum FontFaceSourceFormatKeyword {
    Collection,
    EmbeddedOpentype,
    Opentype,
    Svg,
    Truetype,
    Woff,
    Woff2,
}

/// A `format()` hint: a keyword, or a string.
#[derive(Debug)]
pub enum FontFaceSourceFormat {
    Keyword(FontFaceSourceFormatKeyword),
    String(String),
}

/// A source of an `@font-face` rule: a local font by family name, or a URL
/// with an optional format hint.
#[derive(Debug)]
pub enum WebFontSource {
    Local { family_name: String },
    Url { url: String, format_hint: Option<FontFaceSourceFormat> },
}

impl Clone for FontFaceSourceFormat {
    fn clone(&self) -> (r: Self)
        ensures
            r == *self,
    {
        match self {
            FontFaceSourceFormat::Keyword(k) => FontFaceSourceFormat::Keyword(*k),
            FontFaceSourceFormat::String(s) => FontFaceSourceFormat::String(s.clone()),
        }
    }
}

impl Clone for WebFontSource {
    fn clone(&self) -> (r: Self)
        ensures
            r == *self,
    {
        match self {
            WebFontSource::Local { family_name } => WebFontSource::Local { family_name: family_name.clone() },
            WebFontSource::Url { url, format_hint } => WebFontSource::Url {
                url: url.clone(),
                format_hint: match format_hint {
                    Some(h) => Some(h.clone()),
                    None => None,
                },
            },
        }
    }
}

/// The format strings of the static font formats that can be loaded.
pub open spec fn is_static_format_name(s: Seq<char>) -> bool {
    ||| s == "truetype"@
    ||| s == "opentype"@
    ||| s == "woff"@
    ||| s == "woff2"@
}

/// The format strings of variable fonts.
pub open spec fn is_variable_format_name(s: Seq<char>) -> bool {
    ||| s == "truetype-variations"@
    ||| s == "opentype-variations"@
    ||| s == "woff-variations"@
    ||| s == "woff2-variations"@
}

/// Whether a source can be loaded: local fonts and URLs without a hint can;
/// a hint must name TrueType, OpenType, WOFF or WOFF2, by keyword or by
/// string, or, where variable fonts are enabled, the variations of those
/// formats by string.
pub open spec fn web_font_source_supported(source: WebFontSource, variable_fonts_enabled: bool) -> bool {
    match source {
        WebFontSource::Local { .. } => true,
        WebFontSource::Url { format_hint, .. } => match format_hint {
            None => true,
            Some(FontFaceSourceFormat::Keyword(k)) => {
                ||| k == FontFaceSourceFormatKeyword::Truetype
                ||| k == FontFaceSourceFormatKeyword::Opentype
                ||| k == FontFaceSourceFormatKeyword::Woff
                ||| k == FontFaceSourceFormatKeyword::Woff2
            },
            Some(FontFaceSourceFormat::String(s)) => is_static_format_name(s@) || (variable_fonts_enabled
                && is_variable_format_name(s@)),
        },
    }
}

/// Whether the font loader can use `source`; `variable_fonts_enabled` is the
/// `layout.variable_fonts.enabled` preference.
pub fn is_supported_web_font_source(source: &WebFontSource, variable_fonts_enabled: bool) -> (r: bool)
    ensures
        r == web_font_source_supported(*source, variable_fonts_enabled),
{
    let format_hint = match source {
        WebFontSource::Url { format_hint, .. } => format_hint,
        WebFontSource::Local { .. } => {
            return true;
        },
    };
    let format_hint = match format_hint {
        Some(hint) => hint,
        None => {
            return true;
        },
    };
    match format_hint {
        FontFaceSourceFormat::Keyword(k) => {
            matches!(
                k,
                FontFaceSourceFormatKeyword::Truetype | FontFaceSourceFormatKeyword::Opentype
                    | FontFaceSourceFormatKeyword::Woff | FontFaceSourceFormatKeyword::Woff2
            )
        },
        FontFaceSourceFormat::String(string) => {
            let s = string.as_str();
            proof {
                reveal_strlit("truetype");
                reveal_strlit("opentype");
                reveal_strlit("woff");
                reveal_strlit("woff2");
                reveal_strlit("truetype-variations");
                reveal_strlit("opentype-variations");
                reveal_strlit("woff-variations");
                reveal_strlit("woff2-variations");
            }
            if str_equals(s, "truetype") || str_equals(s, "opentype") || str_equals(s, "woff") || str_equals(
                s,
                "woff2",
            ) {
                return true;
            }
            variable_fonts_enabled && (str_equals(s, "truetype-variations") || str_equals(
                s,
                "opentype-variations",
            ) || str_equals(s, "woff-variations") || str_equals(s, "woff2-variations"))
        },
    }
}

/// Which sources can be loaded: every local font and every URL without a
/// format hint; a URL whose hint is a keyword exactly where the keyword is
/// `truetype`, `opentype`, `woff` or `woff2`, whether or not variable fonts
/// are enabled; and a URL whose hint is the string `woff2-variations` (or
/// any `-variations` form of those formats) only where they are.
pub proof fn lemma_supported_formats(url: String, family_name: String, k: FontFaceSourceFormatKeyword, variable_fonts_enabled: bool)
    ensures
        web_font_source_supported(WebFontSource::Local { family_name }, variable_fonts_enabled),
        web_font_source_supported(WebFontSource::Url { url, format_hint: None }, variable_fonts_enabled),
        web_font_source_supported(
            WebFontSource::Url { url, format_hint: Some(FontFaceSourceFormat::Keyword(k)) },
            variable_fonts_enabled,
        ) <==> (k == FontFaceSourceFormatKeyword::Truetype || k == FontFaceSourceFormatKeyword::Opentype || k
            == FontFaceSourceFormatKeyword::Woff || k == FontFaceSourceFormatKeyword::Woff2),
        !web_font_source_supported(
            WebFontSource::Url { url, format_hint: Some(FontFaceSourceFormat::Keyword(FontFaceSourceFormatKeyword::Svg)) },
            variable_fonts_enabled,
        ),
        !web_font_source_supported(
            WebFontSource::Url {
                url,
                format_hint: Some(FontFaceSourceFormat::Keyword(FontFaceSourceFormatKeyword::EmbeddedOpentype)),
            },
            variable_fonts_enabled,
        ),
        !web_font_source_supported(
            WebFontSource::Url {
                url,
                format_hint: Some(FontFaceSourceFormat::Keyword(FontFaceSourceFormatKeyword::Collection)),
            },
            variable_fonts_enabled,
        ),
{
}

/// A string hint names a format that can be loaded exactly where it is
/// `truetype`, `opentype`, `woff` or `woff2`, or, with variable fonts
/// enabled, one of those followed by `-variations`.
pub proof fn lemma_supported_format_strings(url: String, hint: String, variable_fonts_enabled: bool)
    ensures
        web_font_source_supported(
            WebFontSource::Url { url, format_hint: Some(FontFaceSourceFormat::String(hint)) },
            variable_fonts_enabled,
        ) <==> ({
            let s = hint@;
            ||| s == "truetype"@ || s == "opentype"@ || s == "woff"@ || s == "woff2"@
            ||| variable_fonts_enabled && (s == "truetype-variations"@ || s == "opentype-variations"@ || s
                == "woff-variations"@ || s == "woff2-variations"@)
        }),
{
}

/// The sources that the loader tries, in the order it pops them from the
/// end: the supported sources of the rule, last first.
pub open spec fn sources_to_try(source_list: Seq<WebFontSource>, variable_fonts_enabled: bool) -> Seq<WebFontSource> {
    source_list.reverse().filter(supported_pred(variable_fonts_enabled))
}

/// `web_font_source_supported` as a predicate on sources.
pub open spec fn supported_pred(variable_fonts_enabled: bool) -> spec_fn(WebFontSource) -> bool {
    |s: WebFontSource| web_font_source_supported(s, variable_fonts_enabled)
}

/// The sources of a rule that the loader will try, kept last first so that
/// popping from the end tries them in the rule's order.
pub fn supported_sources(source_list: &Vec<WebFontSource>, variable_fonts_enabled: bool) -> (r: Vec<WebFontSource>)
    ensures
        r@ == sources_to_try(source_list@, variable_fonts_enabled),
{
    let ghost pred = supported_pred(variable_fonts_enabled);
    let mut r: Vec<WebFontSource> = Vec::new();
    let mut i: usize = source_list.len();
    while i > 0
        invariant
            i <= source_list.len(),
            pred == supported_pred(variable_fonts_enabled),
            r@ == source_list@.subrange(i as int, source_list.len() as int).reverse().filter(pred),
        decreases i,
    {
        i = i - 1;
        let ghost before = source_list@.subrange(i + 1, source_list.len() as int).reverse();
        let ghost after = source_list@.subrange(i as int, source_list.len() as int).reverse();
        proof {
            assert(after.drop_last() =~= before);
            assert(after.last() == source_list@[i as int]);
            assert(pred(source_list@[i as int]) == web_font_source_supported(
                source_list@[i as int],
                variable_fonts_enabled,
            ));
        }
        if is_supported_web_font_source(&source_list[i], variable_fonts_enabled) {
            r.push(source_list[i].clone());
        }
        proof {
            assert(after.filter(pred) == if pred(after.last()) {
                before.filter(pred).push(after.last())
            } else {
                before.filter(pred)
            }) by {
                reveal(Seq::filter);
            }
        }
    }
    proof {
        assert(source_list@.subrange(0, source_list.len() as int) =~= source_list@);
    }
    r
}

/// What the loader does with the next source it takes off its stack.
#[derive(Debug)]
pub enum WebFontSourceAction {
    /// No source is left: the load has failed.
    Fail,
    /// Download the font at this URL.
    Download { url: String },
    /// Use the installed font of this family.
    UseLocal { family_name: String },
}

/// Whether `names` holds a string equal to `name`.
pub open spec fn names_contain(names: Seq<String>, name: Seq<char>) -> bool {
    exists|i: int| 0 <= i < names.len() && names[i]@ == name
}

/// The loader's next step on the stack `remaining` (tried from its end):
/// the stack that is left and what to do. A URL is downloaded; a local
/// family is used where `usable_local` names it, and skipped otherwise;
/// an empty stack fails the load.
pub open spec fn next_source_step(remaining: Seq<WebFontSource>, usable_local: Seq<String>) -> (Seq<
    WebFontSource,
>, WebFontSourceAction)
    decreases remaining.len(),
{
    if remaining.len() == 0 {
        (remaining, WebFontSourceAction::Fail)
    } else {
        let rest = remaining.drop_last();
        match remaining.last() {
            WebFontSource::Url { url, .. } => (rest, WebFontSourceAction::Download { url }),
            WebFontSource::Local { family_name } => if names_contain(usable_local, family_name@) {
                (rest, WebFontSourceAction::UseLocal { family_name })
            } else {
                next_source_step(rest, usable_local)
            },
        }
    }
}

/// Whether `names` holds a string equal to `name`.
pub fn contains_name(names: &Vec<String>, name: &str) -> (r: bool)
    ensures
        r == names_contain(names@, name@),
{
    let mut i: usize = 0;
    while i < names.len()
        invariant
            i <= names.len(),
            forall|k: int| 0 <= k < i ==> names@[k]@ != name@,
        decreases names.len() - i,
    {
        if str_equals(names[i].as_str(), name) {
            return true;
        }
        i = i + 1;
    }
    false
}

/// Takes sources off the end of `remaining` until one can be tried: a URL
/// to download, or a local family that `usable_local` names (the families
/// for which an installed font was found). Local families without an
/// installed font are dropped; when the stack runs out the load fails.
pub fn next_web_font_source(remaining: &mut Vec<WebFontSource>, usable_local: &Vec<String>) -> (r:
    WebFontSourceAction)
    ensures
        (final(remaining)@, r) == next_source_step(old(remaining)@, usable_local@),
{
    let ghost goal = next_source_step(remaining@, usable_local@);
    loop
        invariant
            next_source_step(remaining@, usable_local@) == goal,
            goal == next_source_step(old(remaining)@, usable_local@),
        decreases remaining.len(),
    {
        let ghost before = remaining@;
        match remaining.pop() {
            None => {
                assert(remaining@ =~= before);
                return WebFontSourceAction::Fail;
            },
            Some(WebFontSource::Url { url, .. }) => {
                assert(remaining@ == before.drop_last());
                return WebFontSourceAction::Download { url };
            },
            Some(WebFontSource::Local { family_name }) => {
                assert(remaining@ == before.drop_last());
                if contains_name(usable_local, family_name.as_str()) {
                    assert(names_contain(usable_local@, before.last()->family_name@));
                    return WebFontSourceAction::UseLocal { family_name };
                }
            },
        }
    }
}

/// What the loader does with the first source of `sources` (in order) that
/// it can use: a URL, or a local family that `usable_local` names; `Fail`
/// where there is none.
pub open spec fn first_usable_source(sources: Seq<WebFontSource>, usable_local: Seq<String>) -> WebFontSourceAction
    decreases sources.len(),
{
    if sources.len() == 0 {
        WebFontSourceAction::Fail
    } else {
        match sources[0] {
            WebFontSource::Url { url, .. } => WebFontSourceAction::Download { url },
            WebFontSource::Local { family_name } => if names_contain(usable_local, family_name@) {
                WebFontSourceAction::UseLocal { family_name }
            } else {
                first_usable_source(sources.drop_first(), usable_local)
            },
        }
    }
}

/// Taking sources off the end of a stack uses the first usable source of
/// the stack read from its end.
pub proof fn lemma_next_source_is_first_usable(stack: Seq<WebFontSource>, usable_local: Seq<String>)
    ensures
        next_source_step(stack, usable_local).1 == first_usable_source(stack.reverse(), usable_local),
    decreases stack.len(),
{
    if stack.len() > 0 {
        let rest = stack.drop_last();
        lemma_next_source_is_first_usable(rest, usable_local);
        assert(stack.reverse()[0] == stack.last());
        assert(stack.reverse().drop_first() =~= rest.reverse());
    }
}

/// The first source that a load uses: on the sources of a rule, prepared by
/// `supported_sources`, the loader's first step uses the first supported
/// source in the rule's order that is a URL or an installed local family,
/// and fails only where there is none.
pub proof fn lemma_first_usable_source_in_rule_order(
    source_list: Seq<WebFontSource>,
    variable_fonts_enabled: bool,
    usable_local: Seq<String>,
)
    ensures
        next_source_step(sources_to_try(source_list, variable_fonts_enabled), usable_local).1
            == first_usable_source(source_list.filter(supported_pred(variable_fonts_enabled)), usable_local),
{
    lemma_next_source_is_first_usable(sources_to_try(source_list, variable_fonts_enabled), usable_local);
    lemma_sources_tried_in_rule_order(source_list, variable_fonts_enabled);
}

/// Popping from the end of the prepared list tries the supported sources
/// in the order the rule lists them.
#[verifier::spinoff_prover]
pub proof fn lemma_sources_tried_in_rule_order(source_list: Seq<WebFontSource>, variable_fonts_enabled: bool)
    ensures
        sources_to_try(source_list, variable_fonts_enabled).reverse() == source_list.filter(
            supported_pred(variable_fonts_enabled),
        ),
    decreases source_list.len(),
{
    let pred = supported_pred(variable_fonts_enabled);
    if source_list.len() > 0 {
        let rest = source_list.drop_first();
        lemma_sources_tried_in_rule_order(rest, variable_fonts_enabled);
        let x = source_list[0];
        assert(source_list.reverse() =~= rest.reverse().push(x));
        assert(rest.reverse().push(x).drop_last() =~= rest.reverse());
        assert(source_list.reverse().filter(pred) == if pred(x) {
            rest.reverse().filter(pred).push(x)
        } else {
            rest.reverse().filter(pred)
        }) by {
            reveal(Seq::filter);
        }
        assert(source_list =~= seq![x] + rest);
        Seq::filter_distributes_over_add(seq![x], rest, pred);
        assert(seq![x].filter(pred) =~= if pred(x) { seq![x] } else { Seq::<WebFontSource>::empty() }) by {
            reveal_with_fuel(Seq::filter, 2);
            assert(seq![x].drop_last() =~= Seq::<WebFontSource>::empty());
        }
        if pred(x) {
            assert(rest.reverse().filter(pred).push(x).reverse() =~= seq![x] + rest.reverse().filter(pred).reverse());
        }
    } else {
        assert(source_list.reverse() =~= source_list);
    }
}

} // verus!
