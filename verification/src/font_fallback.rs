//! Options for choosing a fallback font for a character: whether the
//! emoji or the text presentation of the character is preferred.

use unicode_properties::emoji;
use unicode_properties::{EmojiStatus, UnicodeEmoji};
use vstd::prelude::*;

verus! {

/// The `Emoji`, `Emoji_Component`, `Emoji_Presentation`,
/// `Emoji_Modifier_Base` and `Emoji_Modifier` properties of a character, as
/// the Unicode tables combine them.
#[derive(Clone, Copy, Debug, PartialEq, Eq)]
pub enum EmojiStatusKind {
    NonEmoji,
    NonEmojiButEmojiComponent,
    EmojiPresentation,
    EmojiModifierBase,
    EmojiPresentationAndModifierBase,
    EmojiOther,
    EmojiPresentationAndEmojiComponent,
    EmojiPresentationAndModifierAndEmojiComponent,
    EmojiOtherAndEmojiComponent,
    /// A status that the tables' enum, which is open to additions, may gain
    /// in a later version; the tables in use give none.
    Unlisted,
}

/// Why font data could not be had.
#[derive(Copy, Clone, PartialEq)]
pub enum FontDataError {
    FailedToLoad,
}

/// The emoji status of a character in the Unicode emoji tables.
pub uninterp spec fn unicode_emoji_status(c: char) -> EmojiStatusKind;

/// `UnicodeEmoji::emoji_status` of `unicode_properties`: looks the
/// character up in the crate's emoji table, which covers every character;
/// the contract names the result and adds nothing.
#[verifier::external_body]
fn emoji_status(c: char) -> (r: EmojiStatusKind)
    ensures
        r == unicode_emoji_status(c),
{
    match c.emoji_status() {
        EmojiStatus::NonEmoji => EmojiStatusKind::NonEmoji,
        EmojiStatus::NonEmojiButEmojiComponent => EmojiStatusKind::NonEmojiButEmojiComponent,
        EmojiStatus::EmojiPresentation => EmojiStatusKind::EmojiPresentation,
        EmojiStatus::EmojiModifierBase => EmojiStatusKind::EmojiModifierBase,
        EmojiStatus::EmojiPresentationAndModifierBase => EmojiStatusKind::EmojiPresentationAndModifierBase,
        EmojiStatus::EmojiOther => EmojiStatusKind::EmojiOther,
        EmojiStatus::EmojiPresentationAndEmojiComponent => EmojiStatusKind::EmojiPresentationAndEmojiComponent,
        EmojiStatus::EmojiPresentationAndModifierAndEmojiComponent => {
            EmojiStatusKind::EmojiPresentationAndModifierAndEmojiComponent
        },
        EmojiStatus::EmojiOtherAndEmojiComponent => EmojiStatusKind::EmojiOtherAndEmojiComponent,
        _ => EmojiStatusKind::Unlisted,
    }
}

/// `UnicodeEmoji::is_emoji_char` of `unicode_properties`: by the crate's
/// source, `Emoji=YES`, that is, the emoji status is neither `NonEmoji` nor
/// `NonEmojiButEmojiComponent`.
#[verifier::external_body]
fn is_emoji_char(c: char) -> (r: bool)
    ensures
        r == !(unicode_emoji_status(c) == EmojiStatusKind::NonEmoji || unicode_emoji_status(c)
            == EmojiStatusKind::NonEmojiButEmojiComponent),
{
    c.is_emoji_char()
}

/// `emoji::is_emoji_presentation_selector` of `unicode_properties`: the
/// character is U+FE0F VARIATION SELECTOR-16.
#[verifier::external_body]
fn is_emoji_presentation_selector(c: char) -> (r: bool)
    ensures
        r == (c == '\u{FE0F}'),
{
    emoji::is_emoji_presentation_selector(c)
}

/// `emoji::is_text_presentation_selector` of `unicode_properties`: the
/// character is U+FE0E VARIATION SELECTOR-15.
#[verifier::external_body]
fn is_text_presentation_selector(c: char) -> (r: bool)
    ensures
        r == (c == '\u{FE0E}'),
{
    emoji::is_text_presentation_selector(c)
}

/// Whether or not font fallback selection prefers the emoji or text representation
/// of a character. With `NoPreference` either presentation is acceptable.
#[derive(Clone, Copy, Debug, PartialEq, Eq)]
pub enum EmojiPresentationPreference {
    NoPreference,
    Text,
    Emoji,
}

/// A status with `Emoji_Presentation=YES`.
pub open spec fn has_emoji_presentation(s: EmojiStatusKind) -> bool {
    ||| s == EmojiStatusKind::EmojiPresentation
    ||| s == EmojiStatusKind::EmojiPresentationAndModifierBase
    ||| s == EmojiStatusKind::EmojiPresentationAndEmojiComponent
    ||| s == EmojiStatusKind::EmojiPresentationAndModifierAndEmojiComponent
}

/// The presentation preferred for `character` followed by `next_character`:
/// an explicit variation selector decides; else a character with an emoji
/// presentation prefers emoji, another emoji character prefers text, and any
/// other character has no preference.
pub open spec fn presentation_preference_spec(character: char, next_character: Option<char>) -> EmojiPresentationPreference {
    if next_character == Some('\u{FE0F}') {
        EmojiPresentationPreference::Emoji
    } else if next_character == Some('\u{FE0E}') {
        EmojiPresentationPreference::Text
    } else if has_emoji_presentation(unicode_emoji_status(character)) {
        EmojiPresentationPreference::Emoji
    } else if !(unicode_emoji_status(character) == EmojiStatusKind::NonEmoji || unicode_emoji_status(character)
        == EmojiStatusKind::NonEmojiButEmojiComponent) {
        EmojiPresentationPreference::Text
    } else {
        EmojiPresentationPreference::NoPreference
    }
}

/// What font fallback selection looks for: a character, its preferred
/// presentation and the content language.
#[derive(Clone, Debug)]
pub struct FallbackFontSelectionOptions {
    pub character: char,
    pub presentation_preference: EmojiPresentationPreference,
    pub lang: String,
}

impl FallbackFontSelectionOptions {
    pub fn new(character: char, next_character: Option<char>, lang: String) -> (r: Self)
        ensures
            r.character == character,
            r.presentation_preference == presentation_preference_spec(character, next_character),
            r.lang == lang,
    {
        let by_selector = match next_character {
            Some(next) => {
                if is_emoji_presentation_selector(next) {
                    Some(EmojiPresentationPreference::Emoji)
                } else if is_text_presentation_selector(next) {
                    Some(EmojiPresentationPreference::Text)
                } else {
                    None
                }
            },
            None => None,
        };
        let presentation_preference = match by_selector {
            Some(p) => p,
            None => {
                // Only characters that explicitly have an emoji presentation select the emoji
                // font; characters such as '0' are also used outside of emoji clusters.
                let has_presentation = match emoji_status(character) {
                    EmojiStatusKind::EmojiPresentation
                    | EmojiStatusKind::EmojiPresentationAndModifierBase
                    | EmojiStatusKind::EmojiPresentationAndEmojiComponent
                    | EmojiStatusKind::EmojiPresentationAndModifierAndEmojiComponent => true,
                    _ => false,
                };
                if has_presentation {
                    EmojiPresentationPreference::Emoji
                } else if is_emoji_char(character) {
                    EmojiPresentationPreference::Text
                } else {
                    EmojiPresentationPreference::NoPreference
                }
            },
        };
        Self { character, presentation_preference, lang }
    }
}

impl Default for FallbackFontSelectionOptions {
    fn default() -> (r: Self)
        ensures
            r.character == ' ',
            r.presentation_preference == EmojiPresentationPreference::NoPreference,
            r.lang@ == Seq::<char>::empty(),
    {
        Self { character: ' ', presentation_preference: EmojiPresentationPreference::NoPreference, lang: String::new() }
    }
}

} // verus!
