use havi::font_fallback::{EmojiPresentationPreference, FallbackFontSelectionOptions, FontDataError};
use havi::hppr_coordinate::parse_coordinate;
use havi::scroll::{AxesScrollSensitivity, Overflow, ScrollType};
use havi::web_fonts::{
    contains_name, is_supported_web_font_source, next_web_font_source, supported_sources, FontFaceSourceFormat,
    FontFaceSourceFormatKeyword, WebFontSource, WebFontSourceAction,
};

#[test]
fn emoji_presentation_follows_selectors_and_tables() {
    let emoji = FallbackFontSelectionOptions::new('\u{1F600}', None, String::new());
    assert_eq!(emoji.presentation_preference, EmojiPresentationPreference::Emoji);
    let digit = FallbackFontSelectionOptions::new('0', None, String::new());
    assert_eq!(digit.presentation_preference, EmojiPresentationPreference::Text);
    let letter = FallbackFontSelectionOptions::new('a', None, "en".to_string());
    assert_eq!(letter.presentation_preference, EmojiPresentationPreference::NoPreference);
    assert_eq!(letter.lang, "en");
    let forced_emoji = FallbackFontSelectionOptions::new('0', Some('\u{FE0F}'), String::new());
    assert_eq!(forced_emoji.presentation_preference, EmojiPresentationPreference::Emoji);
    let forced_text = FallbackFontSelectionOptions::new('\u{1F600}', Some('\u{FE0E}'), String::new());
    assert_eq!(forced_text.presentation_preference, EmojiPresentationPreference::Text);
    let other_next = FallbackFontSelectionOptions::new('a', Some('b'), String::new());
    assert_eq!(other_next.presentation_preference, EmojiPresentationPreference::NoPreference);
    assert_eq!(forced_text.character, '\u{1F600}');
}

#[test]
fn default_fallback_options() {
    let options = FallbackFontSelectionOptions::default();
    assert_eq!(options.character, ' ');
    assert_eq!(options.presentation_preference, EmojiPresentationPreference::NoPreference);
    assert!(options.lang.is_empty());
    assert!(FontDataError::FailedToLoad == FontDataError::FailedToLoad);
}

#[test]
fn coordinate_splits_group_app_location() {
    assert_eq!(
        parse_coordinate("//group/app/location"),
        Ok(("group".to_string(), "app".to_string(), "location".to_string()))
    );
    assert_eq!(
        parse_coordinate("//g/a/loc/sub/deeper"),
        Ok(("g".to_string(), "a".to_string(), "loc/sub/deeper".to_string()))
    );
    assert_eq!(parse_coordinate("g/a/l"), Ok(("g".to_string(), "a".to_string(), "l".to_string())));
    assert_eq!(parse_coordinate("//g/a/"), Ok(("g".to_string(), "a".to_string(), String::new())));
}

#[test]
fn malformed_coordinate_is_reported() {
    assert_eq!(parse_coordinate("//group/app"), Err("Invalid coordinate prefix: //group/app".to_string()));
    assert_eq!(parse_coordinate(""), Err("Invalid coordinate prefix: ".to_string()));
}

#[test]
fn overflow_gives_scroll_types() {
    assert_eq!(ScrollType::from(Overflow::Hidden), ScrollType::script());
    assert_eq!(ScrollType::from(Overflow::Auto).bits(), 3);
    assert_eq!(ScrollType::from(Overflow::Scroll), ScrollType::script().union(ScrollType::input_events()));
    assert!(ScrollType::from(Overflow::Visible).is_empty());
    assert!(ScrollType::from(Overflow::Clip).is_empty());
    assert!(ScrollType::from(Overflow::Auto).contains(ScrollType::input_events()));
    assert!(!ScrollType::from(Overflow::Hidden).contains(ScrollType::input_events()));
    let axes = AxesScrollSensitivity { x: ScrollType::from(Overflow::Hidden), y: ScrollType::empty() };
    assert_eq!(axes.x.bits(), 2);
    assert_eq!(axes.y.bits(), 0);
}

#[test]
fn web_font_sources_by_format() {
    let url = |hint: Option<FontFaceSourceFormat>| WebFontSource::Url { url: "font.bin".to_string(), format_hint: hint };
    assert!(is_supported_web_font_source(&WebFontSource::Local { family_name: "Arial".to_string() }, false));
    assert!(is_supported_web_font_source(&url(None), false));
    assert!(is_supported_web_font_source(&url(Some(FontFaceSourceFormat::Keyword(FontFaceSourceFormatKeyword::Woff2))), false));
    assert!(!is_supported_web_font_source(&url(Some(FontFaceSourceFormat::Keyword(FontFaceSourceFormatKeyword::Svg))), true));
    assert!(is_supported_web_font_source(&url(Some(FontFaceSourceFormat::String("opentype".to_string()))), false));
    assert!(!is_supported_web_font_source(&url(Some(FontFaceSourceFormat::String("woff-variations".to_string()))), false));
    assert!(is_supported_web_font_source(&url(Some(FontFaceSourceFormat::String("woff-variations".to_string()))), true));
    assert!(!is_supported_web_font_source(&url(Some(FontFaceSourceFormat::String("embedded-opentype".to_string()))), true));
}

#[test]
fn supported_sources_are_kept_last_first() {
    let url = |name: &str, hint: Option<FontFaceSourceFormat>| WebFontSource::Url { url: name.to_string(), format_hint: hint };
    let list = vec![
        WebFontSource::Local { family_name: "Local Sans".to_string() },
        url("a.eot", Some(FontFaceSourceFormat::Keyword(FontFaceSourceFormatKeyword::EmbeddedOpentype))),
        url("a.woff2", Some(FontFaceSourceFormat::String("woff2".to_string()))),
        url("a.ttf", None),
    ];
    let mut prepared = supported_sources(&list, false);
    let mut tried = Vec::new();
    while let Some(source) = prepared.pop() {
        tried.push(match source {
            WebFontSource::Local { family_name } => family_name,
            WebFontSource::Url { url, .. } => url,
        });
    }
    assert_eq!(tried, vec!["Local Sans".to_string(), "a.woff2".to_string(), "a.ttf".to_string()]);
    assert!(supported_sources(&vec![], true).is_empty());
}

#[test]
fn web_font_sources_are_tried_until_one_can_load() {
    let local = |name: &str| WebFontSource::Local { family_name: name.to_string() };
    let url = |name: &str| WebFontSource::Url { url: name.to_string(), format_hint: None };
    let list = vec![local("Missing Sans"), url("a.woff2"), local("Installed Serif"), local("Gone")];
    let installed = vec!["Installed Serif".to_string()];
    let mut stack = supported_sources(&list, false);
    let first = next_web_font_source(&mut stack, &installed);
    assert!(matches!(first, WebFontSourceAction::Download { ref url } if url == "a.woff2"));
    assert_eq!(stack.len(), 2);
    let second = next_web_font_source(&mut stack, &installed);
    assert!(matches!(second, WebFontSourceAction::UseLocal { ref family_name } if family_name == "Installed Serif"));
    assert_eq!(stack.len(), 1);
    assert!(matches!(next_web_font_source(&mut stack, &installed), WebFontSourceAction::Fail));
    assert!(stack.is_empty());
    assert!(matches!(next_web_font_source(&mut stack, &installed), WebFontSourceAction::Fail));
    assert!(contains_name(&installed, "Installed Serif"));
    assert!(!contains_name(&installed, "Installed"));
}

#[test]
fn coordinate_parts_rejoin_into_path() {
    let (group, app, location) = parse_coordinate("//g1/app2/loc/x").unwrap();
    assert_eq!(format!("{group}/{app}/{location}"), "g1/app2/loc/x");
    assert!(!group.contains('/') && !app.contains('/'));
}

#[test]
fn protocol_error_lines() {
    use_error_line("FATAL AUTH bad signature", "AUTH", "bad signature", true);
    use_error_line("ERROR NOT_FOUND no such packet here", "NOT_FOUND", "no such packet here", false);
    use_error_line("ERROR TIMEOUT", "TIMEOUT", "", false);
    use_error_line("connection reset", "CONNECTION", "connection reset", true);
    use_error_line("FATAL", "CONNECTION", "FATAL", true);
}

fn use_error_line(line: &str, error_type: &str, detail: &str, fatal: bool) {
    let e = havi::hppr_error::parse_error_string(line);
    assert_eq!(e.error_type, error_type);
    assert_eq!(e.detail, detail);
    assert_eq!(e.fatal, fatal);
}
