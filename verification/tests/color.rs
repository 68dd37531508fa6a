use minigrep::ColorMode;
use minigrep::HighlightColor;
use minigrep::RESET;

#[test]
fn test_color_mode_from_str() {
    assert_eq!(ColorMode::from_str("always").unwrap(), ColorMode::Always);
    assert_eq!(ColorMode::from_str("auto").unwrap(), ColorMode::Auto);
    assert_eq!(ColorMode::from_str("never").unwrap(), ColorMode::Never);
    assert!(ColorMode::from_str("invalid").is_err());
}

#[test]
fn color_mode_names_ignore_case() {
    assert_eq!(ColorMode::from_str("ALWAYS"), Ok(ColorMode::Always));
    assert_eq!(ColorMode::from_str("Auto"), Ok(ColorMode::Auto));
    assert_eq!(ColorMode::from_str("nEVER"), Ok(ColorMode::Never));
    assert_eq!(
        ColorMode::from_str(""),
        Err("invalid color mode, use 'always', 'auto', or 'never'")
    );
    assert_eq!(
        ColorMode::from_str("always "),
        Err("invalid color mode, use 'always', 'auto', or 'never'")
    );
}

#[test]
fn highlight_color_names() {
    assert_eq!(HighlightColor::from_str("red"), Ok(HighlightColor::Red));
    assert_eq!(HighlightColor::from_str("GREEN"), Ok(HighlightColor::Green));
    assert_eq!(HighlightColor::from_str("Yellow"), Ok(HighlightColor::Yellow));
    assert_eq!(HighlightColor::from_str("blue"), Ok(HighlightColor::Blue));
    assert_eq!(HighlightColor::from_str("magenta"), Ok(HighlightColor::Magenta));
    assert_eq!(HighlightColor::from_str("cyan"), Ok(HighlightColor::Cyan));
    assert_eq!(HighlightColor::from_str("pink"), Err("invalid highlight color"));
    assert_eq!(HighlightColor::from_str("réd"), Err("invalid highlight color"));
}

#[test]
fn highlight_color_codes() {
    assert_eq!(HighlightColor::Red.code(), "\x1b[31m");
    assert_eq!(HighlightColor::Green.code(), "\x1b[32m");
    assert_eq!(HighlightColor::Yellow.code(), "\x1b[33m");
    assert_eq!(HighlightColor::Blue.code(), "\x1b[34m");
    assert_eq!(HighlightColor::Magenta.code(), "\x1b[35m");
    assert_eq!(HighlightColor::Cyan.code(), "\x1b[36m");
    assert_eq!(RESET, "\x1b[0m");
}

#[test]
fn color_follows_the_mode_and_the_terminal() {
    assert!(ColorMode::Always.use_color(false));
    assert!(ColorMode::Always.use_color(true));
    assert!(!ColorMode::Never.use_color(false));
    assert!(!ColorMode::Never.use_color(true));
    assert!(!ColorMode::Auto.use_color(false));
    assert!(ColorMode::Auto.use_color(true));
}

#[test]
fn resolving_asks_the_terminal_in_auto_mode_only() {
    assert!(ColorMode::Always.resolve());
    assert!(!ColorMode::Never.resolve());
    let first = ColorMode::Auto.resolve();
    assert_eq!(first, atty::is(atty::Stream::Stdout));
}

#[test]
fn lowercase_names_are_taken_as_they_are() {
    assert_eq!(ColorMode::from_lowercase(b"always"), Some(ColorMode::Always));
    assert_eq!(ColorMode::from_lowercase(b"auto"), Some(ColorMode::Auto));
    assert_eq!(ColorMode::from_lowercase(b"never"), Some(ColorMode::Never));
    assert_eq!(ColorMode::from_lowercase(b"Never"), None);
    assert_eq!(ColorMode::from_lowercase(b""), None);
    assert_eq!(HighlightColor::from_lowercase(b"red"), Some(HighlightColor::Red));
    assert_eq!(HighlightColor::from_lowercase(b"green"), Some(HighlightColor::Green));
    assert_eq!(HighlightColor::from_lowercase(b"yellow"), Some(HighlightColor::Yellow));
    assert_eq!(HighlightColor::from_lowercase(b"blue"), Some(HighlightColor::Blue));
    assert_eq!(HighlightColor::from_lowercase(b"magenta"), Some(HighlightColor::Magenta));
    assert_eq!(HighlightColor::from_lowercase(b"cyan"), Some(HighlightColor::Cyan));
    assert_eq!(HighlightColor::from_lowercase(b"RED"), None);
}
