//! Colour settings: when to colour the output, and with which escape
//! sequence.

use crate::fold::fold;
use crate::fold::folded;
use crate::text::same_bytes;
use vstd::prelude::*;
use vstd::string::*;

verus! {

/// The escape sequence that ends a coloured stretch.
pub const RESET: &'static str = "\x1b[0m";

/// What `ColorMode::from_str` answers to a name that is no colour mode.
pub const INVALID_COLOR_MODE: &'static str = "invalid color mode, use 'always', 'auto', or 'never'";

/// What `HighlightColor::from_str` answers to a name that is no colour.
pub const INVALID_HIGHLIGHT_COLOR: &'static str = "invalid highlight color";

/// When to colour the output.
#[derive(Debug, PartialEq, Eq, Structural, Clone, Copy)]
pub enum ColorMode {
    Always,
    Auto,
    Never,
}

/// The colour of highlighted text.
#[derive(Debug, PartialEq, Eq, Structural, Clone, Copy)]
pub enum HighlightColor {
    Red,
    Green,
    Yellow,
    Blue,
    Magenta,
    Cyan,
}

/// The colour mode that a name in lowercase stands for.
pub open spec fn color_mode_of(low: Seq<u8>) -> Option<ColorMode> {
    if low == "always".spec_bytes() {
        Some(ColorMode::Always)
    } else if low == "auto".spec_bytes() {
        Some(ColorMode::Auto)
    } else if low == "never".spec_bytes() {
        Some(ColorMode::Never)
    } else {
        None
    }
}

/// The colour mode that a name stands for, whatever the case of its letters.
pub open spec fn color_mode_named(name: Seq<u8>) -> Option<ColorMode> {
    color_mode_of(folded(name))
}

/// The colour that a name in lowercase stands for.
pub open spec fn highlight_color_of(low: Seq<u8>) -> Option<HighlightColor> {
    if low == "red".spec_bytes() {
        Some(HighlightColor::Red)
    } else if low == "green".spec_bytes() {
        Some(HighlightColor::Green)
    } else if low == "yellow".spec_bytes() {
        Some(HighlightColor::Yellow)
    } else if low == "blue".spec_bytes() {
        Some(HighlightColor::Blue)
    } else if low == "magenta".spec_bytes() {
        Some(HighlightColor::Magenta)
    } else if low == "cyan".spec_bytes() {
        Some(HighlightColor::Cyan)
    } else {
        None
    }
}

/// The colour that a name stands for, whatever the case of its letters.
pub open spec fn highlight_color_named(name: Seq<u8>) -> Option<HighlightColor> {
    highlight_color_of(folded(name))
}

/// The escape sequence that starts a stretch in the given colour.
pub open spec fn color_code(color: HighlightColor) -> Seq<char> {
    match color {
        HighlightColor::Red => "\x1b[31m"@,
        HighlightColor::Green => "\x1b[32m"@,
        HighlightColor::Yellow => "\x1b[33m"@,
        HighlightColor::Blue => "\x1b[34m"@,
        HighlightColor::Magenta => "\x1b[35m"@,
        HighlightColor::Cyan => "\x1b[36m"@,
    }
}

/// Whether output is coloured under `mode`, given whether it goes to a
/// terminal.
pub open spec fn wants_color(mode: ColorMode, terminal: bool) -> bool {
    match mode {
        ColorMode::Always => true,
        ColorMode::Never => false,
        ColorMode::Auto => terminal,
    }
}

/// Asks `atty::is` whether standard output is a terminal. The answer depends
/// on where the program runs, so nothing is said of it.
#[verifier::external_body]
fn stdout_is_terminal() -> (answer: bool) {
    atty::is(atty::Stream::Stdout)
}

impl ColorMode {
    /// The colour mode that the lowercase name `low` stands for: one of
    /// `always`, `auto` and `never`.
    pub fn from_lowercase(low: &[u8]) -> (mode: Option<ColorMode>)
        ensures
            mode == color_mode_of(low@),
    {
        if same_bytes(low, "always".as_bytes()) {
            Some(ColorMode::Always)
        } else if same_bytes(low, "auto".as_bytes()) {
            Some(ColorMode::Auto)
        } else if same_bytes(low, "never".as_bytes()) {
            Some(ColorMode::Never)
        } else {
            None
        }
    }

    /// The colour mode that `s` names, whatever the case of its letters.
    pub fn from_str(s: &str) -> (r: Result<ColorMode, &'static str>)
        ensures
            match color_mode_named(s.spec_bytes()) {
                Some(mode) => r == Ok::<ColorMode, &'static str>(mode),
                None => r == Err::<ColorMode, &'static str>(INVALID_COLOR_MODE),
            },
    {
        let low = fold(s);
        match ColorMode::from_lowercase(low.as_slice()) {
            Some(mode) => Ok(mode),
            None => Err(INVALID_COLOR_MODE),
        }
    }

    /// Whether output is coloured, given whether it goes to a terminal:
    /// always, never, or on a terminal only.
    pub fn use_color(&self, terminal: bool) -> (on: bool)
        ensures
            on == wants_color(*self, terminal),
    {
        match self {
            ColorMode::Always => true,
            ColorMode::Never => false,
            ColorMode::Auto => terminal,
        }
    }

    /// Whether output is coloured. Standard output is asked whether it is a
    /// terminal only in `Auto` mode, where that answer decides.
    pub fn resolve(&self) -> (on: bool)
        ensures
            *self == ColorMode::Always ==> on,
            *self == ColorMode::Never ==> !on,
    {
        match self {
            ColorMode::Always => true,
            ColorMode::Never => false,
            ColorMode::Auto => {
                let terminal = stdout_is_terminal();
                self.use_color(terminal)
            },
        }
    }
}

impl HighlightColor {
    /// The colour that the lowercase name `low` stands for: one of `red`,
    /// `green`, `yellow`, `blue`, `magenta` and `cyan`.
    pub fn from_lowercase(low: &[u8]) -> (color: Option<HighlightColor>)
        ensures
            color == highlight_color_of(low@),
    {
        if same_bytes(low, "red".as_bytes()) {
            Some(HighlightColor::Red)
        } else if same_bytes(low, "green".as_bytes()) {
            Some(HighlightColor::Green)
        } else if same_bytes(low, "yellow".as_bytes()) {
            Some(HighlightColor::Yellow)
        } else if same_bytes(low, "blue".as_bytes()) {
            Some(HighlightColor::Blue)
        } else if same_bytes(low, "magenta".as_bytes()) {
            Some(HighlightColor::Magenta)
        } else if same_bytes(low, "cyan".as_bytes()) {
            Some(HighlightColor::Cyan)
        } else {
            None
        }
    }

    /// The colour that `s` names, whatever the case of its letters.
    pub fn from_str(s: &str) -> (r: Result<HighlightColor, &'static str>)
        ensures
            match highlight_color_named(s.spec_bytes()) {
                Some(color) => r == Ok::<HighlightColor, &'static str>(color),
                None => r == Err::<HighlightColor, &'static str>(INVALID_HIGHLIGHT_COLOR),
            },
    {
        let low = fold(s);
        match HighlightColor::from_lowercase(low.as_slice()) {
            Some(color) => Ok(color),
            None => Err(INVALID_HIGHLIGHT_COLOR),
        }
    }

    /// The escape sequence that starts a stretch in this colour.
    pub fn code(&self) -> (code: &'static str)
        ensures
            code@ == color_code(*self),
    {
        match self {
            HighlightColor::Red => "\x1b[31m",
            HighlightColor::Green => "\x1b[32m",
            HighlightColor::Yellow => "\x1b[33m",
            HighlightColor::Blue => "\x1b[34m",
            HighlightColor::Magenta => "\x1b[35m",
            HighlightColor::Cyan => "\x1b[36m",
        }
    }
}

} // verus!
