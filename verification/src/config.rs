//! The configuration of a run, and how it is read from the command line.

use crate::color::color_mode_named;
use crate::color::highlight_color_named;
use crate::color::ColorMode;
use crate::color::HighlightColor;
use crate::color::INVALID_COLOR_MODE;
use crate::color::INVALID_HIGHLIGHT_COLOR;
use crate::boundary::lemma_occurrence_on_boundaries;
use crate::boundary::slice;
use crate::text::matches_at;
use crate::text::occurs_at;
use crate::text::same_bytes;
use vstd::prelude::*;
use vstd::string::*;
use vstd::utf8::*;

verus! {

/// The answer to a command line with fewer than three arguments.
pub const NOT_ENOUGH_ARGUMENTS: &'static str = "not enough arguments";

/// The answer to a flag that is none of the known ones.
pub const INVALID_FLAG: &'static str = "invalid flag argument";

/// The answer to a command line that ends with its flags.
pub const MISSING_QUERY: &'static str = "missing query argument";

/// The answer to a command line that ends with its query.
pub const MISSING_FILENAME: &'static str = "missing filename argument";

/// The byte with which every flag starts.
pub const DASH: u8 = 0x2d;

/// What the flags of a command line decide.
#[derive(Debug, PartialEq, Eq, Structural, Clone, Copy)]
pub struct Switches {
    pub case_sensitive: bool,
    pub invert: bool,
    pub count_only: bool,
    pub color_mode: ColorMode,
    pub highlight_color: HighlightColor,
}

/// The configuration of a run.
pub struct Config {
    pub case_sensitive: bool,
    pub invert: bool,
    pub count_only: bool,
    pub query: String,
    pub filename: String,
    pub color_mode: ColorMode,
    pub highlight_color: HighlightColor,
}

/// A configuration as plain values: its switches, and its two strings as
/// UTF-8 bytes.
pub struct ConfigView {
    pub switches: Switches,
    pub query: Seq<u8>,
    pub filename: Seq<u8>,
}

impl View for Config {
    type V = ConfigView;

    open spec fn view(&self) -> ConfigView {
        ConfigView {
            switches: Switches {
                case_sensitive: self.case_sensitive,
                invert: self.invert,
                count_only: self.count_only,
                color_mode: self.color_mode,
                highlight_color: self.highlight_color,
            },
            query: encode_utf8(self.query@),
            filename: encode_utf8(self.filename@),
        }
    }
}

/// The arguments of a command line, each as its UTF-8 bytes.
pub open spec fn arg_bytes(args: Seq<String>) -> Seq<Seq<u8>> {
    args.map_values(|arg: String| encode_utf8(arg@))
}

/// The switches before any flag is read. A set environment switch makes the
/// search case-insensitive from the start.
pub open spec fn initial_switches(case_insensitive_env: bool) -> Switches {
    Switches {
        case_sensitive: !case_insensitive_env,
        invert: false,
        count_only: false,
        color_mode: ColorMode::Auto,
        highlight_color: HighlightColor::Red,
    }
}

/// An argument is a flag when it starts with a dash.
pub open spec fn is_flag(arg: Seq<u8>) -> bool {
    arg.len() > 0 && arg[0] == DASH
}

/// `s` without `prefix` at its start, as often as it stands there.
pub open spec fn without_leading(s: Seq<u8>, prefix: Seq<u8>) -> Seq<u8>
    decreases s.len(),
{
    if prefix.len() > 0 && occurs_at(s, prefix, 0) {
        without_leading(s.subrange(prefix.len() as int, s.len() as int), prefix)
    } else {
        s
    }
}

/// The switches after the flag `arg`, or why `arg` is not accepted.
#[verifier::opaque]
pub open spec fn flag_applied(arg: Seq<u8>, switches: Switches) -> Result<Switches, &'static str> {
    if arg == "-i".spec_bytes() {
        Ok(Switches { case_sensitive: false, ..switches })
    } else if arg == "-v".spec_bytes() {
        Ok(Switches { invert: true, ..switches })
    } else if arg == "-n".spec_bytes() {
        Ok(Switches { count_only: true, ..switches })
    } else if occurs_at(arg, "--color=".spec_bytes(), 0) {
        match color_mode_named(without_leading(arg, "--color=".spec_bytes())) {
            Some(mode) => Ok(Switches { color_mode: mode, ..switches }),
            None => Err(INVALID_COLOR_MODE),
        }
    } else if occurs_at(arg, "--highlight=".spec_bytes(), 0) {
        match highlight_color_named(without_leading(arg, "--highlight=".spec_bytes())) {
            Some(color) => Ok(Switches { highlight_color: color, ..switches }),
            None => Err(INVALID_HIGHLIGHT_COLOR),
        }
    } else {
        Err(INVALID_FLAG)
    }
}

/// The switches after the run of flags that starts at argument `at`, and the
/// index of the first argument behind that run; or why a flag of the run is
/// not accepted.
pub open spec fn flags_read(
    args: Seq<Seq<u8>>,
    at: int,
    switches: Switches,
) -> Result<(Switches, int), &'static str>
    decreases args.len() - at,
{
    if 0 <= at < args.len() && is_flag(args[at]) {
        match flag_applied(args[at], switches) {
            Ok(next) => flags_read(args, at + 1, next),
            Err(why) => Err(why),
        }
    } else {
        Ok((switches, at))
    }
}

/// The configuration that a command line asks for, or why there is none.
/// Argument 0 is the program's name. The flags come first; the first argument
/// that is no flag is the query, and the one after it the file name.
pub open spec fn parsed(
    args: Seq<Seq<u8>>,
    case_insensitive_env: bool,
) -> Result<ConfigView, &'static str> {
    if args.len() < 3 {
        Err(NOT_ENOUGH_ARGUMENTS)
    } else {
        match flags_read(args, 1, initial_switches(case_insensitive_env)) {
            Err(why) => Err(why),
            Ok((switches, at)) => {
                if at >= args.len() {
                    Err(MISSING_QUERY)
                } else if at + 1 >= args.len() {
                    Err(MISSING_FILENAME)
                } else {
                    Ok(ConfigView { switches, query: args[at], filename: args[at + 1] })
                }
            },
        }
    }
}

/// Whether `arg` starts with a dash.
fn starts_with_dash(arg: &str) -> (flag: bool)
    ensures
        flag == is_flag(arg.spec_bytes()),
{
    let bytes = arg.as_bytes();
    bytes.len() > 0 && bytes[0] == DASH
}

/// The value of a flag: `arg` without `prefix` at its start, as often as it
/// stands there.
fn flag_value<'a>(arg: &'a str, prefix: &str) -> (value: &'a str)
    requires
        prefix.spec_bytes().len() > 0,
    ensures
        value.spec_bytes() == without_leading(arg.spec_bytes(), prefix.spec_bytes()),
{
    let bytes = arg.as_bytes();
    let lead = prefix.as_bytes();
    let mut skip: usize = 0;
    proof {
        encode_utf8_valid_utf8(arg@);
        encode_utf8_valid_utf8(prefix@);
        is_char_boundary_start_end_of_seq(bytes@);
        assert(bytes@.subrange(0, bytes@.len() as int) =~= bytes@);
    }
    while matches_at(bytes, lead, skip)
        invariant
            bytes@ == arg.spec_bytes(),
            lead@ == prefix.spec_bytes(),
            lead@.len() > 0,
            valid_utf8(bytes@),
            valid_utf8(lead@),
            skip <= bytes@.len(),
            is_char_boundary(bytes@, skip as int),
            without_leading(bytes@, lead@) == without_leading(
                bytes@.subrange(skip as int, bytes@.len() as int),
                lead@,
            ),
        decreases bytes@.len() - skip,
    {
        proof {
            let rest = bytes@.subrange(skip as int, bytes@.len() as int);
            lemma_occurrence_on_boundaries(bytes@, lead@, skip as int);
            assert(rest.subrange(0, lead@.len() as int) =~= bytes@.subrange(
                skip as int,
                skip + lead@.len(),
            ));
            assert(rest.subrange(lead@.len() as int, rest.len() as int) =~= bytes@.subrange(
                skip + lead@.len(),
                bytes@.len() as int,
            ));
        }
        assert(skip + lead.len() <= bytes.len());
        skip += lead.len();
    }
    proof {
        let rest = bytes@.subrange(skip as int, bytes@.len() as int);
        if occurs_at(rest, lead@, 0) {
            assert(rest.subrange(0, lead@.len() as int) =~= bytes@.subrange(
                skip as int,
                skip + lead@.len(),
            ));
        }
    }
    slice(arg, skip, bytes.len())
}

/// The switches after the flag `arg`, or why `arg` is not accepted.
fn apply_flag(arg: &str, switches: Switches) -> (r: Result<Switches, &'static str>)
    ensures
        r == flag_applied(arg.spec_bytes(), switches),
{
    reveal(flag_applied);
    let bytes = arg.as_bytes();
    if same_bytes(bytes, "-i".as_bytes()) {
        Ok(Switches { case_sensitive: false, ..switches })
    } else if same_bytes(bytes, "-v".as_bytes()) {
        Ok(Switches { invert: true, ..switches })
    } else if same_bytes(bytes, "-n".as_bytes()) {
        Ok(Switches { count_only: true, ..switches })
    } else if matches_at(bytes, "--color=".as_bytes(), 0) {
        proof {
            lemma_value_flags_are_not_empty();
        }
        match ColorMode::from_str(flag_value(arg, "--color=")) {
            Ok(mode) => Ok(Switches { color_mode: mode, ..switches }),
            Err(why) => Err(why),
        }
    } else if matches_at(bytes, "--highlight=".as_bytes(), 0) {
        proof {
            lemma_value_flags_are_not_empty();
        }
        match HighlightColor::from_str(flag_value(arg, "--highlight=")) {
            Ok(color) => Ok(Switches { highlight_color: color, ..switches }),
            Err(why) => Err(why),
        }
    } else {
        Err(INVALID_FLAG)
    }
}

/// The two flags that carry a value are not empty.
proof fn lemma_value_flags_are_not_empty()
    ensures
        "--color=".spec_bytes().len() > 0,
        "--highlight=".spec_bytes().len() > 0,
{
    reveal_strlit("--color=");
    reveal_strlit("--highlight=");
}

impl Config {
    /// The configuration that the command line `args` asks for, or why there
    /// is none. `case_insensitive_env` says whether the environment asks for
    /// a case-insensitive search.
    pub fn new(args: &[String], case_insensitive_env: bool) -> (r: Result<Config, &'static str>)
        ensures
            match parsed(arg_bytes(args@), case_insensitive_env) {
                Ok(view) => r is Ok && r->Ok_0@ == view,
                Err(why) => r == Err::<Config, &'static str>(why),
            },
    {
        if args.len() < 3 {
            return Err(NOT_ENOUGH_ARGUMENTS);
        }
        let ghost all = arg_bytes(args@);
        let ghost start = initial_switches(case_insensitive_env);
        let mut switches = Switches {
            case_sensitive: !case_insensitive_env,
            invert: false,
            count_only: false,
            color_mode: ColorMode::Auto,
            highlight_color: HighlightColor::Red,
        };
        let mut at: usize = 1;
        while at < args.len() && starts_with_dash(args[at].as_str())
            invariant
                all == arg_bytes(args@),
                start == initial_switches(case_insensitive_env),
                args@.len() >= 3,
                1 <= at <= args@.len(),
                flags_read(all, 1, start) == flags_read(all, at as int, switches),
            decreases args@.len() - at,
        {
            match apply_flag(args[at].as_str(), switches) {
                Ok(next) => {
                    switches = next;
                },
                Err(why) => {
                    return Err(why);
                },
            }
            at += 1;
        }
        if at >= args.len() {
            return Err(MISSING_QUERY);
        }
        if at + 1 >= args.len() {
            return Err(MISSING_FILENAME);
        }
        let query = args[at].clone();
        let filename = args[at + 1].clone();
        Ok(
            Config {
                case_sensitive: switches.case_sensitive,
                invert: switches.invert,
                count_only: switches.count_only,
                query,
                filename,
                color_mode: switches.color_mode,
                highlight_color: switches.highlight_color,
            },
        )
    }
}

} // verus!
