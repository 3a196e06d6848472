//! Option values of the command surface that carry rules of their own:
//! parsing the color and log-format choices, the logging level ladder, and
//! the ANSI-color decision.

use vstd::prelude::*;

verus! {

/// When ANSI terminal formatting is used.
#[derive(Clone, Copy, PartialEq, Eq, Structural, Debug)]
pub enum Color {
    /// Enable ANSI exactly when standard output is a terminal.
    Auto,
    Always,
    Never,
}

/// Relies on format!("{}{}", ..): the two string pieces, concatenated in
/// order.
#[verifier::external_body]
fn concat2(a: &str, b: &str) -> (r: String)
    ensures
        r@ == a@ + b@,
{
    format!("{}{}", a, b)
}

impl Color {
    /// Parses a color choice; anything but the three known words is
    /// rejected with a message naming the word and the valid options.
    pub fn from_str(s: &str) -> (r: Result<Color, String>)
        ensures
            s@ == "auto"@ ==> r == Ok::<Color, String>(Color::Auto),
            s@ == "always"@ ==> r == Ok::<Color, String>(Color::Always),
            s@ == "never"@ ==> r == Ok::<Color, String>(Color::Never),
            (s@ != "auto"@ && s@ != "always"@ && s@ != "never"@) ==> (r matches Err(e) && e@ == s@
                + " is not a valid option, expected `auto`, `always` or `never`"@),
    {
        proof {
            reveal_strlit("auto");
            reveal_strlit("always");
            reveal_strlit("never");
            assert("auto"@.len() == 4);
            assert("always"@.len() == 6);
            assert("never"@.len() == 5);
        }
        let owned = s.to_owned();
        if owned == "auto".to_owned() {
            Ok(Color::Auto)
        } else if owned == "always".to_owned() {
            Ok(Color::Always)
        } else if owned == "never".to_owned() {
            Ok(Color::Never)
        } else {
            Err(concat2(s, " is not a valid option, expected `auto`, `always` or `never`"))
        }
    }
}

/// Whether ANSI formatting is enabled, given the color choice and whether
/// standard output is a terminal (detected by the caller).
pub fn ansi_enabled(color: Color, stdout_is_tty: bool) -> (r: bool)
    ensures
        color is Auto ==> r == stdout_is_tty,
        color is Always ==> r,
        color is Never ==> !r,
{
    match color {
        Color::Auto => stdout_is_tty,
        Color::Always => true,
        Color::Never => false,
    }
}

/// The format of the internal log output.
#[derive(Clone, Copy, PartialEq, Eq, Structural, Debug)]
pub enum LogFormat {
    Text,
    Json,
}

impl LogFormat {
    /// Parses a log-format choice; anything but the two known words is
    /// rejected with a message naming the word and the valid options.
    pub fn from_str(s: &str) -> (r: Result<LogFormat, String>)
        ensures
            s@ == "text"@ ==> r == Ok::<LogFormat, String>(LogFormat::Text),
            s@ == "json"@ ==> r == Ok::<LogFormat, String>(LogFormat::Json),
            (s@ != "text"@ && s@ != "json"@) ==> (r matches Err(e) && e@ == s@
                + " is not a valid option, expected `text` or `json`"@),
    {
        proof {
            reveal_strlit("text");
            reveal_strlit("json");
            assert("text"@.len() == 4);
            assert("json"@.len() == 4);
            assert("text"@[0] == 't');
            assert("json"@[0] == 'j');
        }
        let owned = s.to_owned();
        if owned == "text".to_owned() {
            Ok(LogFormat::Text)
        } else if owned == "json".to_owned() {
            Ok(LogFormat::Json)
        } else {
            Err(concat2(s, " is not a valid option, expected `text` or `json`"))
        }
    }
}

/// The detail of internal logging.
#[derive(Clone, Copy, PartialEq, Eq, Structural, Debug)]
pub enum LogLevel {
    Off,
    ErrorsOnly,
    Warn,
    Info,
    Debug,
    Trace,
}

/// The logging level from the repeatable quiet and verbose switches:
/// quiet overrides verbose, each step quiets or loudens by one, and the
/// scale is clamped at its ends.
pub fn log_level(quiet: u8, verbose: u8) -> (l: LogLevel)
    ensures
        quiet == 0 && verbose == 0 ==> l == LogLevel::Info,
        quiet == 0 && verbose == 1 ==> l == LogLevel::Debug,
        quiet == 0 && verbose >= 2 ==> l == LogLevel::Trace,
        quiet == 1 ==> l == LogLevel::Warn,
        quiet == 2 ==> l == LogLevel::ErrorsOnly,
        quiet >= 3 ==> l == LogLevel::Off,
{
    if quiet == 0 {
        if verbose == 0 {
            LogLevel::Info
        } else if verbose == 1 {
            LogLevel::Debug
        } else {
            LogLevel::Trace
        }
    } else if quiet == 1 {
        LogLevel::Warn
    } else if quiet == 2 {
        LogLevel::ErrorsOnly
    } else {
        LogLevel::Off
    }
}

} // verus!
