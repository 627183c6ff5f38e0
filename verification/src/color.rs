//! The highlight colour of the output, and whether colour is on.
use vstd::prelude::*;
use crate::text::{ascii_lower_seq, ascii_lowercase, str_eq};

verus! {

/// A highlight colour.
#[derive(Debug, Clone, Copy, PartialEq, Eq, Structural)]
pub enum HighlightColor {
    Cyan,
    Green,
    Yellow,
    Blue,
    Magenta,
}

/// The colour a name denotes, in any case.
///
/// Lowercasing is ASCII lowercasing: Unicode lowercasing differs only on non-ASCII letters,
/// and the one of those that lowers into ASCII (the Kelvin sign, to `k`) cannot make a
/// colour name, none of which holds a `k`.
pub open spec fn color_named(s: Seq<char>) -> Option<HighlightColor> {
    let l = ascii_lower_seq(s);
    if l == "cyan"@ {
        Some(HighlightColor::Cyan)
    } else if l == "green"@ {
        Some(HighlightColor::Green)
    } else if l == "yellow"@ {
        Some(HighlightColor::Yellow)
    } else if l == "blue"@ {
        Some(HighlightColor::Blue)
    } else if l == "magenta"@ {
        Some(HighlightColor::Magenta)
    } else {
        None
    }
}

impl HighlightColor {
    /// The colour of a name (`cyan`, `green`, `yellow`, `blue`, `magenta`, in any case).
    pub fn parse(s: &str) -> (r: Option<Self>)
        ensures
            r == color_named(s@),
    {
        let l = ascii_lowercase(s);
        if str_eq(l.as_str(), "cyan") {
            Some(HighlightColor::Cyan)
        } else if str_eq(l.as_str(), "green") {
            Some(HighlightColor::Green)
        } else if str_eq(l.as_str(), "yellow") {
            Some(HighlightColor::Yellow)
        } else if str_eq(l.as_str(), "blue") {
            Some(HighlightColor::Blue)
        } else if str_eq(l.as_str(), "magenta") {
            Some(HighlightColor::Magenta)
        } else {
            None
        }
    }
}

/// How output is coloured.
#[derive(Debug, Clone, Copy, PartialEq, Eq)]
pub struct ColorConfig {
    pub highlight_color: HighlightColor,
    pub enabled: bool,
}

impl ColorConfig {
    /// Colour is on when asked for and the `NO_COLOR` environment variable is not set.
    pub fn new(highlight_color: HighlightColor, enabled: bool, no_color_env_set: bool) -> (r: Self)
        ensures
            r.highlight_color == highlight_color,
            r.enabled == (enabled && !no_color_env_set),
    {
        ColorConfig { highlight_color, enabled: enabled && !no_color_env_set }
    }
}

/// The colour name in effect: the command line's unless it is the default `cyan`, in which
/// case the settings' colour if there is one.
pub fn effective_color_name(cli_color: &str, settings_color: Option<&str>) -> (r: String)
    ensures
        r@ == (if cli_color@ == "cyan"@ {
            match settings_color {
                Some(c) => c@,
                None => "cyan"@,
            }
        } else {
            cli_color@
        }),
{
    if str_eq(cli_color, "cyan") {
        match settings_color {
            Some(c) => c.to_owned(),
            None => "cyan".to_owned(),
        }
    } else {
        cli_color.to_owned()
    }
}

} // verus!
