//! The message theme: which terminal style each semantic action maps to.

use vstd::prelude::*;

verus! {

/// Whether messages follow the program's own palette or the terminal's.
#[derive(Debug, Clone, Copy, PartialEq, Eq, Structural)]
pub enum StyleFollow {
    OmaTheme,
    TermTheme,
}

/// The semantic role of a piece of output.
#[derive(Debug, Clone, Copy, PartialEq, Eq, Structural)]
pub enum Action {
    Emphasis,
    Foreground,
    Secondary,
    EmphasisSecondary,
    WARN,
    Purple,
    Note,
}

/// A concrete terminal style the renderer applies.
#[derive(Debug, Clone, Copy, PartialEq, Eq, Structural)]
pub enum TermStyle {
    Color256(u8),
    Green,
    Dim,
    Cyan,
    YellowBold,
    Magenta,
    Yellow,
    CyanBold,
}

impl Action {
    /// The 256-color palette index of the action under the program's own
    /// theme.
    pub fn color256(&self) -> (r: u8)
        ensures
            r == match self {
                Action::Emphasis => 148u8,
                Action::Foreground => 72u8,
                Action::Secondary => 182u8,
                Action::EmphasisSecondary => 114u8,
                Action::WARN => 214u8,
                Action::Purple => 141u8,
                Action::Note => 178u8,
            },
    {
        match self {
            Action::Emphasis => 148,
            Action::Foreground => 72,
            Action::Secondary => 182,
            Action::EmphasisSecondary => 114,
            Action::WARN => 214,
            Action::Purple => 141,
            Action::Note => 178,
        }
    }
}

/// The colour formatter: fixes the theme once and maps every semantic
/// action to the style the renderer must use.
#[derive(Debug, Clone, Copy, PartialEq, Eq, Structural)]
pub struct OmaColorFormat {
    pub follow: StyleFollow,
}

impl OmaColorFormat {
    /// A formatter following the given theme.
    pub fn new(follow: StyleFollow) -> (r: OmaColorFormat)
        ensures
            r.follow == follow,
    {
        OmaColorFormat { follow }
    }

    /// The terminal style of an action: the palette index under the
    /// program theme, a named terminal style otherwise.
    pub fn style_for(&self, color: Action) -> (r: TermStyle)
        ensures
            self.follow is OmaTheme ==> r == TermStyle::Color256(
                match color {
                    Action::Emphasis => 148u8,
                    Action::Foreground => 72u8,
                    Action::Secondary => 182u8,
                    Action::EmphasisSecondary => 114u8,
                    Action::WARN => 214u8,
                    Action::Purple => 141u8,
                    Action::Note => 178u8,
                },
            ),
            self.follow is TermTheme ==> r == match color {
                Action::Emphasis => TermStyle::Green,
                Action::Secondary => TermStyle::Dim,
                Action::EmphasisSecondary => TermStyle::Cyan,
                Action::WARN => TermStyle::YellowBold,
                Action::Purple => TermStyle::Magenta,
                Action::Note => TermStyle::Yellow,
                Action::Foreground => TermStyle::CyanBold,
            },
    {
        match self.follow {
            StyleFollow::OmaTheme => TermStyle::Color256(color.color256()),
            StyleFollow::TermTheme => match color {
                Action::Emphasis => TermStyle::Green,
                Action::Secondary => TermStyle::Dim,
                Action::EmphasisSecondary => TermStyle::Cyan,
                Action::WARN => TermStyle::YellowBold,
                Action::Purple => TermStyle::Magenta,
                Action::Note => TermStyle::Yellow,
                Action::Foreground => TermStyle::CyanBold,
            },
        }
    }
}

} // verus!
