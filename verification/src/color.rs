use colored::Colorize;
use vstd::prelude::*;

verus! {

/// A foreground colour of the terminal.
#[derive(Clone, Copy, Debug, PartialEq, Eq, Structural)]
pub enum Color {
    Red,
    Green,
    Blue,
}

/// How much of a version changed, counted in parts from the left.
#[derive(Clone, Copy, Debug, PartialEq, Eq, Structural)]
pub enum ColorTier {
    Major,
    Minor,
    Other,
}

/// The colour of each tier.
#[derive(Clone, Copy, Debug)]
pub struct VersionColor {
    pub major: Color,
    pub minor: Color,
    pub other: Color,
}

/// Red for a major change, blue for a minor one, green for any other.
pub open spec fn version_color_spec() -> VersionColor {
    VersionColor { major: Color::Red, minor: Color::Blue, other: Color::Green }
}

/// The colours that versions are shown in.
#[verifier::when_used_as_spec(version_color_spec)]
pub fn version_color() -> (colors: VersionColor)
    ensures
        colors == version_color_spec(),
{
    VersionColor { major: Color::Red, minor: Color::Blue, other: Color::Green }
}

/// The tier of a change whose first changed part has index `part`.
pub open spec fn tier_of(part: nat) -> ColorTier {
    if part == 0 {
        ColorTier::Major
    } else if part == 1 {
        ColorTier::Minor
    } else {
        ColorTier::Other
    }
}

/// The colour that `colors` gives to `tier`.
pub open spec fn tier_color(colors: VersionColor, tier: ColorTier) -> Color {
    match tier {
        ColorTier::Major => colors.major,
        ColorTier::Minor => colors.minor,
        ColorTier::Other => colors.other,
    }
}

impl ColorTier {
    /// Part 0 is a major change, part 1 a minor one, any later part another one.
    pub fn from_position(part: usize) -> (tier: ColorTier)
        ensures
            tier == tier_of(part as nat),
    {
        if part == 0 {
            ColorTier::Major
        } else if part == 1 {
            ColorTier::Minor
        } else {
            ColorTier::Other
        }
    }

    /// The colour that versions of this tier are shown in.
    pub fn color(self) -> (color: Color)
        ensures
            color == tier_color(version_color(), self),
    {
        let colors = version_color();
        match self {
            ColorTier::Major => colors.major,
            ColorTier::Minor => colors.minor,
            ColorTier::Other => colors.other,
        }
    }
}

/// The escape sequence that ends all styling.
pub open spec fn reset() -> Seq<char> {
    seq!['\u{1b}', '[', '0', 'm']
}

/// The escape sequence that starts the style with the given code.
pub open spec fn style_start(code: Seq<char>) -> Seq<char> {
    seq!['\u{1b}', '['] + code + seq!['m']
}

/// The code of a foreground colour.
pub open spec fn color_code(color: Color) -> Seq<char> {
    match color {
        Color::Red => seq!['3', '1'],
        Color::Green => seq!['3', '2'],
        Color::Blue => seq!['3', '4'],
    }
}

/// The code of bold text.
pub open spec fn bold_code() -> Seq<char> {
    seq!['1']
}

/// `text` with `start` put in again behind every reset sequence that it holds,
/// so that a style around `text` survives styled text inside it.
pub open spec fn reinstated(text: Seq<char>, start: Seq<char>) -> Seq<char>
    decreases text.len(),
{
    if text.len() == 0 {
        text
    } else if reset().is_prefix_of(text) {
        reset() + start + reinstated(text.skip(4), start)
    } else {
        seq![text[0]] + reinstated(text.skip(1), start)
    }
}

/// `text` between the start of a style and the reset sequence.
pub open spec fn styled(text: Seq<char>, code: Seq<char>) -> Seq<char> {
    style_start(code) + reinstated(text, style_start(code)) + reset()
}

/// What styling `text` may give: the styled text where colours are switched
/// on, `text` itself where the environment switches them off.
pub open spec fn is_painted(out: Seq<char>, text: Seq<char>, code: Seq<char>) -> bool {
    out == text || out == styled(text, code)
}

/// `out` is `backward` followed by `forward`, the latter styled with `code`
/// where colours are switched on.
pub open spec fn is_half_styled(
    out: Seq<char>,
    backward: Seq<char>,
    forward: Seq<char>,
    code: Seq<char>,
) -> bool {
    out == backward + forward || out == backward + styled(forward, code)
}

/// `colored`'s `color` on a string slice, printed: with colours on, the
/// colour's escape sequence, the text (the sequence again behind each reset
/// inside it) and a reset; with colours off, the text alone. Which of the two
/// depends on the environment and on `colored`'s override.
#[verifier::external_body]
pub(crate) fn paint(text: &str, color: Color) -> (out: String)
    ensures
        is_painted(out@, text@, color_code(color)),
{
    let color = match color {
        Color::Red => colored::Color::Red,
        Color::Green => colored::Color::Green,
        Color::Blue => colored::Color::Blue,
    };
    text.color(color).to_string()
}

/// `colored`'s `bold` on a string slice, printed: as [`paint`], with the code
/// of bold text.
#[verifier::external_body]
pub(crate) fn embolden(text: &str) -> (out: String)
    ensures
        is_painted(out@, text@, bold_code()),
{
    text.bold().to_string()
}

} // verus!
