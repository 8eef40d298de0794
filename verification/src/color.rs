//! Choosing terminal colours: the colour depth of an output and the colour a theme RGB value
//! becomes at that depth.

use vstd::prelude::*;
use crate::config::{ColorDepth, Rgb, Writer, WriterTarget};

verus! {

/// The 16 basic ANSI colours.
#[derive(Clone, Copy, Debug, PartialEq, Eq, Structural)]
pub enum AnsiColor16 {
    Black,
    Red,
    Green,
    Yellow,
    Blue,
    Magenta,
    Cyan,
    White,
    BrightBlack,
    BrightRed,
    BrightGreen,
    BrightYellow,
    BrightBlue,
    BrightMagenta,
    BrightCyan,
    BrightWhite,
}

/// The basic colour at palette index `i`, if `i < 16`.
pub open spec fn ansi16_at(i: int) -> Option<AnsiColor16> {
    if i == 0 {
        Some(AnsiColor16::Black)
    } else if i == 1 {
        Some(AnsiColor16::Red)
    } else if i == 2 {
        Some(AnsiColor16::Green)
    } else if i == 3 {
        Some(AnsiColor16::Yellow)
    } else if i == 4 {
        Some(AnsiColor16::Blue)
    } else if i == 5 {
        Some(AnsiColor16::Magenta)
    } else if i == 6 {
        Some(AnsiColor16::Cyan)
    } else if i == 7 {
        Some(AnsiColor16::White)
    } else if i == 8 {
        Some(AnsiColor16::BrightBlack)
    } else if i == 9 {
        Some(AnsiColor16::BrightRed)
    } else if i == 10 {
        Some(AnsiColor16::BrightGreen)
    } else if i == 11 {
        Some(AnsiColor16::BrightYellow)
    } else if i == 12 {
        Some(AnsiColor16::BrightBlue)
    } else if i == 13 {
        Some(AnsiColor16::BrightMagenta)
    } else if i == 14 {
        Some(AnsiColor16::BrightCyan)
    } else if i == 15 {
        Some(AnsiColor16::BrightWhite)
    } else {
        None
    }
}

/// The light a basic colour is made of, as `(red, green, blue, bright)`: black has none,
/// white all three, yellow red and green, magenta red and blue, cyan green and blue; the
/// bright colours are the bright forms of the same mixes.
pub open spec fn ansi_light(c: AnsiColor16) -> (bool, bool, bool, bool) {
    match c {
        AnsiColor16::Black => (false, false, false, false),
        AnsiColor16::Red => (true, false, false, false),
        AnsiColor16::Green => (false, true, false, false),
        AnsiColor16::Yellow => (true, true, false, false),
        AnsiColor16::Blue => (false, false, true, false),
        AnsiColor16::Magenta => (true, false, true, false),
        AnsiColor16::Cyan => (false, true, true, false),
        AnsiColor16::White => (true, true, true, false),
        AnsiColor16::BrightBlack => (false, false, false, true),
        AnsiColor16::BrightRed => (true, false, false, true),
        AnsiColor16::BrightGreen => (false, true, false, true),
        AnsiColor16::BrightYellow => (true, true, false, true),
        AnsiColor16::BrightBlue => (false, false, true, true),
        AnsiColor16::BrightMagenta => (true, false, true, true),
        AnsiColor16::BrightCyan => (false, true, true, true),
        AnsiColor16::BrightWhite => (true, true, true, true),
    }
}

/// The light that palette position `i` of the 16 basic colours stands for, in the standard
/// ANSI order: bit 0 red, bit 1 green, bit 2 blue, bit 3 bright.
pub open spec fn light_at(i: int) -> (bool, bool, bool, bool) {
    (i % 2 == 1, (i / 2) % 2 == 1, (i / 4) % 2 == 1, i >= 8)
}

/// Every palette position below 16 names a basic colour, and the colour it names is made of
/// the light its bits say: red for bit 0, green for bit 1, blue for bit 2, bright for bit 3.
/// No two positions name the same colour.
pub proof fn lemma_ansi16_order(i: int)
    requires
        0 <= i < 16,
    ensures
        ansi16_at(i) matches Some(c) && ansi_light(c) == light_at(i),
        forall|j: int| 0 <= j < 16 && j != i ==> ansi16_at(j) != ansi16_at(i),
{
}

/// The basic colour at palette index `i`, white when out of range.
pub fn ansi16_from_index(i: usize) -> (c: AnsiColor16)
    ensures
        c == match ansi16_at(i as int) {
            Some(c) => c,
            None => AnsiColor16::White,
        },
{
    match i {
        0 => AnsiColor16::Black,
        1 => AnsiColor16::Red,
        2 => AnsiColor16::Green,
        3 => AnsiColor16::Yellow,
        4 => AnsiColor16::Blue,
        5 => AnsiColor16::Magenta,
        6 => AnsiColor16::Cyan,
        7 => AnsiColor16::White,
        8 => AnsiColor16::BrightBlack,
        9 => AnsiColor16::BrightRed,
        10 => AnsiColor16::BrightGreen,
        11 => AnsiColor16::BrightYellow,
        12 => AnsiColor16::BrightBlue,
        13 => AnsiColor16::BrightMagenta,
        14 => AnsiColor16::BrightCyan,
        15 => AnsiColor16::BrightWhite,
        _ => AnsiColor16::White,
    }
}

/// A terminal colour at some depth.
#[derive(Clone, Copy, Debug, PartialEq, Eq, Structural)]
pub enum TermColor {
    /// A 24-bit colour.
    Rgb(u8, u8, u8),
    /// An index into the 256-colour xterm palette.
    Xterm(u8),
    /// One of the 16 basic colours.
    Ansi(AnsiColor16),
}

/// The xterm 256-colour palette index that `ansi_colours` picks for an sRGB colour.
pub uninterp spec fn xterm_index_of(r: u8, g: u8, b: u8) -> u8;

/// The basic palette index that `anstyle_lossy` picks for an sRGB colour against its default
/// palette. That palette is fixed when the library is built: the Windows 10 console palette
/// on Windows targets, the VGA palette elsewhere; the name stands for the target built for.
pub uninterp spec fn basic_index_of(r: u8, g: u8, b: u8) -> u8;

/// `ansi_colours::ansi256_from_rgb`: the xterm 256-colour palette index approximating an sRGB
/// colour. Its value is named, not stated: it depends on the colour alone.
#[verifier::external_body]
fn xterm_index(rgb: Rgb) -> (i: u8)
    ensures
        i == xterm_index_of(rgb.0, rgb.1, rgb.2),
{
    ansi_colours::ansi256_from_rgb(rgb)
}

/// `anstyle_lossy::rgb_to_ansi` against `anstyle_lossy::palette::Palette::default()`: the
/// closest of the 16 basic colours, returned as its `anstyle::AnsiColor` position
/// (`Black` = 0 … `BrightWhite` = 15). That the position is below 16 is stated; which colour
/// is closest is named, not stated.
#[verifier::external_body]
fn basic_index(rgb: Rgb) -> (i: u8)
    ensures
        i == basic_index_of(rgb.0, rgb.1, rgb.2),
        i < 16,
{
    anstyle_lossy::rgb_to_ansi(rgb.into(), anstyle_lossy::palette::Palette::default()) as u8
}

/// The index into the xterm 256-colour palette for a colour.
pub fn xterm_color_index(rgb: Rgb) -> (i: u8)
    ensures
        i == xterm_index_of(rgb.0, rgb.1, rgb.2),
{
    xterm_index(rgb)
}

/// The colour `rgb` becomes at `depth`: itself in true colour, its xterm index at 256
/// colours, the closest basic colour at 16 colours, and none without colour.
pub fn term_color(rgb: Rgb, depth: ColorDepth) -> (c: Option<TermColor>)
    ensures
        depth == ColorDepth::Ansi16 ==> (c matches Some(TermColor::Ansi(a)) && ansi_light(a)
            == light_at(basic_index_of(rgb.0, rgb.1, rgb.2) as int)),
        c == match depth {
            ColorDepth::TrueColor => Some(TermColor::Rgb(rgb.0, rgb.1, rgb.2)),
            ColorDepth::Ansi256 => Some(TermColor::Xterm(xterm_index_of(rgb.0, rgb.1, rgb.2))),
            ColorDepth::Ansi16 => Some(
                TermColor::Ansi(ansi16_at(basic_index_of(rgb.0, rgb.1, rgb.2) as int).unwrap()),
            ),
            ColorDepth::NoColor => None,
        },
{
    match depth {
        ColorDepth::TrueColor => Some(TermColor::Rgb(rgb.0, rgb.1, rgb.2)),
        ColorDepth::Ansi256 => Some(TermColor::Xterm(xterm_index(rgb))),
        ColorDepth::Ansi16 => {
            let i = basic_index(rgb);
            proof {
                lemma_ansi16_order(i as int);
            }
            Some(TermColor::Ansi(ansi16_from_index(i as usize)))
        },
        ColorDepth::NoColor => None,
    }
}

/// What a terminal reports it can show.
#[derive(Clone, Copy, Debug, PartialEq, Eq, Structural)]
pub struct ColorSupport {
    pub has_basic: bool,
    pub has_256: bool,
    pub has_16m: bool,
}

/// A standard stream.
#[derive(Clone, Copy, Debug, PartialEq, Eq, Structural)]
pub enum Stream {
    Stdout,
    Stderr,
}

/// A report that `supports_color` can give: any reported level has basic colours, and
/// 16 million colours come only with 256 colours.
pub open spec fn possible_support(support: Option<ColorSupport>) -> bool {
    support matches Some(l) ==> l.has_basic && (l.has_16m ==> l.has_256)
}

/// `supports_color::on_cached`: what the terminal behind `stream` supports, detected once
/// per stream from the environment and the terminal. Which level is reported depends on the
/// machine and is not stated; what is stated holds of every report (`translate_level` sets
/// `has_basic` for every level it reports and `has_16m` only at level 3, where `has_256` is
/// set too).
#[verifier::external_body]
fn color_support(stream: Stream) -> (s: Option<ColorSupport>)
    ensures
        possible_support(s),
{
    let stream = match stream {
        Stream::Stdout => supports_color::Stream::Stdout,
        Stream::Stderr => supports_color::Stream::Stderr,
    };
    supports_color::on_cached(stream).map(
        |level| ColorSupport {
            has_basic: level.has_basic,
            has_256: level.has_256,
            has_16m: level.has_16m,
        },
    )
}

/// The richest depth a terminal supports; none when it reports nothing.
pub open spec fn depth_for(support: Option<ColorSupport>) -> ColorDepth {
    match support {
        Some(s) => if s.has_16m {
            ColorDepth::TrueColor
        } else if s.has_256 {
            ColorDepth::Ansi256
        } else if s.has_basic {
            ColorDepth::Ansi16
        } else {
            ColorDepth::NoColor
        },
        None => ColorDepth::NoColor,
    }
}

/// The richest depth a terminal supports; none when it reports nothing.
pub fn depth_from_support(support: Option<ColorSupport>) -> (d: ColorDepth)
    ensures
        d == depth_for(support),
{
    if let Some(level) = support {
        if level.has_16m {
            return ColorDepth::TrueColor;
        }
        if level.has_256 {
            return ColorDepth::Ansi256;
        }
        if level.has_basic {
            return ColorDepth::Ansi16;
        }
    }
    ColorDepth::NoColor
}

/// The stream behind a target, if it is a terminal stream.
pub open spec fn target_stream(target: WriterTarget) -> Option<Stream> {
    match target {
        WriterTarget::Stdout => Some(Stream::Stdout),
        WriterTarget::Stderr => Some(Stream::Stderr),
        WriterTarget::File(_) => None,
        WriterTarget::AsyncStdout(_) => Some(Stream::Stdout),
        WriterTarget::AsyncStderr(_) => Some(Stream::Stderr),
    }
}

/// The terminal stream a target writes to; none for a file.
pub fn color_stream(target: &WriterTarget) -> (s: Option<Stream>)
    ensures
        s == target_stream(*target),
{
    match target {
        WriterTarget::Stdout => Some(Stream::Stdout),
        WriterTarget::Stderr => Some(Stream::Stderr),
        WriterTarget::File(_) => None,
        WriterTarget::AsyncStdout(_) => Some(Stream::Stdout),
        WriterTarget::AsyncStderr(_) => Some(Stream::Stderr),
    }
}

/// `d` is the depth that [`depth_for`] gives for a report that `supports_color` can make
/// on `stream`.
pub closed spec fn depth_reported_on(stream: Stream, d: ColorDepth) -> bool {
    exists|s: Option<ColorSupport>| call_ensures(color_support, (stream,), s) && d == depth_for(s)
}

/// What is known of a depth reported on a stream from outside this module: it is the one
/// [`depth_for`] gives for some report that `supports_color` can make.
pub proof fn lemma_depth_reported(stream: Stream, d: ColorDepth)
    requires
        depth_reported_on(stream, d),
    ensures
        exists|s: Option<ColorSupport>| possible_support(s) && d == depth_for(s),
{
    let s = choose|s: Option<ColorSupport>|
        call_ensures(color_support, (stream,), s) && d == depth_for(s);
    assert(possible_support(s));
}

/// The colour depth the terminal behind `stream` reports: the one that [`depth_for`] gives
/// for what `supports_color` reports for `stream`. Which report comes depends on the machine.
pub fn stream_color_depth(stream: Stream) -> (d: ColorDepth)
    ensures
        depth_reported_on(stream, d),
{
    let report = color_support;
    let support = report(stream);
    depth_from_support(support)
}

/// The colour depth the terminal behind `target` supports; files get no colour. The stream
/// asked is the one [`color_stream`] gives for the target, and the depth is the one that
/// [`depth_for`] gives for what the terminal reports there.
pub fn detect_color_depth(target: &WriterTarget) -> (d: ColorDepth)
    ensures
        target_stream(*target) is None ==> d == ColorDepth::NoColor,
        target_stream(*target) matches Some(stream) ==> depth_reported_on(stream, d),
{
    match color_stream(target) {
        None => ColorDepth::NoColor,
        Some(stream) => stream_color_depth(stream),
    }
}

/// The depth a writer's output uses: its fixed depth if it has one, else, when ANSI colours
/// are on, the depth [`detect_color_depth`] detects on its target, else none.
pub fn writer_color_depth(writer: &Writer) -> (d: ColorDepth)
    ensures
        writer.color_depth matches Some(fixed) ==> d == fixed,
        writer.color_depth is None && !writer.ansi ==> d == ColorDepth::NoColor,
        writer.color_depth is None && writer.ansi && target_stream(writer.target) is None ==> d
            == ColorDepth::NoColor,
        writer.color_depth is None && writer.ansi ==> (target_stream(writer.target) matches Some(
            stream,
        ) ==> depth_reported_on(stream, d)),
{
    match writer.color_depth {
        Some(d) => d,
        None => if writer.ansi {
            detect_color_depth(&writer.target)
        } else {
            ColorDepth::NoColor
        },
    }
}

} // verus!
