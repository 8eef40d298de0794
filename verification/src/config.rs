//! Configuration types: levels, colour depth, labels, icons, themes, styles, layer
//! settings, output targets and writers.

use vstd::prelude::*;
use crate::filter::Filter;
use vstd::std_specs::convert::FromSpecImpl;

verus! {

/// How many colours the output may use.
#[derive(Clone, Copy, Debug, PartialEq, Eq, Structural)]
#[non_exhaustive]
pub enum ColorDepth {
    TrueColor,
    Ansi256,
    Ansi16,
    NoColor,
}

/// A verbosity level of a filter.
#[derive(Clone, Copy, Debug, PartialEq, Eq, Structural)]
#[non_exhaustive]
pub enum Level {
    Error,
    Warn,
    Info,
    Debug,
    Trace,
    Off,
}

/// The directive word of a level.
pub open spec fn level_word(level: Level) -> Seq<char> {
    match level {
        Level::Error => seq!['e', 'r', 'r', 'o', 'r'],
        Level::Warn => seq!['w', 'a', 'r', 'n'],
        Level::Info => seq!['i', 'n', 'f', 'o'],
        Level::Debug => seq!['d', 'e', 'b', 'u', 'g'],
        Level::Trace => seq!['t', 'r', 'a', 'c', 'e'],
        Level::Off => seq!['o', 'f', 'f'],
    }
}

impl Level {
    /// The filter directive word of this level (`"error"`, …, `"off"`).
    pub fn as_directive(self) -> (r: &'static str)
        ensures
            r@ == level_word(self),
    {
        match self {
            Level::Error => {
                proof {
                    reveal_strlit("error");
                }
                "error"
            },
            Level::Warn => {
                proof {
                    reveal_strlit("warn");
                }
                "warn"
            },
            Level::Info => {
                proof {
                    reveal_strlit("info");
                }
                "info"
            },
            Level::Debug => {
                proof {
                    reveal_strlit("debug");
                }
                "debug"
            },
            Level::Trace => {
                proof {
                    reveal_strlit("trace");
                }
                "trace"
            },
            Level::Off => {
                proof {
                    reveal_strlit("off");
                }
                "off"
            },
        }
    }
}

/// `ERROR`, ` WARN`, ` INFO`, `DEBUG`, `TRACE`.
pub open spec fn long_labels() -> LevelLabels {
    LevelLabels { error: "ERROR", warn: " WARN", info: " INFO", debug: "DEBUG", trace: "TRACE" }
}

/// `ERR`, `WRN`, `INF`, `DBG`, `TRC`.
pub open spec fn medium_labels() -> LevelLabels {
    LevelLabels { error: "ERR", warn: "WRN", info: "INF", debug: "DBG", trace: "TRC" }
}

/// `E`, `W`, `I`, `D`, `T`.
pub open spec fn short_labels() -> LevelLabels {
    LevelLabels { error: "E", warn: "W", info: "I", debug: "D", trace: "T" }
}

/// The labels printed for each level.
#[derive(Clone, Copy, Debug, PartialEq)]
#[non_exhaustive]
pub struct LevelLabels {
    pub error: &'static str,
    pub warn: &'static str,
    pub info: &'static str,
    pub debug: &'static str,
    pub trace: &'static str,
}

impl LevelLabels {
    /// Labels given one by one.
    pub fn custom(
        error: &'static str,
        warn: &'static str,
        info: &'static str,
        debug: &'static str,
        trace: &'static str,
    ) -> (r: Self)
        ensures
            r == (LevelLabels { error, warn, info, debug, trace }),
    {
        LevelLabels { error, warn, info, debug, trace }
    }

    /// Five-letter labels, right-aligned. (The name follows the constant it stands for.)
    #[allow(non_snake_case)]
    pub fn LONG() -> (r: LevelLabels)
        ensures
            r == long_labels(),
    {
        LevelLabels { error: "ERROR", warn: " WARN", info: " INFO", debug: "DEBUG", trace: "TRACE" }
    }

    /// Three-letter labels. (The name follows the constant it stands for.)
    #[allow(non_snake_case)]
    pub fn MEDIUM() -> (r: LevelLabels)
        ensures
            r == medium_labels(),
    {
        LevelLabels { error: "ERR", warn: "WRN", info: "INF", debug: "DBG", trace: "TRC" }
    }

    /// One-letter labels. (The name follows the constant it stands for.)
    #[allow(non_snake_case)]
    pub fn SHORT() -> (r: LevelLabels)
        ensures
            r == short_labels(),
    {
        LevelLabels { error: "E", warn: "W", info: "I", debug: "D", trace: "T" }
    }
}

impl Default for LevelLabels {
    /// The one-letter labels.
    fn default() -> (r: Self)
        ensures
            r == short_labels(),
    {
        LevelLabels::SHORT()
    }
}

/// The plain Unicode glyphs.
pub open spec fn unicode_icons() -> Icons {
    Icons {
        name: "unicode",
        bracket_open: "[",
        bracket_close: "]",
        time_bracket_open: "\u{ff62}",
        time_bracket_close: "\u{ff63}",
        separator: "\u{2507}",
        arrow: ">",
        span_delimiter: "->",
        span_join: "\u{bb}",
    }
}

/// Glyphs drawn around and between the parts of a line.
#[derive(Clone, Copy, Debug, PartialEq)]
#[non_exhaustive]
pub struct Icons {
    pub name: &'static str,
    pub bracket_open: &'static str,
    pub bracket_close: &'static str,
    pub time_bracket_open: &'static str,
    pub time_bracket_close: &'static str,
    pub separator: &'static str,
    pub arrow: &'static str,
    pub span_delimiter: &'static str,
    pub span_join: &'static str,
}

/// `nerd_font_symbols::ple::PLE_LEFT_HALF_CIRCLE_THICK`: the one-character string
/// `\u{e0b6}`.
#[verifier::external_body]
fn ple_left_half_circle_thick() -> (s: &'static str)
    ensures
        s@ == "\u{e0b6}"@,
{
    nerd_font_symbols::ple::PLE_LEFT_HALF_CIRCLE_THICK
}

/// `nerd_font_symbols::ple::PLE_RIGHT_HALF_CIRCLE_THICK`: the one-character string
/// `\u{e0b4}`.
#[verifier::external_body]
fn ple_right_half_circle_thick() -> (s: &'static str)
    ensures
        s@ == "\u{e0b4}"@,
{
    nerd_font_symbols::ple::PLE_RIGHT_HALF_CIRCLE_THICK
}

/// `nerd_font_symbols::ple::PLE_LEFT_HALF_CIRCLE_THIN`: the one-character string
/// `\u{e0b7}`.
#[verifier::external_body]
fn ple_left_half_circle_thin() -> (s: &'static str)
    ensures
        s@ == "\u{e0b7}"@,
{
    nerd_font_symbols::ple::PLE_LEFT_HALF_CIRCLE_THIN
}

/// `nerd_font_symbols::ple::PLE_RIGHT_HALF_CIRCLE_THIN`: the one-character string
/// `\u{e0b5}`.
#[verifier::external_body]
fn ple_right_half_circle_thin() -> (s: &'static str)
    ensures
        s@ == "\u{e0b5}"@,
{
    nerd_font_symbols::ple::PLE_RIGHT_HALF_CIRCLE_THIN
}

/// `nerd_font_symbols::fa::FA_CARET_RIGHT`: the one-character string
/// `\u{f0da}`.
#[verifier::external_body]
fn fa_caret_right() -> (s: &'static str)
    ensures
        s@ == "\u{f0da}"@,
{
    nerd_font_symbols::fa::FA_CARET_RIGHT
}

/// `nerd_font_symbols::cod::COD_EXPORT`: the one-character string
/// `\u{ebac}`.
#[verifier::external_body]
fn cod_export() -> (s: &'static str)
    ensures
        s@ == "\u{ebac}"@,
{
    nerd_font_symbols::cod::COD_EXPORT
}

/// `nerd_font_symbols::fa::FA_ANGLES_RIGHT`: the one-character string
/// `\u{f101}`.
#[verifier::external_body]
fn fa_angles_right() -> (s: &'static str)
    ensures
        s@ == "\u{f101}"@,
{
    nerd_font_symbols::fa::FA_ANGLES_RIGHT
}

impl Icons {
    /// Icons given one by one.
    #[allow(clippy::too_many_arguments)]
    pub fn custom(
        name: &'static str,
        bracket_open: &'static str,
        bracket_close: &'static str,
        time_bracket_open: &'static str,
        time_bracket_close: &'static str,
        separator: &'static str,
        arrow: &'static str,
        span_delimiter: &'static str,
        span_join: &'static str,
    ) -> (r: Self)
        ensures
            r == (Icons {
                name,
                bracket_open,
                bracket_close,
                time_bracket_open,
                time_bracket_close,
                separator,
                arrow,
                span_delimiter,
                span_join,
            }),
    {
        Icons {
            name,
            bracket_open,
            bracket_close,
            time_bracket_open,
            time_bracket_close,
            separator,
            arrow,
            span_delimiter,
            span_join,
        }
    }

    /// Plain Unicode glyphs. (The name follows the constant it stands for.)
    #[allow(non_snake_case)]
    pub fn UNICODE() -> (r: Icons)
        ensures
            r == unicode_icons(),
    {
        Icons {
            name: "unicode",
            bracket_open: "[",
            bracket_close: "]",
            time_bracket_open: "\u{ff62}",
            time_bracket_close: "\u{ff63}",
            separator: "\u{2507}",
            arrow: ">",
            span_delimiter: "->",
            span_join: "\u{bb}",
        }
    }

    /// Nerd Font glyphs. (The name follows the constant it stands for.)
    #[allow(non_snake_case)]
    pub fn NERD() -> (r: Icons)
        ensures
            r.name@ == "nerd"@,
            r.bracket_open@ == "\u{e0b6}"@,
            r.bracket_close@ == "\u{e0b4}"@,
            r.time_bracket_open@ == "\u{e0b7}"@,
            r.time_bracket_close@ == "\u{e0b5}"@,
            r.separator@ == "\u{2507}"@,
            r.arrow@ == "\u{f0da}"@,
            r.span_delimiter@ == "\u{ebac}"@,
            r.span_join@ == "\u{f101}"@,
    {
        Icons {
            name: "nerd",
            bracket_open: ple_left_half_circle_thick(),
            bracket_close: ple_right_half_circle_thick(),
            time_bracket_open: ple_left_half_circle_thin(),
            time_bracket_close: ple_right_half_circle_thin(),
            separator: "\u{2507}",
            arrow: fa_caret_right(),
            span_delimiter: cod_export(),
            span_join: fa_angles_right(),
        }
    }
}

impl Default for Icons {
    /// The plain Unicode glyphs.
    fn default() -> (r: Self)
        ensures
            r == unicode_icons(),
    {
        Icons::UNICODE()
    }
}

/// An RGB colour.
pub type Rgb = (u8, u8, u8);

/// The colours of a theme: accents, text, and one per level.
#[derive(Clone, Copy, Debug)]
pub struct Theme {
    pub accent: Rgb,
    pub secondary: Rgb,
    pub text: Rgb,
    pub error: Rgb,
    pub warn: Rgb,
    pub info: Rgb,
    pub debug: Rgb,
    pub trace: Rgb,
}

impl Theme {
    /// A theme from its eight colours.
    #[allow(clippy::too_many_arguments)]
    fn from_palette(
        accent: Rgb,
        secondary: Rgb,
        text: Rgb,
        error: Rgb,
        warn: Rgb,
        info: Rgb,
        debug: Rgb,
        trace: Rgb,
    ) -> (t: Self)
        ensures
            t == (Theme { accent, secondary, text, error, warn, info, debug, trace }),
    {
        Theme { accent, secondary, text, error, warn, info, debug, trace }
    }

    /// The the trans-flag palette theme.
    pub fn acta() -> (t: Self)
        ensures
            t.accent == (91u8, 206u8, 250u8),
            t.secondary == (245u8, 169u8, 184u8),
            t.text == (255u8, 255u8, 255u8),
            t.error == (255u8, 85u8, 85u8),
            t.warn == (255u8, 200u8, 60u8),
            t.info == (91u8, 206u8, 250u8),
            t.debug == (245u8, 169u8, 184u8),
            t.trace == (240u8, 240u8, 240u8),
    {
        Theme::from_palette(
            (91, 206, 250),  // light blue #5BCEFA,
            (245, 169, 184),  // pink #F5A9B8,
            (255, 255, 255),  // white #FFFFFF,
            (255, 85, 85),  // bright red #FF5555,
            (255, 200, 60),  // gold #FFC83C,
            (91, 206, 250),  // light blue,
            (245, 169, 184),  // pink,
            (240, 240, 240),  // off-white #F0F0F0
        )
    }

    /// The Monokai theme.
    pub fn monokai() -> (t: Self)
        ensures
            t.accent == (102u8, 217u8, 239u8),
            t.secondary == (249u8, 38u8, 114u8),
            t.text == (248u8, 248u8, 242u8),
            t.error == (255u8, 85u8, 85u8),
            t.warn == (255u8, 200u8, 60u8),
            t.info == (102u8, 217u8, 239u8),
            t.debug == (249u8, 38u8, 114u8),
            t.trace == (180u8, 180u8, 180u8),
    {
        Theme::from_palette(
            (102, 217, 239),  // cyan #66D9EF,
            (249, 38, 114),  // pink #F92672,
            (248, 248, 242),  // white #F8F8F2,
            (255, 85, 85),  // bright red #FF5555,
            (255, 200, 60),  // gold #FFC83C,
            (102, 217, 239),  // cyan,
            (249, 38, 114),  // pink,
            (180, 180, 180),  // gray #B4B4B4
        )
    }

    /// The Dracula theme.
    pub fn dracula() -> (t: Self)
        ensures
            t.accent == (139u8, 233u8, 253u8),
            t.secondary == (255u8, 121u8, 198u8),
            t.text == (248u8, 248u8, 242u8),
            t.error == (255u8, 85u8, 85u8),
            t.warn == (255u8, 200u8, 60u8),
            t.info == (139u8, 233u8, 253u8),
            t.debug == (255u8, 121u8, 198u8),
            t.trace == (180u8, 180u8, 180u8),
    {
        Theme::from_palette(
            (139, 233, 253),  // cyan #8BE9FD,
            (255, 121, 198),  // pink #FF79C6,
            (248, 248, 242),  // white #F8F8F2,
            (255, 85, 85),  // bright red #FF5555,
            (255, 200, 60),  // gold #FFC83C,
            (139, 233, 253),  // cyan,
            (255, 121, 198),  // pink,
            (180, 180, 180),  // gray #B4B4B4
        )
    }

    /// The Nord theme.
    pub fn nord() -> (t: Self)
        ensures
            t.accent == (136u8, 192u8, 208u8),
            t.secondary == (163u8, 190u8, 140u8),
            t.text == (216u8, 222u8, 233u8),
            t.error == (191u8, 97u8, 106u8),
            t.warn == (235u8, 203u8, 139u8),
            t.info == (136u8, 192u8, 208u8),
            t.debug == (163u8, 190u8, 140u8),
            t.trace == (180u8, 180u8, 180u8),
    {
        Theme::from_palette(
            (136, 192, 208),  // blue #88C0D0,
            (163, 190, 140),  // green #A3BE8C,
            (216, 222, 233),  // white #D8DEE9,
            (191, 97, 106),  // red #BF616A,
            (235, 203, 139),  // yellow #EBCB8B,
            (136, 192, 208),  // blue,
            (163, 190, 140),  // green,
            (180, 180, 180),  // gray #B4B4B4
        )
    }

    /// The Catppuccin Mocha theme.
    pub fn catppuccin_mocha() -> (t: Self)
        ensures
            t.accent == (137u8, 180u8, 250u8),
            t.secondary == (203u8, 166u8, 247u8),
            t.text == (205u8, 214u8, 244u8),
            t.error == (243u8, 139u8, 168u8),
            t.warn == (249u8, 226u8, 175u8),
            t.info == (137u8, 180u8, 250u8),
            t.debug == (203u8, 166u8, 247u8),
            t.trace == (180u8, 180u8, 180u8),
    {
        Theme::from_palette(
            (137, 180, 250),  // blue #89B4FA,
            (203, 166, 247),  // mauve #CBA6F7,
            (205, 214, 244),  // text #CDD6F4,
            (243, 139, 168),  // red #F38BA8,
            (249, 226, 175),  // yellow #F9E2AF,
            (137, 180, 250),  // blue,
            (203, 166, 247),  // mauve,
            (180, 180, 180),  // gray #B4B4B4
        )
    }

    /// The Gruvbox theme.
    pub fn gruvbox() -> (t: Self)
        ensures
            t.accent == (131u8, 165u8, 152u8),
            t.secondary == (254u8, 128u8, 25u8),
            t.text == (235u8, 219u8, 178u8),
            t.error == (251u8, 73u8, 52u8),
            t.warn == (250u8, 189u8, 47u8),
            t.info == (131u8, 165u8, 152u8),
            t.debug == (254u8, 128u8, 25u8),
            t.trace == (180u8, 180u8, 180u8),
    {
        Theme::from_palette(
            (131, 165, 152),  // aqua #83A598,
            (254, 128, 25),  // orange #FE8019,
            (235, 219, 178),  // light #EBDBB2,
            (251, 73, 52),  // red #FB4934,
            (250, 189, 47),  // yellow #FABD2F,
            (131, 165, 152),  // aqua,
            (254, 128, 25),  // orange,
            (180, 180, 180),  // gray #B4B4B4
        )
    }

    /// The One Dark theme.
    pub fn one_dark() -> (t: Self)
        ensures
            t.accent == (97u8, 175u8, 239u8),
            t.secondary == (198u8, 120u8, 221u8),
            t.text == (171u8, 178u8, 191u8),
            t.error == (224u8, 108u8, 117u8),
            t.warn == (229u8, 192u8, 123u8),
            t.info == (97u8, 175u8, 239u8),
            t.debug == (198u8, 120u8, 221u8),
            t.trace == (180u8, 180u8, 180u8),
    {
        Theme::from_palette(
            (97, 175, 239),  // blue #61AFEF,
            (198, 120, 221),  // purple #C678DD,
            (171, 178, 191),  // white #ABB2BF,
            (224, 108, 117),  // red #E06C75,
            (229, 192, 123),  // yellow #E5C07B,
            (97, 175, 239),  // blue,
            (198, 120, 221),  // purple,
            (180, 180, 180),  // gray #B4B4B4
        )
    }

    /// The Tokyo Night theme.
    pub fn tokyo_night() -> (t: Self)
        ensures
            t.accent == (122u8, 162u8, 247u8),
            t.secondary == (187u8, 154u8, 247u8),
            t.text == (192u8, 202u8, 245u8),
            t.error == (247u8, 118u8, 142u8),
            t.warn == (224u8, 175u8, 104u8),
            t.info == (122u8, 162u8, 247u8),
            t.debug == (187u8, 154u8, 247u8),
            t.trace == (180u8, 180u8, 180u8),
    {
        Theme::from_palette(
            (122, 162, 247),  // blue #7AA2F7,
            (187, 154, 247),  // purple #BB9AF7,
            (192, 202, 245),  // white #C0CAF5,
            (247, 118, 142),  // red #F7768E,
            (224, 175, 104),  // yellow #E0AF68,
            (122, 162, 247),  // blue,
            (187, 154, 247),  // purple,
            (180, 180, 180),  // gray #B4B4B4
        )
    }
}

impl Default for Theme {
    /// The `acta` theme.
    fn default() -> (t: Self)
        ensures
            t == Theme::acta_spec(),
    {
        Theme::acta()
    }
}

impl Theme {
    /// The colours of the `acta` theme.
    pub open spec fn acta_spec() -> Theme {
        Theme {
            accent: (91, 206, 250),
            secondary: (245, 169, 184),
            text: (255, 255, 255),
            error: (255, 85, 85),
            warn: (255, 200, 60),
            info: (91, 206, 250),
            debug: (245, 169, 184),
            trace: (240, 240, 240),
        }
    }
}

/// A complete look: theme colours, icons and level labels.
#[derive(Clone, Copy, Debug)]
pub struct Style {
    pub theme: Theme,
    pub icons: Icons,
    pub labels: LevelLabels,
}

impl Default for Style {
    /// The `acta` theme, Unicode icons and five-letter labels.
    fn default() -> (s: Self)
        ensures
            s.theme == Theme::acta_spec(),
            s.icons == unicode_icons(),
            s.labels == long_labels(),
    {
        Style { theme: Theme::default(), icons: Icons::default(), labels: LevelLabels::LONG() }
    }
}

/// Which parts of an event a layer prints.
#[derive(Clone, Copy, Debug, PartialEq, Eq, Structural)]
#[non_exhaustive]
pub struct LayerConfig {
    pub target: bool,
    pub file: bool,
    pub line_number: bool,
    pub current_span: bool,
    pub span_list: bool,
    /// Flatten the event into a single line (JSON only).
    pub flatten_event: bool,
    pub thread_ids: bool,
    pub thread_names: bool,
}

impl LayerConfig {
    /// Target, file and line number shown.
    pub fn pretty() -> (c: Self)
        ensures
            c == (LayerConfig {
                target: true,
                file: true,
                line_number: true,
                current_span: false,
                span_list: false,
                flatten_event: false,
                thread_ids: false,
                thread_names: false,
            }),
    {
        LayerConfig {
            target: true,
            file: true,
            line_number: true,
            current_span: false,
            span_list: false,
            flatten_event: false,
            thread_ids: false,
            thread_names: false,
        }
    }

    /// Nothing extra shown.
    pub fn compact() -> (c: Self)
        ensures
            c == (LayerConfig {
                target: false,
                file: false,
                line_number: false,
                current_span: false,
                span_list: false,
                flatten_event: false,
                thread_ids: false,
                thread_names: false,
            }),
    {
        LayerConfig {
            target: false,
            file: false,
            line_number: false,
            current_span: false,
            span_list: false,
            flatten_event: false,
            thread_ids: false,
            thread_names: false,
        }
    }

    /// Events flattened, nothing else shown.
    pub fn json() -> (c: Self)
        ensures
            c == (LayerConfig {
                target: false,
                file: false,
                line_number: false,
                current_span: false,
                span_list: false,
                flatten_event: true,
                thread_ids: false,
                thread_names: false,
            }),
    {
        LayerConfig {
            target: false,
            file: false,
            line_number: false,
            current_span: false,
            span_list: false,
            flatten_event: true,
            thread_ids: false,
            thread_names: false,
        }
    }
}

impl Default for LayerConfig {
    /// The compact settings.
    fn default() -> (c: Self)
        ensures
            c == (LayerConfig {
                target: false,
                file: false,
                line_number: false,
                current_span: false,
                span_list: false,
                flatten_event: false,
                thread_ids: false,
                thread_names: false,
            }),
    {
        LayerConfig::compact()
    }
}

/// The output format of a writer.
#[derive(Clone, Debug)]
pub enum Format {
    Pretty(LayerConfig),
    Compact(LayerConfig),
    Json(LayerConfig),
}

impl Format {
    /// Multi-line output with the pretty settings.
    pub fn pretty() -> (f: Self)
        ensures
            f == Format::Pretty(LayerConfig::pretty_spec()),
    {
        Format::Pretty(LayerConfig::pretty())
    }

    /// Single-line themed output with the compact settings.
    pub fn compact() -> (f: Self)
        ensures
            f == Format::Compact(LayerConfig::compact_spec()),
    {
        Format::Compact(LayerConfig::compact())
    }

    /// JSON output with the JSON settings.
    pub fn json() -> (f: Self)
        ensures
            f == Format::Json(LayerConfig::json_spec()),
    {
        Format::Json(LayerConfig::json())
    }
}

impl Default for Format {
    /// The compact format.
    fn default() -> (f: Self)
        ensures
            f == Format::Compact(LayerConfig::compact_spec()),
    {
        Format::compact()
    }
}

impl LayerConfig {
    /// The settings of [`LayerConfig::pretty`].
    pub open spec fn pretty_spec() -> LayerConfig {
        LayerConfig {
            target: true,
            file: true,
            line_number: true,
            current_span: false,
            span_list: false,
            flatten_event: false,
            thread_ids: false,
            thread_names: false,
        }
    }

    /// The settings of [`LayerConfig::compact`].
    pub open spec fn compact_spec() -> LayerConfig {
        LayerConfig {
            target: false,
            file: false,
            line_number: false,
            current_span: false,
            span_list: false,
            flatten_event: false,
            thread_ids: false,
            thread_names: false,
        }
    }

    /// The settings of [`LayerConfig::json`].
    pub open spec fn json_spec() -> LayerConfig {
        LayerConfig {
            target: false,
            file: false,
            line_number: false,
            current_span: false,
            span_list: false,
            flatten_event: true,
            thread_ids: false,
            thread_names: false,
        }
    }
}

/// What happens to a log file when a new one is started.
#[derive(Clone, Copy, Debug)]
#[non_exhaustive]
pub enum Rotation {
    /// The file is never rotated.
    Never,
    Rename,
    Compress,
}

impl Default for Rotation {
    /// No rotation.
    fn default() -> (r: Self)
        ensures
            r == Rotation::Never,
    {
        Rotation::Never
    }
}

/// A log file and its rotation.
#[derive(Clone, Debug)]
#[non_exhaustive]
pub struct FileConfig {
    pub path: String,
    pub rotation: Rotation,
}

impl FileConfig {
    /// A file at `path`, not rotated.
    pub fn new(path: &str) -> (c: Self)
        ensures
            c.path@ == path@,
            c.rotation == Rotation::Never,
    {
        FileConfig { path: path.to_owned(), rotation: Rotation::default() }
    }

    /// The same file with `rotation`.
    pub fn with_rotation(self, rotation: Rotation) -> (c: Self)
        ensures
            c.path == self.path,
            c.rotation == rotation,
    {
        let mut c = self;
        c.rotation = rotation;
        c
    }
}

/// Where a writer sends its lines.
#[derive(Clone, Debug)]
pub enum WriterTarget {
    Stdout,
    Stderr,
    File(FileConfig),
    AsyncStdout(AsyncMode),
    AsyncStderr(AsyncMode),
}

/// Default bounded-channel capacity of [`AsyncMode::Custom`] writers.
pub const DEFAULT_ASYNC_BUFFER_SIZE: usize = 4096;

/// The default capacity of a custom asynchronous writer's channel.
pub fn default_async_buffer_size() -> (n: usize)
    ensures
        n == DEFAULT_ASYNC_BUFFER_SIZE,
{
    DEFAULT_ASYNC_BUFFER_SIZE
}

/// How an asynchronous writer hands lines off.
#[derive(Clone, Copy, Debug)]
pub enum AsyncMode {
    /// A task drains a bounded channel holding up to `buffer_size` queued messages; new
    /// messages are dropped while it is full.
    Custom { buffer_size: usize },
    Native,
}

impl Default for AsyncMode {
    /// A custom writer with the default capacity.
    fn default() -> (m: Self)
        ensures
            m == (AsyncMode::Custom { buffer_size: DEFAULT_ASYNC_BUFFER_SIZE }),
    {
        AsyncMode::Custom { buffer_size: default_async_buffer_size() }
    }
}

/// One output of the subscriber: its format, colours, decorations and target.
#[derive(Clone, Debug)]
pub struct Writer {
    pub format: Format,
    pub ansi: bool,
    pub color_depth: Option<ColorDepth>,
    pub show_path: bool,
    pub show_spans: bool,
    pub time_format: Option<String>,
    pub style: Style,
    pub target: WriterTarget,
}

/// The default look of a writer.
pub open spec fn default_style() -> Style {
    Style { theme: Theme::acta_spec(), icons: unicode_icons(), labels: long_labels() }
}

/// The settings of [`Writer::default`], on a given target.
pub open spec fn default_writer_on(w: Writer, target: WriterTarget) -> bool {
    &&& w.format == Format::Compact(LayerConfig::compact_spec())
    &&& w.ansi
    &&& w.color_depth is None
    &&& w.show_path
    &&& w.show_spans
    &&& w.time_format is None
    &&& w.style == default_style()
    &&& w.target == target
}

impl Default for Writer {
    /// Compact, coloured with a detected depth, path and spans shown, default time format
    /// and look, to standard output.
    fn default() -> (w: Self)
        ensures
            default_writer_on(w, WriterTarget::Stdout),
    {
        Writer {
            format: Format::default(),
            ansi: true,
            color_depth: None,
            show_path: true,
            show_spans: true,
            time_format: None,
            style: Style::default(),
            target: WriterTarget::Stdout,
        }
    }
}

impl Writer {
    /// The default writer.
    pub fn stdout() -> (w: Self)
        ensures
            default_writer_on(w, WriterTarget::Stdout),
    {
        Self::default()
    }

    /// The default writer, to standard error.
    pub fn stderr() -> (w: Self)
        ensures
            default_writer_on(w, WriterTarget::Stderr),
    {
        Self::default().with_target(WriterTarget::Stderr)
    }

    /// The default writer, to the file at `path`.
    pub fn file(path: &str) -> (w: Self)
        ensures
            default_writer_on(w, w.target),
            w.target matches WriterTarget::File(c) && c.path@ == path@ && c.rotation
                == Rotation::Never,
    {
        Self::default().with_target(WriterTarget::File(FileConfig::new(path)))
    }

    /// The default writer, to standard output through the default asynchronous mode.
    pub fn async_stdout() -> (w: Self)
        ensures
            default_writer_on(
                w,
                WriterTarget::AsyncStdout(
                    AsyncMode::Custom { buffer_size: DEFAULT_ASYNC_BUFFER_SIZE },
                ),
            ),
    {
        Self::default().with_target(WriterTarget::AsyncStdout(AsyncMode::default()))
    }

    /// The default writer, to standard error through the default asynchronous mode.
    pub fn async_stderr() -> (w: Self)
        ensures
            default_writer_on(
                w,
                WriterTarget::AsyncStderr(
                    AsyncMode::Custom { buffer_size: DEFAULT_ASYNC_BUFFER_SIZE },
                ),
            ),
    {
        Self::default().with_target(WriterTarget::AsyncStderr(AsyncMode::default()))
    }

    /// This writer sending to `target`.
    pub fn with_target(self, target: WriterTarget) -> (w: Self)
        ensures
            w == (Writer { target, ..self }),
    {
        let mut w = self;
        w.target = target;
        w
    }

    /// This writer in `format`.
    pub fn with_format(self, format: Format) -> (w: Self)
        ensures
            w == (Writer { format, ..self }),
    {
        let mut w = self;
        w.format = format;
        w
    }

    /// This writer in the pretty format.
    pub fn pretty(self) -> (w: Self)
        ensures
            w == (Writer { format: Format::Pretty(LayerConfig::pretty_spec()), ..self }),
    {
        self.with_format(Format::pretty())
    }

    /// This writer in the compact format.
    pub fn compact(self) -> (w: Self)
        ensures
            w == (Writer { format: Format::Compact(LayerConfig::compact_spec()), ..self }),
    {
        self.with_format(Format::compact())
    }

    /// This writer in the JSON format.
    pub fn json(self) -> (w: Self)
        ensures
            w == (Writer { format: Format::Json(LayerConfig::json_spec()), ..self }),
    {
        self.with_format(Format::json())
    }

    /// This writer with ANSI colours on or off.
    pub fn with_ansi(self, ansi: bool) -> (w: Self)
        ensures
            w == (Writer { ansi, ..self }),
    {
        let mut w = self;
        w.ansi = ansi;
        w
    }

    /// This writer with a fixed colour depth instead of a detected one.
    pub fn with_color_depth(self, depth: ColorDepth) -> (w: Self)
        ensures
            w == (Writer { color_depth: Some(depth), ..self }),
    {
        let mut w = self;
        w.color_depth = Some(depth);
        w
    }

    /// This writer showing the source location or not.
    pub fn with_show_path(self, show: bool) -> (w: Self)
        ensures
            w == (Writer { show_path: show, ..self }),
    {
        let mut w = self;
        w.show_path = show;
        w
    }

    /// This writer showing the span scope or not.
    pub fn with_show_spans(self, show: bool) -> (w: Self)
        ensures
            w == (Writer { show_spans: show, ..self }),
    {
        let mut w = self;
        w.show_spans = show;
        w
    }

    /// This writer with a strftime-style timestamp format (local time zone).
    pub fn with_time_format(self, fmt: &str) -> (w: Self)
        ensures
            w == (Writer { time_format: w.time_format, ..self }),
            w.time_format matches Some(t) && t@ == fmt@,
    {
        let mut w = self;
        w.time_format = Some(fmt.to_owned());
        w
    }

    /// This writer with a whole look.
    pub fn with_style(self, style: Style) -> (w: Self)
        ensures
            w == (Writer { style, ..self }),
    {
        let mut w = self;
        w.style = style;
        w
    }

    /// This writer with `theme`.
    pub fn with_theme(self, theme: Theme) -> (w: Self)
        ensures
            w == (Writer { style: Style { theme, ..self.style }, ..self }),
    {
        let mut w = self;
        w.style.theme = theme;
        w
    }

    /// This writer with `icons`.
    pub fn with_icons(self, icons: Icons) -> (w: Self)
        ensures
            w == (Writer { style: Style { icons, ..self.style }, ..self }),
    {
        let mut w = self;
        w.style.icons = icons;
        w
    }

    /// This writer with `labels`.
    pub fn with_labels(self, labels: LevelLabels) -> (w: Self)
        ensures
            w == (Writer { style: Style { labels, ..self.style }, ..self }),
    {
        let mut w = self;
        w.style.labels = labels;
        w
    }
}

/// The whole subscriber configuration: one filter and the writers.
#[derive(Clone, Debug)]
#[non_exhaustive]
pub struct Config {
    pub filter: Filter,
    pub writers: Vec<Writer>,
}

/// `f` is the default filter: `info`, no overrides.
pub open spec fn is_default_filter(f: Filter) -> bool {
    f.base_text() == level_word(Level::Info) && f.overrides() == Seq::<(Seq<char>, Level)>::empty()
}

/// `ws` is the default writer list: one default writer to standard output.
pub open spec fn is_default_writers(ws: Seq<Writer>) -> bool {
    ws.len() == 1 && default_writer_on(ws[0], WriterTarget::Stdout)
}

impl Config {
    /// A builder with nothing chosen yet.
    pub fn builder() -> (b: ConfigBuilder)
        ensures
            b.chosen_filter() is None,
            b.chosen_writers() == Seq::<Writer>::empty(),
    {
        ConfigBuilder::default()
    }

    /// The default filter with `writers`.
    fn from_writers(writers: Vec<Writer>) -> (c: Self)
        ensures
            is_default_filter(c.filter),
            c.writers@ == writers@,
    {
        Config { filter: Filter::default(), writers }
    }

    /// `filter` with the default writer.
    fn from_filter(filter: Filter) -> (c: Self)
        ensures
            c.filter == filter,
            is_default_writers(c.writers@),
    {
        Config { filter, writers: vec![Writer::default()] }
    }
}

impl Default for Config {
    /// Level `info`, one default writer to standard output.
    fn default() -> (c: Self)
        ensures
            is_default_filter(c.filter),
            is_default_writers(c.writers@),
    {
        Config { filter: Filter::default(), writers: vec![Writer::default()] }
    }
}

impl From<Level> for Config {
    /// The filter at `level`, with the default writer.
    fn from(level: Level) -> (c: Self)
        ensures
            c.filter.base_text() == level_word(level),
            c.filter.overrides() == Seq::<(Seq<char>, Level)>::empty(),
            is_default_writers(c.writers@),
    {
        Config::from_filter(Filter::new(level))
    }
}

impl From<Filter> for Config {
    /// `filter` with the default writer.
    fn from(filter: Filter) -> (c: Self)
        ensures
            c.filter == filter,
            is_default_writers(c.writers@),
    {
        Config::from_filter(filter)
    }
}

impl From<Writer> for Config {
    /// The default filter with `writer` alone.
    fn from(writer: Writer) -> (c: Self)
        ensures
            is_default_filter(c.filter),
            c.writers@ == seq![writer],
    {
        let mut writers: Vec<Writer> = Vec::new();
        writers.push(writer);
        Config::from_writers(writers)
    }
}

impl From<Vec<Writer>> for Config {
    /// The default filter with `writers`.
    fn from(writers: Vec<Writer>) -> (c: Self)
        ensures
            is_default_filter(c.filter),
            c.writers@ == writers@,
    {
        Config::from_writers(writers)
    }
}

impl From<ConfigBuilder> for Config {
    /// What the builder builds.
    fn from(b: ConfigBuilder) -> (c: Self)
        ensures
            match b.chosen_filter() {
                Some(f) => c.filter == f,
                None => is_default_filter(c.filter),
            },
            if b.chosen_writers().len() == 0 {
                is_default_writers(c.writers@)
            } else {
                c.writers@ == b.chosen_writers()
            },
    {
        b.build()
    }
}

impl FromSpecImpl<Level> for Config {
    /// A configuration holds `String`s, which no spec value can name; what `from` gives is
    /// stated on `from` itself.
    open spec fn obeys_from_spec() -> bool {
        false
    }

    open spec fn from_spec(v: Level) -> Config {
        vstd::pervasive::arbitrary()
    }
}

impl FromSpecImpl<Filter> for Config {
    /// What `from` gives is stated on `from` itself.
    open spec fn obeys_from_spec() -> bool {
        false
    }

    open spec fn from_spec(v: Filter) -> Config {
        vstd::pervasive::arbitrary()
    }
}

impl FromSpecImpl<Writer> for Config {
    /// What `from` gives is stated on `from` itself.
    open spec fn obeys_from_spec() -> bool {
        false
    }

    open spec fn from_spec(v: Writer) -> Config {
        vstd::pervasive::arbitrary()
    }
}

impl FromSpecImpl<Vec<Writer>> for Config {
    /// What `from` gives is stated on `from` itself.
    open spec fn obeys_from_spec() -> bool {
        false
    }

    open spec fn from_spec(v: Vec<Writer>) -> Config {
        vstd::pervasive::arbitrary()
    }
}

impl FromSpecImpl<ConfigBuilder> for Config {
    /// What `from` gives is stated on `from` itself.
    open spec fn obeys_from_spec() -> bool {
        false
    }

    open spec fn from_spec(v: ConfigBuilder) -> Config {
        vstd::pervasive::arbitrary()
    }
}

/// Collects a filter and writers; what is left unchosen takes the default.
#[derive(Debug)]
#[must_use]
pub struct ConfigBuilder {
    filter: Option<Filter>,
    writers: Vec<Writer>,
}

impl Default for ConfigBuilder {
    /// Nothing chosen.
    fn default() -> (b: Self)
        ensures
            b.chosen_filter() is None,
            b.chosen_writers() == Seq::<Writer>::empty(),
    {
        ConfigBuilder { filter: None, writers: Vec::new() }
    }
}

impl ConfigBuilder {
    /// The filter chosen so far.
    pub closed spec fn chosen_filter(&self) -> Option<Filter> {
        self.filter
    }

    /// The writers added so far, in order.
    pub closed spec fn chosen_writers(&self) -> Seq<Writer> {
        self.writers@
    }

    /// Chooses the filter at `level`, in place of any chosen before.
    pub fn level(self, level: Level) -> (b: Self)
        ensures
            b.chosen_filter() matches Some(f) && f.base_text() == level_word(level)
                && f.overrides() == Seq::<(Seq<char>, Level)>::empty(),
            b.chosen_writers() == self.chosen_writers(),
    {
        let mut b = self;
        b.filter = Some(Filter::new(level));
        b
    }

    /// Chooses `filter`, in place of any chosen before.
    pub fn filter(self, filter: Filter) -> (b: Self)
        ensures
            b.chosen_filter() == Some(filter),
            b.chosen_writers() == self.chosen_writers(),
    {
        let mut b = self;
        b.filter = Some(filter);
        b
    }

    /// Adds `writer` after those added before.
    pub fn with_writer(self, writer: Writer) -> (b: Self)
        ensures
            b.chosen_filter() == self.chosen_filter(),
            b.chosen_writers() == self.chosen_writers().push(writer),
    {
        let mut b = self;
        b.writers.push(writer);
        b
    }

    /// The configuration: the chosen filter or the default one, the added writers or, when
    /// none was added, the default writer.
    pub fn build(self) -> (c: Config)
        ensures
            match self.chosen_filter() {
                Some(f) => c.filter == f,
                None => is_default_filter(c.filter),
            },
            if self.chosen_writers().len() == 0 {
                is_default_writers(c.writers@)
            } else {
                c.writers@ == self.chosen_writers()
            },
    {
        let defaults = Config::default();
        let filter = match self.filter {
            Some(f) => f,
            None => defaults.filter,
        };
        let writers = if self.writers.is_empty() {
            defaults.writers
        } else {
            self.writers
        };
        Config { filter, writers }
    }
}

/// One call on a [`ConfigBuilder`].
pub enum BuilderCall {
    Level(Level),
    Filter(Filter),
    Writer(Writer),
}

/// What `call` does to a builder: `before` becomes `after`.
pub open spec fn builder_call(before: ConfigBuilder, call: BuilderCall, after: ConfigBuilder) -> bool {
    match call {
        BuilderCall::Level(level) => {
            &&& filter_chosen_by(after.chosen_filter(), Some(call))
            &&& after.chosen_writers() == before.chosen_writers()
        },
        BuilderCall::Filter(filter) => {
            &&& after.chosen_filter() == Some(filter)
            &&& after.chosen_writers() == before.chosen_writers()
        },
        BuilderCall::Writer(writer) => {
            &&& after.chosen_filter() == before.chosen_filter()
            &&& after.chosen_writers() == before.chosen_writers().push(writer)
        },
    }
}

/// `filter` is what `call` chose: nothing when no call chose a filter, the filter at the
/// level for `level`, the filter itself for `filter`.
pub open spec fn filter_chosen_by(filter: Option<Filter>, call: Option<BuilderCall>) -> bool {
    match call {
        None => filter is None,
        Some(BuilderCall::Level(level)) => filter matches Some(f) && f.base_text() == level_word(
            level,
        ) && f.overrides() == Seq::<(Seq<char>, Level)>::empty(),
        Some(BuilderCall::Filter(g)) => filter == Some(g),
        Some(BuilderCall::Writer(_)) => false,
    }
}

/// The last of `calls` that chooses a filter, if any.
pub open spec fn last_filter_call(calls: Seq<BuilderCall>) -> Option<BuilderCall>
    decreases calls.len(),
{
    if calls.len() == 0 {
        None
    } else {
        match calls.last() {
            BuilderCall::Writer(_) => last_filter_call(calls.drop_last()),
            _ => Some(calls.last()),
        }
    }
}

/// The writers that `calls` add, in call order.
pub open spec fn writers_added(calls: Seq<BuilderCall>) -> Seq<Writer>
    decreases calls.len(),
{
    if calls.len() == 0 {
        Seq::empty()
    } else {
        let before = writers_added(calls.drop_last());
        match calls.last() {
            BuilderCall::Writer(w) => before.push(w),
            _ => before,
        }
    }
}

/// `c` is what [`ConfigBuilder::build`] makes of `b`.
pub open spec fn built_from(b: ConfigBuilder, c: Config) -> bool {
    &&& match b.chosen_filter() {
        Some(f) => c.filter == f,
        None => is_default_filter(c.filter),
    }
    &&& if b.chosen_writers().len() == 0 {
        is_default_writers(c.writers@)
    } else {
        c.writers@ == b.chosen_writers()
    }
}

/// After the first `k` calls on a fresh builder, the builder holds the filter that the last
/// of them to choose one chose, and the writers that they added.
proof fn lemma_builder_prefix(builders: Seq<ConfigBuilder>, calls: Seq<BuilderCall>, k: int)
    requires
        builders.len() == calls.len() + 1,
        builders[0].chosen_filter() is None,
        builders[0].chosen_writers() == Seq::<Writer>::empty(),
        forall|i: int|
            0 <= i < calls.len() ==> #[trigger] builder_call(builders[i], calls[i], builders[i + 1]),
        0 <= k <= calls.len(),
    ensures
        filter_chosen_by(builders[k].chosen_filter(), last_filter_call(calls.take(k))),
        builders[k].chosen_writers() == writers_added(calls.take(k)),
    decreases k,
{
    if k == 0 {
        assert(calls.take(0) =~= Seq::<BuilderCall>::empty());
    } else {
        lemma_builder_prefix(builders, calls, k - 1);
        assert(calls.take(k).drop_last() =~= calls.take(k - 1));
        assert(calls.take(k).last() == calls[k - 1]);
        let j = k - 1;
        assert(builder_call(builders[j], calls[j], builders[j + 1]));
    }
}

/// Whatever `level`, `filter` and `with_writer` calls are made on a fresh builder, `build`
/// gives the filter that the last `level` or `filter` call chose (the default `info` filter
/// when none was made) and the writers that the `with_writer` calls added, in call order
/// (the default writer to standard output when none was made). With no calls at all this is
/// the default configuration.
pub proof fn lemma_builder_calls(builders: Seq<ConfigBuilder>, calls: Seq<BuilderCall>, c: Config)
    requires
        builders.len() == calls.len() + 1,
        builders[0].chosen_filter() is None,
        builders[0].chosen_writers() == Seq::<Writer>::empty(),
        forall|i: int|
            0 <= i < calls.len() ==> #[trigger] builder_call(builders[i], calls[i], builders[i + 1]),
        built_from(builders.last(), c),
    ensures
        match last_filter_call(calls) {
            None => is_default_filter(c.filter),
            Some(call) => filter_chosen_by(Some(c.filter), Some(call)),
        },
        if writers_added(calls).len() == 0 {
            is_default_writers(c.writers@)
        } else {
            c.writers@ == writers_added(calls)
        },
{
    lemma_builder_prefix(builders, calls, calls.len() as int);
    assert(calls.take(calls.len() as int) =~= calls);
}

} // verus!
