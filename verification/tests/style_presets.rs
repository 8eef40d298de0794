use acta::config::{
    default_async_buffer_size, AsyncMode, Format, LayerConfig, Rotation, DEFAULT_ASYNC_BUFFER_SIZE,
};
use acta::{ColorDepth, FileConfig, Icons, Level, LevelLabels, Style, Theme, Writer, WriterTarget};

#[test]
fn theme_presets_are_distinct() {
    let s1 = format!("{:?}", Theme::acta());
    let s2 = format!("{:?}", Theme::monokai());
    let s3 = format!("{:?}", Theme::dracula());
    assert_ne!(s1, s2);
    assert_ne!(s2, s3);
}

#[test]
fn theme_default_is_trans_flag() {
    assert_eq!(
        format!("{:?}", Theme::acta()),
        format!("{:?}", Theme::acta())
    );
}

#[test]
fn icons_unicode_vs_nerd() {
    let u = Icons::UNICODE();
    let n = Icons::NERD();
    assert_ne!(u.bracket_open, n.bracket_open);
    assert_ne!(u.bracket_close, n.bracket_close);
    assert_ne!(u.arrow, n.arrow);
    assert_eq!(u.separator, n.separator);
}

#[test]
fn level_labels_short() {
    let labels = LevelLabels::SHORT();
    assert_eq!(labels.error, "E");
    assert_eq!(labels.warn, "W");
    assert_eq!(labels.info, "I");
    assert_eq!(labels.debug, "D");
    assert_eq!(labels.trace, "T");
}

#[test]
fn level_labels_long() {
    let labels = LevelLabels::LONG();
    assert_eq!(labels.error, "ERROR");
    assert_eq!(labels.warn, " WARN");
    assert_eq!(labels.info, " INFO");
    assert_eq!(labels.debug, "DEBUG");
    assert_eq!(labels.trace, "TRACE");
}

#[test]
fn level_labels_medium() {
    let labels = LevelLabels::MEDIUM();
    assert_eq!(labels.error, "ERR");
    assert_eq!(labels.warn, "WRN");
    assert_eq!(labels.info, "INF");
    assert_eq!(labels.debug, "DBG");
    assert_eq!(labels.trace, "TRC");
}

#[test]
fn level_labels_default_is_short() {
    assert_eq!(LevelLabels::default(), LevelLabels::SHORT());
}

#[test]
fn icons_unicode() {
    let icons = Icons::UNICODE();
    assert_eq!(icons.bracket_open, "[");
    assert_eq!(icons.bracket_close, "]");
    assert_eq!(icons.separator, "\u{2507}");
    assert_eq!(icons.arrow, ">");
    assert_eq!(icons.span_delimiter, "->");
}

#[test]
fn icons_name_unicode() {
    assert_eq!(Icons::UNICODE().name, "unicode");
}

#[test]
fn icons_name_nerd() {
    assert_eq!(Icons::NERD().name, "nerd");
}

#[test]
fn style_config_default() {
    let config = Style::default();
    assert_eq!(
        format!("{:?}", config.theme),
        format!("{:?}", Theme::acta())
    );
    assert_eq!(config.icons, Icons::UNICODE());
    assert_eq!(config.labels, LevelLabels::LONG());
}

#[test]
fn theme_all_have_distinct_accent_colors() {
    let themes = [
        Theme::acta(),
        Theme::monokai(),
        Theme::dracula(),
        Theme::nord(),
        Theme::catppuccin_mocha(),
        Theme::gruvbox(),
        Theme::one_dark(),
        Theme::tokyo_night(),
    ];

    for (i, theme_i) in themes.iter().enumerate() {
        for theme_j in themes.iter().skip(i + 1) {
            assert_ne!(
                format!("{:?}", theme_i.accent),
                format!("{:?}", theme_j.accent)
            );
        }
    }
}

#[test]
fn theme_default_equals_acta() {
    assert_eq!(
        format!("{:?}", Theme::default()),
        format!("{:?}", Theme::acta())
    );
}

#[test]
fn nerd_icons_use_the_nerd_font_glyphs() {
    let n = Icons::NERD();
    assert_eq!(n.bracket_open, "\u{e0b6}");
    assert_eq!(n.bracket_close, "\u{e0b4}");
    assert_eq!(n.time_bracket_open, "\u{e0b7}");
    assert_eq!(n.time_bracket_close, "\u{e0b5}");
    assert_eq!(n.arrow, "\u{f0da}");
    assert_eq!(n.span_delimiter, "\u{ebac}");
    assert_eq!(n.span_join, "\u{f101}");
}

#[test]
fn custom_labels_and_icons_keep_what_they_are_given() {
    let l = LevelLabels::custom("e", "w", "i", "d", "t");
    assert_eq!(l.error, "e");
    assert_eq!(l.trace, "t");
    let i = Icons::custom("mine", "<", ">", "(", ")", "|", "=>", "--", "/");
    assert_eq!(i.name, "mine");
    assert_eq!(i.arrow, "=>");
    assert_eq!(i.span_join, "/");
}

#[test]
fn monokai_colors_are_exact() {
    let t = Theme::monokai();
    assert_eq!(t.accent, (102, 217, 239));
    assert_eq!(t.secondary, (249, 38, 114));
    assert_eq!(t.error, (255, 85, 85));
    assert_eq!(t.trace, (180, 180, 180));
    assert_eq!(Theme::nord().error, (191, 97, 106));
    assert_eq!(Theme::tokyo_night().text, (192, 202, 245));
}

#[test]
fn level_directives_are_lowercase_words() {
    assert_eq!(Level::Error.as_directive(), "error");
    assert_eq!(Level::Warn.as_directive(), "warn");
    assert_eq!(Level::Info.as_directive(), "info");
    assert_eq!(Level::Debug.as_directive(), "debug");
    assert_eq!(Level::Trace.as_directive(), "trace");
    assert_eq!(Level::Off.as_directive(), "off");
}

#[test]
fn layer_presets() {
    let p = LayerConfig::pretty();
    assert!(p.target && p.file && p.line_number && !p.flatten_event);
    let c = LayerConfig::compact();
    assert!(!c.target && !c.file && !c.line_number && !c.flatten_event);
    let j = LayerConfig::json();
    assert!(j.flatten_event && !j.target);
    assert_eq!(LayerConfig::default(), LayerConfig::compact());
    assert!(matches!(Format::default(), Format::Compact(x) if x == LayerConfig::compact()));
    assert!(matches!(Format::json(), Format::Json(x) if x.flatten_event));
}

#[test]
fn writer_defaults_and_builders() {
    let w = Writer::default();
    assert!(w.ansi && w.show_path && w.show_spans);
    assert!(w.color_depth.is_none() && w.time_format.is_none());
    assert!(matches!(w.target, WriterTarget::Stdout));
    assert!(matches!(w.format, Format::Compact(_)));
    assert_eq!(w.style.labels, LevelLabels::LONG());

    let w = Writer::stderr()
        .json()
        .with_ansi(false)
        .with_color_depth(ColorDepth::Ansi16)
        .with_show_path(false)
        .with_show_spans(false)
        .with_time_format("%Y")
        .with_labels(LevelLabels::SHORT())
        .with_icons(Icons::NERD());
    assert!(matches!(w.target, WriterTarget::Stderr));
    assert!(matches!(w.format, Format::Json(_)));
    assert!(!w.ansi && !w.show_path && !w.show_spans);
    assert_eq!(w.color_depth, Some(ColorDepth::Ansi16));
    assert_eq!(w.time_format.as_deref(), Some("%Y"));
    assert_eq!(w.style.labels, LevelLabels::SHORT());
    assert_eq!(w.style.icons.name, "nerd");
}

#[test]
fn writer_targets() {
    let w = Writer::file("logs/app.log");
    match w.target {
        WriterTarget::File(c) => {
            assert_eq!(c.path, "logs/app.log");
            assert!(matches!(c.rotation, Rotation::Never));
        }
        _ => panic!("expected a file target"),
    }
    assert!(matches!(
        Writer::async_stdout().target,
        WriterTarget::AsyncStdout(AsyncMode::Custom { buffer_size: 4096 })
    ));
    assert!(matches!(
        Writer::async_stderr().target,
        WriterTarget::AsyncStderr(AsyncMode::Custom { buffer_size: 4096 })
    ));
    assert_eq!(default_async_buffer_size(), DEFAULT_ASYNC_BUFFER_SIZE);
    let f = FileConfig::new("x.log").with_rotation(Rotation::Rename);
    assert!(matches!(f.rotation, Rotation::Rename));
    assert_eq!(f.path, "x.log");
}
