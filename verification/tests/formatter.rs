use chrono::NaiveDate;
use acta::color::{
    color_stream, depth_from_support, detect_color_depth, stream_color_depth, term_color,
    writer_color_depth, xterm_color_index, AnsiColor16, ColorSupport, Stream, TermColor,
};
use acta::config::AsyncMode;
use acta::fmt::{
    plain_text, term_style, EventLevel, EventVisitor, Paint, SpanInfo, DEFAULT_PATH_WIDTH,
};
use acta::{ColorDepth, Formatter, Icons, LevelLabels, Style, Theme, Writer, WriterTarget};

#[test]
fn formatter_defaults() {
    let fmt = Formatter::new();
    assert_eq!(fmt.time_format, "%H:%M:%S");
    assert_eq!(fmt.path_width, DEFAULT_PATH_WIDTH);
    assert!(fmt.show_path);
    assert!(fmt.show_spans);
}

#[test]
fn formatter_builder() {
    let fmt = Formatter::new()
        .with_time_format(&"%Y-%m-%d %H:%M:%S".to_string())
        .with_path_width(40)
        .with_show_path(false)
        .with_show_spans(false)
        .with_theme(Theme::monokai());

    assert_eq!(fmt.time_format, "%Y-%m-%d %H:%M:%S");
    assert_eq!(fmt.path_width, 40);
    assert!(!fmt.show_path);
    assert!(!fmt.show_spans);
}

#[test]
fn formatter_with_icons() {
    let fmt = Formatter::new().with_icons(Icons::NERD());
    assert_eq!(fmt.style_config().icons.bracket_open, "\u{e0b6}");
}

#[test]
fn formatter_style_config_returns_reference() {
    let fmt = Formatter::new();
    let config = fmt.style_config();
    assert_eq!(config.labels.error, "ERROR");
}

#[test]
fn formatter_with_style_config_replaces_all() {
    let config = Style {
        labels: LevelLabels::SHORT(),
        icons: Icons::UNICODE(),
        theme: Theme::monokai(),
    };
    let fmt = Formatter::new().with_style_config(config);
    assert_eq!(fmt.style_config().labels, LevelLabels::SHORT());
    assert_eq!(fmt.style_config().icons.bracket_open, "[");
    assert!((248..=255).contains(&fmt.style_config().theme.error.0));
}

#[test]
fn formatter_with_labels_changes_labels() {
    let fmt = Formatter::new();
    assert_eq!(fmt.style_config().labels.error, "ERROR");

    let fmt = fmt.with_labels(LevelLabels::LONG());
    assert_eq!(fmt.style_config().labels.error, "ERROR");
}

#[test]
fn formatter_with_icons_changes_icons() {
    let fmt = Formatter::new().with_icons(Icons::UNICODE());
    assert_eq!(fmt.style_config().icons.bracket_open, "[");
}

#[test]
fn formatter_with_theme_changes_theme() {
    let fmt = Formatter::new().with_theme(Theme::monokai());
    assert_ne!(
        format!("{:?}", fmt.style_config().theme),
        format!("{:?}", Theme::acta())
    );
}

#[test]
fn time_formats_are_parsed_ahead_when_valid() {
    assert!(Formatter::new().time_items.is_some());
    assert!(Formatter::new().with_time_format("%Y-%m-%d").time_items.is_some());
    assert!(Formatter::new().with_time_format("%Q").time_items.is_none());
}

#[test]
fn event_visitor_records_message_field() {
    let mut visitor = EventVisitor::default();
    visitor.record_field("message", "hello");
    assert_eq!(visitor.message, Some(String::from("hello")));
    assert!(visitor.fields.is_empty());
}

#[test]
fn event_visitor_records_msg_alias() {
    let mut visitor = EventVisitor::default();
    visitor.record_field("msg", "world");
    assert_eq!(visitor.message, Some(String::from("world")));
    assert!(visitor.fields.is_empty());
}

#[test]
fn event_visitor_records_other_fields_as_pairs() {
    let mut visitor = EventVisitor::default();
    visitor.record_field("user", "alice");
    visitor.record_field("count", "42");
    assert!(visitor.message.is_none());
    assert_eq!(
        visitor.fields,
        vec![
            (String::from("user"), String::from("alice")),
            (String::from("count"), String::from("42"))
        ]
    );
}

#[test]
fn event_visitor_default_has_no_message_and_empty_fields() {
    let visitor = EventVisitor::default();
    assert!(visitor.message.is_none());
    assert!(visitor.fields.is_empty());
}

#[test]
fn event_visitor_order_preserved_message_extracted() {
    let mut visitor = EventVisitor::default();
    visitor.record_field("x", "1");
    visitor.record_field("message", "the message");
    visitor.record_field("y", "2");
    assert_eq!(visitor.message, Some(String::from("the message")));
    assert_eq!(
        visitor.fields,
        vec![
            (String::from("x"), String::from("1")),
            (String::from("y"), String::from("2"))
        ]
    );
}

fn visitor_of(fields: &[(&str, &str)]) -> EventVisitor {
    let mut v = EventVisitor::default();
    for (k, val) in fields {
        v.record_field(k, val);
    }
    v
}

#[test]
fn format_fields_outputs_message() {
    let fmt = Formatter::new();
    let pieces = fmt.field_pieces(&visitor_of(&[("message", "hello world")]), &Theme::acta());
    let output = plain_text(&pieces);
    assert!(
        output.contains("hello world"),
        "expected output to contain message, got: {output}"
    );
}

#[test]
fn format_fields_outputs_key_value_pairs() {
    let fmt = Formatter::new().with_color_depth(ColorDepth::NoColor);
    let pieces = fmt.field_pieces(&visitor_of(&[("user", "alice"), ("count", "42")]), &Theme::acta());
    assert!(pieces.iter().all(|p| term_style(p.paint, fmt.color_depth).is_none()));
    let output = plain_text(&pieces);
    assert_eq!(output, "user=alice count=42");
}

#[test]
fn format_fields_with_message_and_fields() {
    let fmt = Formatter::new().with_color_depth(ColorDepth::NoColor);
    let pieces = fmt.field_pieces(&visitor_of(&[("key", "value"), ("message", "test message")]), &Theme::acta());
    assert!(pieces.iter().all(|p| term_style(p.paint, fmt.color_depth).is_none()));
    let output = plain_text(&pieces);
    assert_eq!(output, "test message key=value");
}

#[test]
fn format_path_section_output_contains_path_and_arrow() {
    let fmt = Formatter::new().with_path_width(40).with_show_spans(false);
    let pieces = fmt.event_pieces(
        EventLevel::Info,
        "12:00:00",
        Some("src/fmt/test.rs"),
        Some(443),
        &visitor_of(&[("message", "probe")]),
        &Vec::new(),
    );
    let output = plain_text(&pieces);
    assert!(
        output.contains("fmt/test.rs"),
        "expected output to contain file path, got: {output}"
    );
    assert!(
        output.contains('>'),
        "expected output to contain arrow icon, got: {output}"
    );
}

#[test]
fn event_line_layout_is_exact_without_colour() {
    let fmt = Formatter::new().with_path_width(12).with_color_depth(ColorDepth::NoColor);
    let spans = vec![
        SpanInfo { name: String::from("outer"), fields: String::from("id=1") },
        SpanInfo { name: String::from("inner"), fields: String::new() },
    ];
    let pieces = fmt.event_pieces(
        EventLevel::Warn,
        "10:11:12",
        Some("src/app.rs"),
        Some(7),
        &visitor_of(&[("message", "hi"), ("n", "3")]),
        &spans,
    );
    assert_eq!(
        plain_text(&pieces),
        "\u{ff62}10:11:12 \u{2507} [ WARN] \u{ff63}     app.rs:7 > hi n=3 [outer id=1\u{bb} inner]\n"
    );
}

#[test]
fn event_line_without_location_or_spans_and_missing_file() {
    let fmt = Formatter::new().with_show_path(false).with_show_spans(false).with_labels(LevelLabels::SHORT());
    let pieces = fmt.event_pieces(EventLevel::Error, "t", None, None, &EventVisitor::default(), &Vec::new());
    assert_eq!(plain_text(&pieces), "\u{ff62}t \u{2507} [E] \u{ff63} \n");
    let fmt = Formatter::new().with_path_width(3);
    let pieces = fmt.event_pieces(EventLevel::Debug, "t", None, None, &EventVisitor::default(), &Vec::new());
    assert!(plain_text(&pieces).contains("?:0 > "));
}

#[test]
fn level_brackets_follow_icons() {
    let v = EventVisitor::default();
    let theme = Theme::acta();
    let plain = Formatter::new().event_pieces(EventLevel::Error, "t", None, None, &v, &Vec::new());
    let open = &plain[5];
    assert_eq!(open.text, "[");
    assert_eq!(open.paint, Some(Paint { rgb: theme.error, dimmed: false, background: true }));
    let nerd = Formatter::new().with_icons(Icons::NERD()).event_pieces(EventLevel::Error, "t", None, None, &v, &Vec::new());
    assert_eq!(nerd[5].paint, Some(Paint { rgb: theme.error, dimmed: false, background: false }));
    assert_eq!(nerd[6].paint, Some(Paint { rgb: theme.error, dimmed: false, background: true }));
}

#[test]
fn rgb256_primary_red() {
    assert_eq!(xterm_color_index((255, 0, 0)), 196);
}
#[test]
fn rgb256_primary_green() {
    assert_eq!(xterm_color_index((0, 255, 0)), 46);
}
#[test]
fn rgb256_primary_blue() {
    assert_eq!(xterm_color_index((0, 0, 255)), 21);
}
#[test]
fn rgb256_gray() {
    assert_eq!(xterm_color_index((128, 128, 128)), 244);
}
#[test]
fn rgb256_black() {
    assert_eq!(xterm_color_index((0, 0, 0)), 16);
}
#[test]
fn rgb256_white() {
    assert_eq!(xterm_color_index((255, 255, 255)), 231);
}

#[test]
fn rgb_styles_cover_color_depths_and_backgrounds() {
    for depth in [
        ColorDepth::TrueColor,
        ColorDepth::Ansi256,
        ColorDepth::Ansi16,
    ] {
        assert_ne!(
            term_style(Some(Paint { rgb: (255, 0, 0), dimmed: false, background: false }), depth),
            None
        );
        assert_ne!(
            term_style(Some(Paint { rgb: (255, 0, 0), dimmed: false, background: true }), depth),
            None
        );
    }

    assert_eq!(
        term_style(Some(Paint { rgb: (255, 0, 0), dimmed: false, background: false }), ColorDepth::NoColor),
        None
    );
    assert_eq!(
        term_style(Some(Paint { rgb: (255, 0, 0), dimmed: false, background: true }), ColorDepth::NoColor),
        None
    );
}

#[test]
fn colours_at_each_depth() {
    assert_eq!(term_color((1, 2, 3), ColorDepth::TrueColor), Some(TermColor::Rgb(1, 2, 3)));
    assert_eq!(term_color((255, 0, 0), ColorDepth::Ansi256), Some(TermColor::Xterm(196)));
    assert_eq!(term_color((0, 0, 0), ColorDepth::Ansi16), Some(TermColor::Ansi(AnsiColor16::Black)));
    assert_eq!(term_color((255, 255, 255), ColorDepth::Ansi16), Some(TermColor::Ansi(AnsiColor16::BrightWhite)));
    assert_eq!(term_color((9, 9, 9), ColorDepth::NoColor), None);
}

#[test]
fn depth_from_reported_support() {
    let s = |b, c, m| Some(ColorSupport { has_basic: b, has_256: c, has_16m: m });
    assert_eq!(depth_from_support(s(true, true, true)), ColorDepth::TrueColor);
    assert_eq!(depth_from_support(s(true, true, false)), ColorDepth::Ansi256);
    assert_eq!(depth_from_support(s(true, false, false)), ColorDepth::Ansi16);
    assert_eq!(depth_from_support(s(false, false, false)), ColorDepth::NoColor);
    assert_eq!(depth_from_support(None), ColorDepth::NoColor);
}

#[test]
fn writer_depths() {
    assert_eq!(writer_color_depth(&Writer::stdout().with_color_depth(ColorDepth::Ansi256)), ColorDepth::Ansi256);
    assert_eq!(writer_color_depth(&Writer::stdout().with_ansi(false)), ColorDepth::NoColor);
    assert_eq!(writer_color_depth(&Writer::file("a.log")), ColorDepth::NoColor);
    let detected = detect_color_depth(&WriterTarget::Stderr);
    assert!(matches!(
        detected,
        ColorDepth::TrueColor | ColorDepth::Ansi256 | ColorDepth::Ansi16 | ColorDepth::NoColor
    ));
}

#[test]
fn recorded_fields_keep_their_order() {
    let mut v = EventVisitor::default();
    v.record_field("a", "1");
    v.record_field("msg", "first");
    v.record_field("b", "2");
    v.record_field("message", "second");
    assert_eq!(v.message.as_deref(), Some("second"));
    assert_eq!(v.fields, vec![("a".to_string(), "1".to_string()), ("b".to_string(), "2".to_string())]);
}

#[test]
fn span_section_joins_names_without_fields() {
    let fmt = Formatter::new().with_show_path(false).with_icons(Icons::UNICODE());
    let spans = vec![
        SpanInfo { name: String::from("outer"), fields: String::new() },
        SpanInfo { name: String::from("inner"), fields: String::new() },
    ];
    let pieces = fmt.event_pieces(EventLevel::Info, "t", None, None, &visitor_of(&[("message", "m")]), &spans);
    assert!(plain_text(&pieces).ends_with("\u{ff63} m [outer\u{bb} inner]\n"));
    let none = fmt.event_pieces(EventLevel::Info, "t", None, None, &visitor_of(&[("message", "m")]), &Vec::new());
    assert!(plain_text(&none).ends_with("\u{ff63} m\n"));
}

#[test]
fn each_target_is_judged_by_its_own_stream() {
    assert_eq!(color_stream(&WriterTarget::Stdout), Some(Stream::Stdout));
    assert_eq!(color_stream(&WriterTarget::Stderr), Some(Stream::Stderr));
    assert_eq!(color_stream(&WriterTarget::AsyncStdout(AsyncMode::Native)), Some(Stream::Stdout));
    assert_eq!(color_stream(&WriterTarget::AsyncStderr(AsyncMode::Native)), Some(Stream::Stderr));
    assert_eq!(color_stream(&Writer::file("a.log").target), None);
    assert_eq!(
        detect_color_depth(&WriterTarget::AsyncStderr(AsyncMode::Native)),
        stream_color_depth(Stream::Stderr)
    );
    assert_eq!(detect_color_depth(&WriterTarget::Stdout), stream_color_depth(Stream::Stdout));
}

#[test]
fn recorded_fields_read_as_one_line() {
    let theme = Theme::acta();
    let fmt = Formatter::new().with_color_depth(ColorDepth::NoColor);
    let mut v = EventVisitor::default();
    assert_eq!(plain_text(&fmt.field_pieces(&v, &theme)), "");
    v.record_field("a", "1");
    assert_eq!(plain_text(&fmt.field_pieces(&v, &theme)), "a=1");
    v.record_field("msg", "first");
    v.record_field("b", "2");
    v.record_field("message", "second");
    assert_eq!(plain_text(&fmt.field_pieces(&v, &theme)), "second a=1 b=2");
}

#[test]
fn time_format_items_render_the_format() {
    let t = NaiveDate::from_ymd_opt(2024, 3, 9).unwrap().and_hms_opt(7, 5, 2).unwrap();
    let items = Formatter::new().time_items.unwrap();
    assert_eq!(t.format_with_items(items.iter()).to_string(), "07:05:02");
    let items = Formatter::new().with_time_format("%Y-%m-%d %H:%M:%S").time_items.unwrap();
    assert_eq!(t.format_with_items(items.iter()).to_string(), "2024-03-09 07:05:02");
}

#[test]
fn writer_settings_make_the_formatter() {
    let w = Writer::stderr().with_show_path(false).with_time_format("%H");
    let f = Formatter::for_writer(&w, ColorDepth::Ansi16);
    assert_eq!(f.time_format, "%H");
    assert!(!f.show_path);
    assert_eq!(f.show_spans, w.show_spans);
    assert_eq!(f.color_depth, ColorDepth::Ansi16);
    assert_eq!(f.path_width, DEFAULT_PATH_WIDTH);
    let d = Formatter::for_writer(&Writer::stdout(), ColorDepth::NoColor);
    assert_eq!(d.time_format, "%H:%M:%S");
    assert!(d.time_items.is_some());
}
