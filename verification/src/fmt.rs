//! The compact line layout: a formatter's settings and the coloured pieces of one event line.

use vstd::prelude::*;
use crate::color::{ansi16_at, basic_index_of, term_color, xterm_index_of, TermColor};
use crate::config::{ColorDepth, Icons, LevelLabels, Rgb, Style, Theme, Writer};
use crate::path::fit_location;
use crate::text::{byte_len, push_char, str_eq};
use vstd::string::StringExecFns;

verus! {

#[verifier::external_type_specification]
#[verifier::external_body]
pub struct ExStrftimeItem<'a>(chrono::format::Item<'a>);

/// What chrono's strftime parser makes of `fmt`: its items, or none when `fmt` holds an
/// invalid specifier. It depends on the format alone.
pub uninterp spec fn strftime_items(fmt: Seq<char>) -> Option<Vec<chrono::format::Item<'static>>>;

/// `chrono::format::StrftimeItems::new(fmt).parse_to_owned().ok()`: the parsed items of a
/// strftime format, or none when chrono rejects it. The result is chrono's parse of `fmt`,
/// named by [`strftime_items`]; chrono's grammar itself is not written out here.
#[verifier::external_body]
fn parse_time_items(fmt: &str) -> (r: Option<Vec<chrono::format::Item<'static>>>)
    ensures
        r == strftime_items(fmt@),
{
    chrono::format::StrftimeItems::new(fmt).parse_to_owned().ok()
}

/// The default width of the location column.
pub const DEFAULT_PATH_WIDTH: usize = 24;

/// The settings of the compact event layout.
#[derive(Debug, Clone)]
#[non_exhaustive]
pub struct Formatter {
    pub time_format: String,
    /// `time_format` parsed ahead of time; `None` when chrono rejects it, in which case the
    /// format string is handed to chrono at each event.
    pub time_items: Option<Vec<chrono::format::Item<'static>>>,
    pub path_width: usize,
    pub show_path: bool,
    pub show_spans: bool,
    pub style: Style,
    pub color_depth: ColorDepth,
}

impl Default for Formatter {
    /// The same as [`Formatter::new`].
    fn default() -> (f: Self)
        ensures
            f.time_format@ == seq!['%', 'H', ':', '%', 'M', ':', '%', 'S'],
            f.time_items == strftime_items(f.time_format@),
            f.path_width == DEFAULT_PATH_WIDTH,
            f.show_path,
            f.show_spans,
            f.style == crate::config::default_style(),
            f.color_depth == ColorDepth::TrueColor,
    {
        Self::new()
    }
}

impl Formatter {
    /// Time as `%H:%M:%S`, the default location width, location and spans shown, the default
    /// look, true colour.
    pub fn new() -> (f: Self)
        ensures
            f.time_format@ == seq!['%', 'H', ':', '%', 'M', ':', '%', 'S'],
            f.time_items == strftime_items(f.time_format@),
            f.path_width == DEFAULT_PATH_WIDTH,
            f.show_path,
            f.show_spans,
            f.style == crate::config::default_style(),
            f.color_depth == ColorDepth::TrueColor,
    {
        let fmt = "%H:%M:%S";
        proof {
            reveal_strlit("%H:%M:%S");
        }
        Formatter {
            time_format: fmt.to_owned(),
            time_items: parse_time_items(fmt),
            path_width: DEFAULT_PATH_WIDTH,
            show_path: true,
            show_spans: true,
            style: Style::default(),
            color_depth: ColorDepth::TrueColor,
        }
    }

    /// The compact formatter for `writer` at colour depth `depth`: the writer's look, its
    /// location and span switches, its time format when it has one (else `%H:%M:%S`) with
    /// chrono's parse of it, and the default location width.
    pub fn for_writer(writer: &Writer, depth: ColorDepth) -> (f: Self)
        ensures
            f.style == writer.style,
            f.show_path == writer.show_path,
            f.show_spans == writer.show_spans,
            f.color_depth == depth,
            f.path_width == DEFAULT_PATH_WIDTH,
            match writer.time_format {
                Some(tf) => f.time_format@ == tf@,
                None => f.time_format@ == seq!['%', 'H', ':', '%', 'M', ':', '%', 'S'],
            },
            f.time_items == strftime_items(f.time_format@),
    {
        let f = Formatter::new().with_style_config(writer.style).with_show_path(
            writer.show_path,
        ).with_show_spans(writer.show_spans).with_color_depth(depth);
        match &writer.time_format {
            Some(tf) => f.with_time_format(tf.as_str()),
            None => f,
        }
    }

    /// A copy of the look.
    pub fn style_config(&self) -> (s: Style)
        ensures
            s == self.style,
    {
        self.style
    }

    /// This formatter with a whole look.
    pub fn with_style_config(self, style: Style) -> (f: Self)
        ensures
            f == (Formatter { style, ..self }),
    {
        let mut f = self;
        f.style = style;
        f
    }

    /// This formatter with `icons`.
    pub fn with_icons(self, icons: Icons) -> (f: Self)
        ensures
            f == (Formatter { style: Style { icons, ..self.style }, ..self }),
    {
        let mut f = self;
        f.style.icons = icons;
        f
    }

    /// This formatter with `labels`.
    pub fn with_labels(self, labels: LevelLabels) -> (f: Self)
        ensures
            f == (Formatter { style: Style { labels, ..self.style }, ..self }),
    {
        let mut f = self;
        f.style.labels = labels;
        f
    }

    /// This formatter with `theme`.
    pub fn with_theme(self, theme: Theme) -> (f: Self)
        ensures
            f == (Formatter { style: Style { theme, ..self.style }, ..self }),
    {
        let mut f = self;
        f.style.theme = theme;
        f
    }

    /// This formatter at colour depth `depth`.
    pub fn with_color_depth(self, depth: ColorDepth) -> (f: Self)
        ensures
            f == (Formatter { color_depth: depth, ..self }),
    {
        let mut f = self;
        f.color_depth = depth;
        f
    }

    /// This formatter with a location column `width` wide.
    pub fn with_path_width(self, width: usize) -> (f: Self)
        ensures
            f == (Formatter { path_width: width, ..self }),
    {
        let mut f = self;
        f.path_width = width;
        f
    }

    /// This formatter with the strftime format `fmt` and chrono's parse of it, which every
    /// later timestamp is rendered with.
    pub fn with_time_format(self, fmt: &str) -> (f: Self)
        ensures
            f == (Formatter { time_format: f.time_format, time_items: f.time_items, ..self }),
            f.time_format@ == fmt@,
            f.time_items == strftime_items(fmt@),
    {
        let mut f = self;
        f.time_format = fmt.to_owned();
        f.time_items = parse_time_items(fmt);
        f
    }

    /// This formatter showing the location or not.
    pub fn with_show_path(self, show: bool) -> (f: Self)
        ensures
            f == (Formatter { show_path: show, ..self }),
    {
        let mut f = self;
        f.show_path = show;
        f
    }

    /// This formatter showing the span scope or not.
    pub fn with_show_spans(self, show: bool) -> (f: Self)
        ensures
            f == (Formatter { show_spans: show, ..self }),
    {
        let mut f = self;
        f.show_spans = show;
        f
    }

    /// The location `file:line` laid out in this formatter's location column.
    pub fn format_path(&self, file: &str, line: u32) -> (r: String)
        requires
            byte_len(file@) <= isize::MAX,
        ensures
            r@ == crate::path::location_in_column(file@, line as nat, self.path_width as nat),
            self.path_width >= 1 ==> r@.len() <= self.path_width,
            crate::path::location_fits(file@, line as nat, self.path_width as nat) ==> r@.len()
                == self.path_width,
            crate::path::no_backslash(r@),
    {
        fit_location(file, line, self.path_width)
    }
}

/// How a piece of text is coloured: a theme colour, possibly dimmed, as foreground or as
/// background.
#[derive(Clone, Copy, Debug, PartialEq, Eq)]
pub struct Paint {
    pub rgb: Rgb,
    pub dimmed: bool,
    pub background: bool,
}

/// How a terminal shows a painted piece at some depth.
#[derive(Clone, Copy, Debug, PartialEq, Eq, Structural)]
pub struct TermStyle {
    pub color: TermColor,
    pub background: bool,
    pub dimmed: bool,
}

/// The colour of `rgb` at `depth`, as [`term_color`] gives it.
pub open spec fn color_at(rgb: Rgb, depth: ColorDepth) -> Option<TermColor> {
    match depth {
        ColorDepth::TrueColor => Some(TermColor::Rgb(rgb.0, rgb.1, rgb.2)),
        ColorDepth::Ansi256 => Some(TermColor::Xterm(xterm_index_of(rgb.0, rgb.1, rgb.2))),
        ColorDepth::Ansi16 => Some(
            TermColor::Ansi(ansi16_at(basic_index_of(rgb.0, rgb.1, rgb.2) as int).unwrap()),
        ),
        ColorDepth::NoColor => None,
    }
}

/// The terminal style of a paint at `depth`: its colour at that depth as foreground or
/// background, dimmed or not; plain text without a paint or without colour.
pub fn term_style(paint: Option<Paint>, depth: ColorDepth) -> (t: Option<TermStyle>)
    ensures
        t == match paint {
            Some(p) => match color_at(p.rgb, depth) {
                Some(c) => Some(TermStyle { color: c, background: p.background, dimmed: p.dimmed }),
                None => None,
            },
            None => None,
        },
{
    match paint {
        Some(p) => match term_color(p.rgb, depth) {
            Some(c) => Some(TermStyle { color: c, background: p.background, dimmed: p.dimmed }),
            None => None,
        },
        None => None,
    }
}

/// A run of text with its colouring; `None` is printed as is.
#[derive(Clone, Debug)]
pub struct Piece {
    pub text: String,
    pub paint: Option<Paint>,
}

/// A piece as text and colouring.
pub type PieceView = (Seq<char>, Option<Paint>);

/// The pieces as text and colouring.
pub open spec fn views(pieces: Seq<Piece>) -> Seq<PieceView> {
    pieces.map_values(|p: Piece| (p.text@, p.paint))
}

/// The text of the pieces without colours.
pub open spec fn plain(pieces: Seq<PieceView>) -> Seq<char>
    decreases pieces.len(),
{
    if pieces.len() == 0 {
        Seq::empty()
    } else {
        plain(pieces.drop_last()) + pieces.last().0
    }
}

/// `rgb` as foreground.
pub open spec fn fg(rgb: Rgb) -> Option<Paint> {
    Some(Paint { rgb, dimmed: false, background: false })
}

/// `rgb` as dimmed foreground.
pub open spec fn fg_dim(rgb: Rgb) -> Option<Paint> {
    Some(Paint { rgb, dimmed: true, background: false })
}

/// `rgb` as background.
pub open spec fn bg(rgb: Rgb) -> Option<Paint> {
    Some(Paint { rgb, dimmed: false, background: true })
}

/// `rgb` as foreground.
fn paint_fg(rgb: Rgb) -> (p: Option<Paint>)
    ensures
        p == fg(rgb),
{
    Some(Paint { rgb, dimmed: false, background: false })
}

/// `rgb` as dimmed foreground.
fn paint_dim(rgb: Rgb) -> (p: Option<Paint>)
    ensures
        p == fg_dim(rgb),
{
    Some(Paint { rgb, dimmed: true, background: false })
}

/// `rgb` as background.
fn paint_bg(rgb: Rgb) -> (p: Option<Paint>)
    ensures
        p == bg(rgb),
{
    Some(Paint { rgb, dimmed: false, background: true })
}

/// One space, uncoloured.
pub open spec fn space() -> PieceView {
    (seq![' '], None)
}

/// Appends a piece.
fn push_piece(out: &mut Vec<Piece>, text: String, paint: Option<Paint>)
    ensures
        views(final(out)@) == views(old(out)@).push((text@, paint)),
{
    let ghost before = out@;
    out.push(Piece { text, paint });
    assert(views(out@) =~= views(before).push((text@, paint)));
}

/// Appends a piece holding `text`.
fn push_str_piece(out: &mut Vec<Piece>, text: &str, paint: Option<Paint>)
    ensures
        views(final(out)@) == views(old(out)@).push((text@, paint)),
{
    push_piece(out, text.to_owned(), paint)
}

/// Appends one uncoloured space.
fn push_space(out: &mut Vec<Piece>)
    ensures
        views(final(out)@) == views(old(out)@).push(space()),
{
    let mut t = String::new();
    push_char(&mut t, ' ');
    assert(t@ =~= seq![' ']);
    push_piece(out, t, None)
}

/// A string holding one character.
fn one_char(c: char) -> (t: String)
    ensures
        t@ == seq![c],
{
    let mut t = String::new();
    push_char(&mut t, c);
    assert(t@ =~= seq![c]);
    t
}

/// The text of the pieces without colours.
pub fn plain_text(pieces: &Vec<Piece>) -> (r: String)
    ensures
        r@ == plain(views(pieces@)),
{
    let mut r = String::new();
    let mut i: usize = 0;
    assert(views(pieces@).take(0) =~= Seq::<PieceView>::empty());
    while i < pieces.len()
        invariant
            i <= pieces@.len(),
            r@ == plain(views(pieces@).take(i as int)),
        decreases pieces.len() - i,
    {
        r.append(pieces[i].text.as_str());
        assert(views(pieces@).take(i + 1).drop_last() =~= views(pieces@).take(i as int));
        i = i + 1;
    }
    assert(views(pieces@).take(pieces@.len() as int) =~= views(pieces@));
    r
}

/// The fields of an event as the visitor records them: the message apart, the other fields
/// as name and value in the order they come.
#[derive(Debug, Clone)]
pub struct EventVisitor {
    pub message: Option<String>,
    pub fields: Vec<(String, String)>,
}

/// The recorded fields as text.
pub open spec fn pairs_view(fields: Seq<(String, String)>) -> Seq<(Seq<char>, Seq<char>)> {
    fields.map_values(|e: (String, String)| (e.0@, e.1@))
}

/// The recorded message as text.
pub open spec fn message_view(message: Option<String>) -> Option<Seq<char>> {
    match message {
        Some(m) => Some(m@),
        None => None,
    }
}

/// Whether a field name is the event's message (`message` or `msg`).
pub open spec fn is_message_name(name: Seq<char>) -> bool {
    name == seq!['m', 'e', 's', 's', 'a', 'g', 'e'] || name == seq!['m', 's', 'g']
}

/// What a visitor holds, as text: the message and the other fields.
pub type Recorded = (Option<Seq<char>>, Seq<(Seq<char>, Seq<char>)>);

/// What a visitor holds after recording `name = value`.
pub open spec fn after_record(state: Recorded, name: Seq<char>, value: Seq<char>) -> Recorded {
    if is_message_name(name) {
        (Some(value), state.1)
    } else {
        (state.0, state.1.push((name, value)))
    }
}

/// What a fresh visitor holds after recording `calls` in order.
pub open spec fn after_records(calls: Seq<(Seq<char>, Seq<char>)>) -> Recorded
    decreases calls.len(),
{
    if calls.len() == 0 {
        (None, Seq::empty())
    } else {
        after_record(after_records(calls.drop_last()), calls.last().0, calls.last().1)
    }
}

/// The value of the last message field among `calls`, if any.
pub open spec fn last_message(calls: Seq<(Seq<char>, Seq<char>)>) -> Option<Seq<char>>
    decreases calls.len(),
{
    if calls.len() == 0 {
        None
    } else if is_message_name(calls.last().0) {
        Some(calls.last().1)
    } else {
        last_message(calls.drop_last())
    }
}

/// Recording fields one after another keeps the other fields in the order they came and
/// takes the message apart: the last `message`/`msg` value wins and never shows among the
/// fields.
pub proof fn lemma_records(calls: Seq<(Seq<char>, Seq<char>)>)
    ensures
        after_records(calls).0 == last_message(calls),
        after_records(calls).1 == calls.filter(
            |c: (Seq<char>, Seq<char>)| !is_message_name(c.0),
        ),
    decreases calls.len(),
{
    reveal_with_fuel(Seq::filter, 1);
    if calls.len() > 0 {
        lemma_records(calls.drop_last());
    }
}

/// What a visitor holds, as text.
pub open spec fn recorded(v: EventVisitor) -> Recorded {
    (message_view(v.message), pairs_view(v.fields@))
}

impl Default for EventVisitor {
    /// No message, no fields.
    fn default() -> (v: Self)
        ensures
            v.message is None,
            v.fields@ == Seq::<(String, String)>::empty(),
    {
        EventVisitor { message: None, fields: Vec::new() }
    }
}

impl EventVisitor {
    /// Records one field: `message` and `msg` set the message, any other name is added after
    /// the fields recorded before.
    pub fn record_field(&mut self, name: &str, value: &str)
        ensures
            recorded(*final(self)) == after_record(recorded(*old(self)), name@, value@),
            is_message_name(name@) ==> message_view(final(self).message) == Some(value@)
                && final(self).fields == old(self).fields,
            !is_message_name(name@) ==> final(self).message == old(self).message && pairs_view(
                final(self).fields@,
            ) == pairs_view(old(self).fields@).push((name@, value@)),
    {
        proof {
            reveal_strlit("message");
            reveal_strlit("msg");
            assert("message"@ =~= seq!['m', 'e', 's', 's', 'a', 'g', 'e']);
            assert("msg"@ =~= seq!['m', 's', 'g']);
        }
        if str_eq(name, "message") || str_eq(name, "msg") {
            self.message = Some(value.to_owned());
        } else {
            let ghost before = self.fields@;
            self.fields.push((name.to_owned(), value.to_owned()));
            assert(pairs_view(self.fields@) =~= pairs_view(before).push((name@, value@)));
        }
    }
}

/// The pieces of one field `name=value`, after a space when `lead`.
pub open spec fn field_pieces(name: Seq<char>, value: Seq<char>, lead: bool, theme: Theme) -> Seq<
    PieceView,
> {
    (if lead {
        seq![space()]
    } else {
        Seq::empty()
    }) + seq![(name, fg(theme.secondary)), (seq!['='], fg(theme.accent)), (value, fg(theme.text))]
}

/// The fields as plain text: `name=value` pairs separated by spaces, after a space when
/// `lead_first`.
pub open spec fn fields_text(fields: Seq<(Seq<char>, Seq<char>)>, lead_first: bool) -> Seq<char>
    decreases fields.len(),
{
    if fields.len() == 0 {
        Seq::empty()
    } else {
        fields_text(fields.drop_last(), lead_first) + (if lead_first || fields.len() > 1 {
            seq![' ']
        } else {
            Seq::empty()
        }) + fields.last().0 + seq!['='] + fields.last().1
    }
}

/// The plain text of one piece is its text.
proof fn lemma_plain_one(p: PieceView)
    ensures
        plain(seq![p]) == p.0,
{
    assert(seq![p].drop_last() =~= Seq::<PieceView>::empty());
    assert(plain(Seq::<PieceView>::empty()) == Seq::<char>::empty());
    assert(Seq::<char>::empty() + p.0 =~= p.0);
}

/// Plain text distributes over appended pieces.
pub proof fn lemma_plain_concat(a: Seq<PieceView>, b: Seq<PieceView>)
    ensures
        plain(a + b) == plain(a) + plain(b),
    decreases b.len(),
{
    if b.len() == 0 {
        assert(a + b =~= a);
        assert(plain(a) + plain(b) =~= plain(a));
    } else {
        lemma_plain_concat(a, b.drop_last());
        assert((a + b).drop_last() =~= a + b.drop_last());
        assert(plain(a + b) =~= plain(a) + plain(b));
    }
}

/// The plain text of the field pieces is the fields' text: colours never add or drop
/// characters.
pub proof fn lemma_fields_plain(fields: Seq<(Seq<char>, Seq<char>)>, lead_first: bool, theme: Theme)
    ensures
        plain(fields_pieces(fields, lead_first, theme)) == fields_text(fields, lead_first),
    decreases fields.len(),
{
    if fields.len() > 0 {
        lemma_fields_plain(fields.drop_last(), lead_first, theme);
        let lead = lead_first || fields.len() > 1;
        let fp = field_pieces(fields.last().0, fields.last().1, lead, theme);
        lemma_plain_concat(fields_pieces(fields.drop_last(), lead_first, theme), fp);
        let a = (fields.last().0, fg(theme.secondary));
        let b = (seq!['='], fg(theme.accent));
        let c = (fields.last().1, fg(theme.text));
        let tail = seq![a, b, c];
        assert(tail =~= seq![a] + seq![b] + seq![c]);
        lemma_plain_one(a);
        lemma_plain_one(b);
        lemma_plain_one(c);
        lemma_plain_concat(seq![a], seq![b]);
        lemma_plain_concat(seq![a] + seq![b], seq![c]);
        if lead {
            lemma_plain_concat(seq![space()], tail);
            lemma_plain_one(space());
            assert(fp =~= seq![space()] + tail);
        } else {
            assert(fp =~= tail);
        }
        assert(plain(fields_pieces(fields, lead_first, theme)) =~= fields_text(fields, lead_first));
    }
}

/// The message and fields as plain text: the message, then each field as `name=value`, all
/// separated by single spaces.
pub proof fn lemma_event_fields_plain(
    message: Option<Seq<char>>,
    fields: Seq<(Seq<char>, Seq<char>)>,
    theme: Theme,
)
    ensures
        plain(event_fields_pieces(message, fields, theme)) == match message {
            Some(m) => m + fields_text(fields, true),
            None => fields_text(fields, false),
        },
{
    match message {
        Some(m) => {
            lemma_fields_plain(fields, true, theme);
            lemma_plain_concat(seq![(m, fg(theme.text))], fields_pieces(fields, true, theme));
            lemma_plain_one((m, fg(theme.text)));
        },
        None => {
            lemma_fields_plain(fields, false, theme);
        },
    }
}

/// `words` separated by single spaces, with no space before the first or after the last.
pub open spec fn join_words(words: Seq<Seq<char>>) -> Seq<char>
    decreases words.len(),
{
    if words.len() == 0 {
        Seq::empty()
    } else if words.len() == 1 {
        words[0]
    } else {
        join_words(words.drop_last()) + seq![' '] + words.last()
    }
}

/// A field as the word `name=value`.
pub open spec fn pair_word(field: (Seq<char>, Seq<char>)) -> Seq<char> {
    field.0 + seq!['='] + field.1
}

/// The words an event's fields show, recorded as `calls`: the last `message`/`msg` value if
/// any, then each other field as `name=value` in the order recorded.
pub open spec fn field_words(calls: Seq<(Seq<char>, Seq<char>)>) -> Seq<Seq<char>> {
    let rest = calls.filter(|c: (Seq<char>, Seq<char>)| !is_message_name(c.0)).map_values(
        |f: (Seq<char>, Seq<char>)| pair_word(f),
    );
    match last_message(calls) {
        Some(m) => seq![m] + rest,
        None => rest,
    }
}

/// The fields' text is their words joined by spaces, after the message when there is one.
proof fn lemma_fields_words(fields: Seq<(Seq<char>, Seq<char>)>, m: Seq<char>)
    ensures
        fields_text(fields, false) == join_words(
            fields.map_values(|f: (Seq<char>, Seq<char>)| pair_word(f)),
        ),
        m + fields_text(fields, true) == join_words(
            seq![m] + fields.map_values(|f: (Seq<char>, Seq<char>)| pair_word(f)),
        ),
    decreases fields.len(),
{
    let ws = fields.map_values(|f: (Seq<char>, Seq<char>)| pair_word(f));
    if fields.len() == 0 {
        assert(ws =~= Seq::<Seq<char>>::empty());
        assert(seq![m] + ws =~= seq![m]);
        assert(m + Seq::<char>::empty() =~= m);
    } else {
        lemma_fields_words(fields.drop_last(), m);
        let ws0 = fields.drop_last().map_values(|f: (Seq<char>, Seq<char>)| pair_word(f));
        assert(ws.drop_last() =~= ws0);
        assert(ws.last() == pair_word(fields.last()));
        assert((seq![m] + ws).drop_last() =~= seq![m] + ws0);
        assert((seq![m] + ws).last() == ws.last());
        if fields.len() == 1 {
            assert(fields_text(fields.drop_last(), false) =~= Seq::<char>::empty());
            assert(fields_text(fields, false) =~= pair_word(fields.last()));
        } else {
            assert(fields_text(fields, false) =~= fields_text(fields.drop_last(), false) + seq![
                ' ',
            ] + pair_word(fields.last()));
        }
        assert(m + fields_text(fields, true) =~= (m + fields_text(fields.drop_last(), true))
            + seq![' '] + pair_word(fields.last()));
    }
}

/// Whatever fields an event records, in whatever order, its message and fields read as one
/// line: the last `message`/`msg` value first, then every other field as `name=value` in the
/// order recorded, separated by single spaces with none before or after, and nothing when the
/// event has no fields. Colours never add or drop characters.
pub proof fn lemma_recorded_fields_text(calls: Seq<(Seq<char>, Seq<char>)>, theme: Theme)
    ensures
        plain(event_fields_pieces(after_records(calls).0, after_records(calls).1, theme))
            == join_words(field_words(calls)),
{
    lemma_records(calls);
    let rest = calls.filter(|c: (Seq<char>, Seq<char>)| !is_message_name(c.0));
    lemma_event_fields_plain(after_records(calls).0, rest, theme);
    match last_message(calls) {
        Some(m) => lemma_fields_words(rest, m),
        None => lemma_fields_words(rest, Seq::empty()),
    }
}

/// The pieces of the fields; every field but a leading first one follows a space.
pub open spec fn fields_pieces(
    fields: Seq<(Seq<char>, Seq<char>)>,
    lead_first: bool,
    theme: Theme,
) -> Seq<PieceView>
    decreases fields.len(),
{
    if fields.len() == 0 {
        Seq::empty()
    } else {
        fields_pieces(fields.drop_last(), lead_first, theme) + field_pieces(
            fields.last().0,
            fields.last().1,
            lead_first || fields.len() > 1,
            theme,
        )
    }
}

/// The pieces of an event's message and fields: the message in the text colour, then each
/// field as `name=value` separated by spaces.
pub open spec fn event_fields_pieces(
    message: Option<Seq<char>>,
    fields: Seq<(Seq<char>, Seq<char>)>,
    theme: Theme,
) -> Seq<PieceView> {
    match message {
        Some(m) => seq![(m, fg(theme.text))] + fields_pieces(fields, true, theme),
        None => fields_pieces(fields, false, theme),
    }
}

/// Where each field's pieces sit among the pieces of the fields: from position `o` on, four
/// per field, a space (except before a first field without a leading space), the name, `=`,
/// and the value.
proof fn lemma_fields_layout(fields: Seq<(Seq<char>, Seq<char>)>, lead_first: bool, theme: Theme)
    ensures
        ({
            let r = fields_pieces(fields, lead_first, theme);
            let o: int = if lead_first { 1 } else { 0 };
            &&& r.len() == if fields.len() == 0 { 0 } else { 4 * fields.len() + o - 1 }
            &&& forall|j: int|
                #![trigger fields[j]]
                0 <= j < fields.len() ==> {
                    &&& r[4 * j + o] == (fields[j].0, fg(theme.secondary))
                    &&& r[4 * j + o + 1] == (seq!['='], fg(theme.accent))
                    &&& r[4 * j + o + 2] == (fields[j].1, fg(theme.text))
                    &&& (lead_first || j > 0) ==> r[4 * j + o - 1] == space()
                }
        }),
    decreases fields.len(),
{
    if fields.len() > 0 {
        let fs = fields.drop_last();
        lemma_fields_layout(fs, lead_first, theme);
        let r = fields_pieces(fields, lead_first, theme);
        let p = fields_pieces(fs, lead_first, theme);
        let n = fields.len() as int;
        let o: int = if lead_first { 1 } else { 0 };
        let lead = lead_first || n > 1;
        let q = field_pieces(fields.last().0, fields.last().1, lead, theme);
        assert(r == p + q);
        assert forall|j: int|
            #![trigger fields[j]]
            0 <= j < n implies {
                &&& r[4 * j + o] == (fields[j].0, fg(theme.secondary))
                &&& r[4 * j + o + 1] == (seq!['='], fg(theme.accent))
                &&& r[4 * j + o + 2] == (fields[j].1, fg(theme.text))
                &&& (lead_first || j > 0) ==> r[4 * j + o - 1] == space()
            } by {
            if j < n - 1 {
                assert(fs[j] == fields[j]);
            } else {
                assert(fields[j] == fields.last());
            }
        }
    }
}

/// Whatever the message and fields, their pieces are the message in the text colour, then for
/// each field in order a space (none before a first field when there is no message), the name
/// in the secondary colour, `=` in the accent colour, and the value in the text colour.
pub proof fn lemma_field_colours(
    message: Option<Seq<char>>,
    fields: Seq<(Seq<char>, Seq<char>)>,
    theme: Theme,
)
    ensures
        ({
            let r = event_fields_pieces(message, fields, theme);
            let o: int = if message is Some { 2 } else { 0 };
            let paint = |rgb: Rgb| Some(Paint { rgb, dimmed: false, background: false });
            &&& r.len() == if message is None && fields.len() == 0 {
                0
            } else {
                4 * fields.len() + o - 1
            }
            &&& message matches Some(m) ==> r[0] == (m, paint(theme.text))
            &&& forall|j: int|
                #![trigger fields[j]]
                0 <= j < fields.len() ==> {
                    &&& r[4 * j + o] == (fields[j].0, paint(theme.secondary))
                    &&& r[4 * j + o + 1] == (seq!['='], paint(theme.accent))
                    &&& r[4 * j + o + 2] == (fields[j].1, paint(theme.text))
                    &&& (message is Some || j > 0) ==> r[4 * j + o - 1] == (
                        seq![' '],
                        None::<Paint>,
                    )
                }
        }),
{
    let r = event_fields_pieces(message, fields, theme);
    match message {
        Some(m) => {
            lemma_fields_layout(fields, true, theme);
            let p = fields_pieces(fields, true, theme);
            assert(r == seq![(m, fg(theme.text))] + p);
            assert forall|j: int|
                #![trigger fields[j]]
                0 <= j < fields.len() implies {
                    &&& r[4 * j + 2] == p[4 * j + 1]
                    &&& r[4 * j + 3] == p[4 * j + 2]
                    &&& r[4 * j + 4] == p[4 * j + 3]
                    &&& r[4 * j + 1] == p[4 * j]
                } by {}
        },
        None => {
            lemma_fields_layout(fields, false, theme);
        },
    }
}

/// Appends the pieces of the fields.
fn push_fields(
    out: &mut Vec<Piece>,
    fields: &Vec<(String, String)>,
    lead_first: bool,
    theme: &Theme,
)
    ensures
        views(final(out)@) == views(old(out)@) + fields_pieces(
            pairs_view(fields@),
            lead_first,
            *theme,
        ),
{
    let ghost fs = pairs_view(fields@);
    let ghost start = views(out@);
    let mut i: usize = 0;
    assert(fs.take(0) =~= Seq::<(Seq<char>, Seq<char>)>::empty());
    assert(start =~= start + fields_pieces(fs.take(0), lead_first, *theme));
    while i < fields.len()
        invariant
            i <= fields@.len(),
            fs == pairs_view(fields@),
            views(out@) == start + fields_pieces(fs.take(i as int), lead_first, *theme),
        decreases fields.len() - i,
    {
        let ghost before = views(out@);
        let entry = &fields[i];
        let lead = lead_first || i > 0;
        if lead {
            push_space(out);
        }
        push_piece(out, entry.0.clone(), paint_fg(theme.secondary));
        push_piece(out, one_char('='), paint_fg(theme.accent));
        push_piece(out, entry.1.clone(), paint_fg(theme.text));
        proof {
            assert(fs.take(i + 1).drop_last() =~= fs.take(i as int));
            assert(fs.take(i + 1).last() == fs[i as int]);
            let (name, value) = fs[i as int];
            assert(views(out@) =~= before + field_pieces(name, value, lead, *theme));
        }
        i = i + 1;
    }
    assert(fs.take(fields@.len() as int) =~= fs);
}

/// A span of the scope: its name and its formatted fields.
#[derive(Clone, Debug)]
pub struct SpanInfo {
    pub name: String,
    pub fields: String,
}

/// The spans as name and fields.
pub open spec fn spans_view(spans: Seq<SpanInfo>) -> Seq<(Seq<char>, Seq<char>)> {
    spans.map_values(|s: SpanInfo| (s.name@, s.fields@))
}

/// The pieces of one span: the innermost (`last`) in the text colour, the others dimmed; its
/// fields after a space when it has any; a join glyph after each but the innermost.
pub open spec fn span_pieces(
    name: Seq<char>,
    fields: Seq<char>,
    last: bool,
    theme: Theme,
    icons: Icons,
) -> Seq<PieceView> {
    let st = if last {
        fg(theme.text)
    } else {
        fg_dim(theme.text)
    };
    seq![(name, st)] + (if fields.len() > 0 {
        seq![space(), (fields, st)]
    } else {
        Seq::empty()
    }) + (if last {
        Seq::empty()
    } else {
        seq![(icons.span_join@, fg_dim(theme.accent)), space()]
    })
}

/// The pieces of the spans, outermost first, of a scope `total` spans deep.
pub open spec fn spans_pieces(
    spans: Seq<(Seq<char>, Seq<char>)>,
    total: nat,
    theme: Theme,
    icons: Icons,
) -> Seq<PieceView>
    decreases spans.len(),
{
    if spans.len() == 0 {
        Seq::empty()
    } else {
        spans_pieces(spans.drop_last(), total, theme, icons) + span_pieces(
            spans.last().0,
            spans.last().1,
            spans.len() == total,
            theme,
            icons,
        )
    }
}

/// The pieces of the span scope: nothing when there is none, else the spans from the
/// outermost in, in brackets after a space.
pub open spec fn scope_pieces(
    spans: Seq<(Seq<char>, Seq<char>)>,
    theme: Theme,
    icons: Icons,
) -> Seq<PieceView> {
    if spans.len() == 0 {
        Seq::empty()
    } else {
        let open = seq![space(), (seq!['['], fg(theme.accent))];
        let close = seq![(seq![']'], fg(theme.accent))];
        open + spans_pieces(spans, spans.len(), theme, icons) + close
    }
}

/// One span as plain text: its name, its fields after a space when it has any, and the join
/// glyph and a space after each but the innermost.
pub open spec fn span_text(name: Seq<char>, fields: Seq<char>, last: bool, join: Seq<char>) -> Seq<
    char,
> {
    name + (if fields.len() > 0 {
        seq![' '] + fields
    } else {
        Seq::empty()
    }) + (if last {
        Seq::empty()
    } else {
        join + seq![' ']
    })
}

/// The spans of a scope `total` deep as plain text, outermost first.
pub open spec fn spans_text(spans: Seq<(Seq<char>, Seq<char>)>, total: nat, join: Seq<char>) -> Seq<
    char,
>
    decreases spans.len(),
{
    if spans.len() == 0 {
        Seq::empty()
    } else {
        spans_text(spans.drop_last(), total, join) + span_text(
            spans.last().0,
            spans.last().1,
            spans.len() == total,
            join,
        )
    }
}

/// The span scope as plain text: nothing without spans, else ` [` and the spans joined by the
/// join glyph and a space, then `]`.
pub open spec fn scope_text(spans: Seq<(Seq<char>, Seq<char>)>, join: Seq<char>) -> Seq<char> {
    if spans.len() == 0 {
        Seq::empty()
    } else {
        seq![' ', '['] + spans_text(spans, spans.len(), join) + seq![']']
    }
}

/// The plain text of one span's pieces is the span's text.
proof fn lemma_span_plain(name: Seq<char>, fields: Seq<char>, last: bool, theme: Theme, icons: Icons)
    ensures
        plain(span_pieces(name, fields, last, theme, icons)) == span_text(
            name,
            fields,
            last,
            icons.span_join@,
        ),
{
    let st = if last {
        fg(theme.text)
    } else {
        fg_dim(theme.text)
    };
    let a = seq![(name, st)];
    let b: Seq<PieceView> = if fields.len() > 0 {
        seq![space(), (fields, st)]
    } else {
        Seq::empty()
    };
    let c: Seq<PieceView> = if last {
        Seq::empty()
    } else {
        seq![(icons.span_join@, fg_dim(theme.accent)), space()]
    };
    lemma_plain_one((name, st));
    lemma_plain_one(space());
    lemma_plain_one((fields, st));
    lemma_plain_one((icons.span_join@, fg_dim(theme.accent)));
    lemma_plain_concat(a, b);
    lemma_plain_concat(a + b, c);
    if fields.len() > 0 {
        assert(b =~= seq![space()] + seq![(fields, st)]);
        lemma_plain_concat(seq![space()], seq![(fields, st)]);
    } else {
        assert(plain(b) =~= Seq::<char>::empty());
    }
    if !last {
        assert(c =~= seq![(icons.span_join@, fg_dim(theme.accent))] + seq![space()]);
        lemma_plain_concat(seq![(icons.span_join@, fg_dim(theme.accent))], seq![space()]);
    } else {
        assert(plain(c) =~= Seq::<char>::empty());
    }
    assert(span_pieces(name, fields, last, theme, icons) == a + b + c);
    assert(plain(span_pieces(name, fields, last, theme, icons)) =~= span_text(
        name,
        fields,
        last,
        icons.span_join@,
    ));
}

/// The plain text of the span pieces is the spans' text.
proof fn lemma_spans_plain(
    spans: Seq<(Seq<char>, Seq<char>)>,
    total: nat,
    theme: Theme,
    icons: Icons,
)
    ensures
        plain(spans_pieces(spans, total, theme, icons)) == spans_text(
            spans,
            total,
            icons.span_join@,
        ),
    decreases spans.len(),
{
    if spans.len() > 0 {
        lemma_spans_plain(spans.drop_last(), total, theme, icons);
        let last = spans.len() == total;
        lemma_span_plain(spans.last().0, spans.last().1, last, theme, icons);
        lemma_plain_concat(
            spans_pieces(spans.drop_last(), total, theme, icons),
            span_pieces(spans.last().0, spans.last().1, last, theme, icons),
        );
    }
}

/// The span section as plain text: empty without spans, else ` [`, then each span's name
/// (followed by a space and its fields when it has any), joined by the join glyph and a space,
/// then `]`. Colours never add or drop characters.
pub proof fn lemma_scope_plain(spans: Seq<(Seq<char>, Seq<char>)>, theme: Theme, icons: Icons)
    ensures
        plain(scope_pieces(spans, theme, icons)) == scope_text(spans, icons.span_join@),
{
    if spans.len() > 0 {
        let open = seq![space(), (seq!['['], fg(theme.accent))];
        let close = seq![(seq![']'], fg(theme.accent))];
        let mid = spans_pieces(spans, spans.len(), theme, icons);
        lemma_spans_plain(spans, spans.len(), theme, icons);
        lemma_plain_one(space());
        lemma_plain_one((seq!['['], fg(theme.accent)));
        lemma_plain_one((seq![']'], fg(theme.accent)));
        assert(open =~= seq![space()] + seq![(seq!['['], fg(theme.accent))]);
        lemma_plain_concat(seq![space()], seq![(seq!['['], fg(theme.accent))]);
        lemma_plain_concat(open, mid);
        lemma_plain_concat(open + mid, close);
        assert(plain(open) =~= seq![' ', '[']);
        assert(plain(scope_pieces(spans, theme, icons)) =~= scope_text(spans, icons.span_join@));
    } else {
        assert(plain(scope_pieces(spans, theme, icons)) =~= scope_text(spans, icons.span_join@));
    }
}

/// Appends the pieces of the span scope.
fn push_scope(out: &mut Vec<Piece>, spans: &Vec<SpanInfo>, theme: &Theme, icons: &Icons)
    ensures
        views(final(out)@) == views(old(out)@) + scope_pieces(spans_view(spans@), *theme, *icons),
{
    let ghost sp = spans_view(spans@);
    let ghost start = views(out@);
    if spans.len() == 0 {
        assert(views(out@) =~= start + scope_pieces(sp, *theme, *icons));
        return;
    }
    let n = spans.len();
    push_space(out);
    push_piece(out, one_char('['), paint_fg(theme.accent));
    let ghost open_part = views(out@);
    let mut i: usize = 0;
    assert(sp.take(0) =~= Seq::<(Seq<char>, Seq<char>)>::empty());
    assert(open_part =~= open_part + spans_pieces(sp.take(0), n as nat, *theme, *icons));
    while i < n
        invariant
            n == spans@.len(),
            i <= n,
            sp == spans_view(spans@),
            views(out@) == open_part + spans_pieces(sp.take(i as int), n as nat, *theme, *icons),
        decreases n - i,
    {
        let ghost before = views(out@);
        let span = &spans[i];
        let is_last = i + 1 == n;
        let paint = Some(Paint { rgb: theme.text, dimmed: !is_last, background: false });
        push_piece(out, span.name.clone(), paint);
        if span.fields.as_str().unicode_len() > 0 {
            push_space(out);
            push_piece(out, span.fields.clone(), paint);
        }
        if !is_last {
            push_str_piece(out, icons.span_join, paint_dim(theme.accent));
            push_space(out);
        }
        proof {
            assert(sp.take(i + 1).drop_last() =~= sp.take(i as int));
            assert(sp.take(i + 1).last() == sp[i as int]);
            assert(sp.take(i + 1).len() == i + 1);
            let (name, fields) = sp[i as int];
            assert(views(out@) =~= before + span_pieces(name, fields, is_last, *theme, *icons));
        }
        i = i + 1;
    }
    assert(sp.take(n as int) =~= sp);
    push_piece(out, one_char(']'), paint_fg(theme.accent));
    assert(views(out@) =~= start + scope_pieces(sp, *theme, *icons));
}

/// The level of an event.
#[derive(Clone, Copy, Debug, PartialEq, Eq, Structural)]
pub enum EventLevel {
    Error,
    Warn,
    Info,
    Debug,
    Trace,
}

/// The theme colour of a level.
pub open spec fn level_color(style: Style, level: EventLevel) -> Rgb {
    match level {
        EventLevel::Error => style.theme.error,
        EventLevel::Warn => style.theme.warn,
        EventLevel::Info => style.theme.info,
        EventLevel::Debug => style.theme.debug,
        EventLevel::Trace => style.theme.trace,
    }
}

/// The label of a level.
pub open spec fn level_label(style: Style, level: EventLevel) -> Seq<char> {
    match level {
        EventLevel::Error => style.labels.error@,
        EventLevel::Warn => style.labels.warn@,
        EventLevel::Info => style.labels.info@,
        EventLevel::Debug => style.labels.debug@,
        EventLevel::Trace => style.labels.trace@,
    }
}

/// The colouring of the level brackets: the level colour as foreground with the Nerd Font
/// icons (whose brackets are half circles), else as background.
pub open spec fn bracket_paint(style: Style, level: EventLevel) -> Option<Paint> {
    if style.icons.name@ == seq!['n', 'e', 'r', 'd'] {
        fg(level_color(style, level))
    } else {
        bg(level_color(style, level))
    }
}

/// The head of a line: the bracketed time, a separator, and the bracketed level label.
pub open spec fn header_pieces(style: Style, level: EventLevel, time: Seq<char>) -> Seq<PieceView> {
    let t = style.theme;
    let i = style.icons;
    seq![
        (i.time_bracket_open@, fg(t.accent)),
        (time, fg(t.text)),
        space(),
        (i.separator@, fg_dim(t.accent)),
        space(),
        (i.bracket_open@, bracket_paint(style, level)),
        (level_label(style, level), bg(level_color(style, level))),
        (i.bracket_close@, bracket_paint(style, level)),
        space(),
        (i.time_bracket_close@, fg(t.accent)),
        space(),
    ]
}

/// The location section: the location in its column, dimmed, then the arrow.
pub open spec fn location_pieces(
    style: Style,
    width: nat,
    file: Option<Seq<char>>,
    line: Option<u32>,
) -> Seq<PieceView> {
    let f = match file {
        Some(f) => f,
        None => seq!['?'],
    };
    let l: nat = match line {
        Some(l) => l as nat,
        None => 0,
    };
    seq![
        (crate::path::location_in_column(f, l, width), fg_dim(style.theme.text)),
        space(),
        (style.icons.arrow@, fg(style.theme.accent)),
        space(),
    ]
}

/// The whole line of an event: head, location when shown, message and fields, span scope
/// when shown, and a line break.
pub open spec fn event_line(
    fmt: Formatter,
    level: EventLevel,
    time: Seq<char>,
    file: Option<Seq<char>>,
    line: Option<u32>,
    message: Option<Seq<char>>,
    fields: Seq<(Seq<char>, Seq<char>)>,
    spans: Seq<(Seq<char>, Seq<char>)>,
) -> Seq<PieceView> {
    header_pieces(fmt.style, level, time) + (if fmt.show_path {
        location_pieces(fmt.style, fmt.path_width as nat, file, line)
    } else {
        Seq::empty()
    }) + event_fields_pieces(message, fields, fmt.style.theme) + (if fmt.show_spans {
        scope_pieces(spans, fmt.style.theme, fmt.style.icons)
    } else {
        Seq::empty()
    }) + seq![(seq!['\n'], None)]
}

/// Whatever the event, its level badge follows the bracketed time and the separator: the
/// label named for the event's level, on a background of the theme colour named for that
/// level (error, warn, info, debug, trace), between the icon brackets, which are painted in
/// that same colour.
pub proof fn lemma_level_badge(
    fmt: Formatter,
    level: EventLevel,
    time: Seq<char>,
    file: Option<Seq<char>>,
    line: Option<u32>,
    message: Option<Seq<char>>,
    fields: Seq<(Seq<char>, Seq<char>)>,
    spans: Seq<(Seq<char>, Seq<char>)>,
)
    ensures
        ({
            let r = event_line(fmt, level, time, file, line, message, fields, spans);
            let t = fmt.style.theme;
            let labels = fmt.style.labels;
            let c = match level {
                EventLevel::Error => t.error,
                EventLevel::Warn => t.warn,
                EventLevel::Info => t.info,
                EventLevel::Debug => t.debug,
                EventLevel::Trace => t.trace,
            };
            let label = match level {
                EventLevel::Error => labels.error@,
                EventLevel::Warn => labels.warn@,
                EventLevel::Info => labels.info@,
                EventLevel::Debug => labels.debug@,
                EventLevel::Trace => labels.trace@,
            };
            &&& r.len() > 7
            &&& r[5].0 == fmt.style.icons.bracket_open@
            &&& r[6] == (label, Some(Paint { rgb: c, dimmed: false, background: true }))
            &&& r[7].0 == fmt.style.icons.bracket_close@
            &&& r[5].1 matches Some(p) && p.rgb == c && !p.dimmed
            &&& r[7].1 == r[5].1
        }),
{
    let h = header_pieces(fmt.style, level, time);
    let r = event_line(fmt, level, time, file, line, message, fields, spans);
    assert(h.len() == 11);
    assert(r[5] == h[5] && r[6] == h[6] && r[7] == h[7]);
}

/// Whatever the event, its line opens with the time between the time brackets, which are in
/// the accent colour, the time in the text colour, and the separator dimmed in the accent
/// colour, each part set off by single spaces around the level badge; when the location is
/// shown, the badge is followed by the location laid out in its column (`?` and line 0 when
/// unknown), dimmed in the text colour, and the arrow in the accent colour; the line ends with
/// a line break.
pub proof fn lemma_line_frame(
    fmt: Formatter,
    level: EventLevel,
    time: Seq<char>,
    file: Option<Seq<char>>,
    line: Option<u32>,
    message: Option<Seq<char>>,
    fields: Seq<(Seq<char>, Seq<char>)>,
    spans: Seq<(Seq<char>, Seq<char>)>,
)
    ensures
        ({
            let r = event_line(fmt, level, time, file, line, message, fields, spans);
            let t = fmt.style.theme;
            let i = fmt.style.icons;
            let sp = (seq![' '], None::<Paint>);
            let lit = |rgb: Rgb| Some(Paint { rgb, dimmed: false, background: false });
            let dim = |rgb: Rgb| Some(Paint { rgb, dimmed: true, background: false });
            let where_file = match file {
                Some(f) => f,
                None => seq!['?'],
            };
            let where_line: nat = match line {
                Some(l) => l as nat,
                None => 0,
            };
            &&& r.len() >= 12
            &&& r[0] == (i.time_bracket_open@, lit(t.accent))
            &&& r[1] == (time, lit(t.text))
            &&& r[2] == sp
            &&& r[3] == (i.separator@, dim(t.accent))
            &&& r[4] == sp
            &&& r[8] == sp
            &&& r[9] == (i.time_bracket_close@, lit(t.accent))
            &&& r[10] == sp
            &&& fmt.show_path ==> {
                &&& r.len() >= 16
                &&& r[11] == (
                    crate::path::location_in_column(
                        where_file,
                        where_line,
                        fmt.path_width as nat,
                    ),
                    dim(t.text),
                )
                &&& r[12] == sp
                &&& r[13] == (i.arrow@, lit(t.accent))
                &&& r[14] == sp
            }
            &&& r[r.len() - 1] == (seq!['\n'], None::<Paint>)
        }),
{
    let h = header_pieces(fmt.style, level, time);
    let r = event_line(fmt, level, time, file, line, message, fields, spans);
    let loc = if fmt.show_path {
        location_pieces(fmt.style, fmt.path_width as nat, file, line)
    } else {
        Seq::empty()
    };
    let rest = event_fields_pieces(message, fields, fmt.style.theme) + (if fmt.show_spans {
        scope_pieces(spans, fmt.style.theme, fmt.style.icons)
    } else {
        Seq::empty()
    });
    assert(r == h + loc + rest + seq![(seq!['\n'], None::<Paint>)]);
    assert(h.len() == 11);
    assert forall|k: int| 0 <= k < 11 implies r[k] == h[k] by {}
    if fmt.show_path {
        assert(loc.len() == 4);
        assert forall|k: int| 0 <= k < 4 implies r[11 + k] == loc[k] by {}
    }
}

/// The text of an optional string.
pub open spec fn opt_view(s: Option<&str>) -> Option<Seq<char>> {
    match s {
        Some(t) => Some(t@),
        None => None,
    }
}

impl Formatter {
    /// The pieces of an event's message and fields in `theme`'s colours.
    pub fn field_pieces(&self, visitor: &EventVisitor, theme: &Theme) -> (r: Vec<Piece>)
        ensures
            views(r@) == event_fields_pieces(
                message_view(visitor.message),
                pairs_view(visitor.fields@),
                *theme,
            ),
    {
        let mut out: Vec<Piece> = Vec::new();
        match &visitor.message {
            Some(m) => {
                push_piece(&mut out, m.clone(), paint_fg(theme.text));
                push_fields(&mut out, &visitor.fields, true, theme);
            },
            None => {
                push_fields(&mut out, &visitor.fields, false, theme);
            },
        }
        assert(views(out@) =~= event_fields_pieces(
            message_view(visitor.message),
            pairs_view(visitor.fields@),
            *theme,
        ));
        out
    }

    /// The pieces of one event's line, as [`event_line`] lays them out; the time is already
    /// formatted, a missing file is shown as `?` and a missing line as `0`.
    pub fn event_pieces(
        &self,
        level: EventLevel,
        time: &str,
        file: Option<&str>,
        line: Option<u32>,
        visitor: &EventVisitor,
        spans: &Vec<SpanInfo>,
    ) -> (r: Vec<Piece>)
        requires
            file matches Some(f) ==> byte_len(f@) <= isize::MAX,
        ensures
            views(r@) == event_line(
                *self,
                level,
                time@,
                opt_view(file),
                line,
                message_view(visitor.message),
                pairs_view(visitor.fields@),
                spans_view(spans@),
            ),
    {
        let style = &self.style;
        let theme = &style.theme;
        let icons = &style.icons;
        let (color, label) = match level {
            EventLevel::Error => (theme.error, style.labels.error),
            EventLevel::Warn => (theme.warn, style.labels.warn),
            EventLevel::Info => (theme.info, style.labels.info),
            EventLevel::Debug => (theme.debug, style.labels.debug),
            EventLevel::Trace => (theme.trace, style.labels.trace),
        };
        let on_bg = paint_bg(color);
        proof {
            reveal_strlit("nerd");
            assert("nerd"@ =~= seq!['n', 'e', 'r', 'd']);
        }
        let bracket = if str_eq(icons.name, "nerd") {
            paint_fg(color)
        } else {
            on_bg
        };
        let accent = paint_fg(theme.accent);
        let mut out: Vec<Piece> = Vec::new();
        push_str_piece(&mut out, icons.time_bracket_open, accent);
        push_str_piece(&mut out, time, paint_fg(theme.text));
        push_space(&mut out);
        push_str_piece(&mut out, icons.separator, paint_dim(theme.accent));
        push_space(&mut out);
        push_str_piece(&mut out, icons.bracket_open, bracket);
        push_str_piece(&mut out, label, on_bg);
        push_str_piece(&mut out, icons.bracket_close, bracket);
        push_space(&mut out);
        push_str_piece(&mut out, icons.time_bracket_close, accent);
        push_space(&mut out);
        let ghost head = views(out@);
        assert(head =~= header_pieces(*style, level, time@));
        if self.show_path {
            let location = match file {
                Some(f) => self.format_path(f, match line {
                    Some(l) => l,
                    None => 0,
                }),
                None => {
                    proof {
                        reveal_strlit("?");
                        assert("?"@ =~= seq!['?']);
                        crate::text::lemma_byte_len_push(Seq::<char>::empty(), '?');
                        assert(Seq::<char>::empty().push('?') =~= seq!['?']);
                    }
                    self.format_path("?", match line {
                        Some(l) => l,
                        None => 0,
                    })
                },
            };
            push_piece(&mut out, location, paint_dim(theme.text));
            push_space(&mut out);
            push_str_piece(&mut out, icons.arrow, accent);
            push_space(&mut out);
            let ghost width = self.path_width as nat;
            assert(views(out@) =~= head + location_pieces(*style, width, opt_view(file), line));
        }
        let ghost before_fields = views(out@);
        let fields = self.field_pieces(visitor, theme);
        let mut k: usize = 0;
        while k < fields.len()
            invariant
                k <= fields@.len(),
                views(out@) == before_fields + views(fields@).take(k as int),
            decreases fields.len() - k,
        {
            let ghost before = views(out@);
            push_piece(&mut out, fields[k].text.clone(), fields[k].paint);
            let ghost vf = views(fields@);
            assert(vf.take(k + 1) =~= vf.take(k as int).push(vf[k as int]));
            k = k + 1;
        }
        assert(views(fields@).take(fields@.len() as int) =~= views(fields@));
        assert(views(out@) =~= before_fields + event_fields_pieces(
            message_view(visitor.message),
            pairs_view(visitor.fields@),
            *theme,
        ));
        if self.show_spans {
            push_scope(&mut out, spans, theme, icons);
        }
        push_piece(&mut out, one_char('\n'), None);
        assert(views(out@) =~= event_line(
            *self,
            level,
            time@,
            opt_view(file),
            line,
            message_view(visitor.message),
            pairs_view(visitor.fields@),
            spans_view(spans@),
        ));
        out
    }
}

} // verus!
