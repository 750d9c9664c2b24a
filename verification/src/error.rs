//! Diagnostics: what the parser reports, and how a report is laid out
//! around the line of source it is about.

use crate::text::{
    blank, decimal_digits, decimal_text, join, joined, push_blank, push_decimal, push_text,
    text_views,
};
use colored::Colorize;
use vstd::prelude::*;
use vstd::string::StrSliceExecFns;

verus! {

/// How grave a diagnostic is: after a warning parsing goes on, a fatal one
/// ends it.
#[derive(Debug, Clone, Copy, PartialEq, Eq, Structural)]
pub enum ErrorType {
    Warning,
    Fatal,
}

/// A message about the source, with the place it is about. Lines and
/// columns count from zero.
#[derive(Debug, PartialEq)]
pub struct Diagnostic {
    pub message: String,
    pub line: usize,
    pub column: usize,
    pub severity: ErrorType,
}

/// A diagnostic, with its message as a sequence of characters.
pub struct DiagnosticView {
    pub message: Seq<char>,
    pub line: nat,
    pub column: nat,
    pub severity: ErrorType,
}

impl View for Diagnostic {
    type V = DiagnosticView;

    open spec fn view(&self) -> DiagnosticView {
        DiagnosticView {
            message: self.message@,
            line: self.line as nat,
            column: self.column as nat,
            severity: self.severity,
        }
    }
}

impl Clone for Diagnostic {
    fn clone(&self) -> (copy: Diagnostic)
        ensures
            copy@ == self@,
    {
        Diagnostic {
            message: self.message.clone(),
            line: self.line,
            column: self.column,
            severity: self.severity,
        }
    }
}

/// The views of a sequence of diagnostics, in order.
pub open spec fn diagnostic_views(diagnostics: Seq<Diagnostic>) -> Seq<DiagnosticView> {
    diagnostics.map_values(|d: Diagnostic| d@)
}


/// How a stretch of a report is shown.
#[derive(Debug, Clone, Copy, PartialEq, Eq, Structural)]
pub enum Style {
    Plain,
    Dimmed,
    Red,
    Yellow,
}

/// A stretch of a report: some text, all in one style.
#[derive(Debug, PartialEq)]
pub struct Span {
    pub style: Style,
    pub text: String,
}

/// A stretch of a report, with its text as a sequence of characters.
pub struct SpanView {
    pub style: Style,
    pub text: Seq<char>,
}

impl View for Span {
    type V = SpanView;

    open spec fn view(&self) -> SpanView {
        SpanView { style: self.style, text: self.text@ }
    }
}

/// The views of the spans of a line.
pub open spec fn span_views(spans: Seq<Span>) -> Seq<SpanView> {
    spans.map_values(|s: Span| s@)
}

/// The views of the lines of a report.
pub open spec fn layout_views(lines: Seq<Vec<Span>>) -> Seq<Seq<SpanView>> {
    lines.map_values(|l: Vec<Span>| span_views(l@))
}

/// As many spaces as the numeral of `line` is wide.
pub open spec fn margin(line: nat) -> Seq<char> {
    blank(decimal_digits(line).len())
}

/// The line that stands above or below the line a report is about: the
/// line of index `shown` with its number, or an empty margin where there is
/// no such line. It is dimmed as a whole.
pub open spec fn neighbour(lines: Seq<Seq<char>>, shown: Option<nat>, line: nat) -> Seq<SpanView> {
    seq![
        SpanView {
            style: Style::Dimmed,
            text: match shown {
                Some(index) => decimal_digits(index) + " | "@ + lines[index as int],
                None => margin(line) + " |"@,
            },
        },
    ]
}

/// The style of a message of this severity.
pub open spec fn severity_style(severity: ErrorType) -> Style {
    match severity {
        ErrorType::Fatal => Style::Red,
        ErrorType::Warning => Style::Yellow,
    }
}

/// The four lines of a report about line `line` of `lines`: the line
/// before, the line itself with its number, a caret under column `column`
/// with the message, and the line after.
pub open spec fn report_layout(
    message: Seq<char>,
    lines: Seq<Seq<char>>,
    line: nat,
    column: nat,
    severity: ErrorType,
) -> Seq<Seq<SpanView>>
    recommends
        line < lines.len(),
{
    seq![
        neighbour(
            lines,
            if line != 0 {
                Some((line - 1) as nat)
            } else {
                None
            },
            line,
        ),
        seq![
            SpanView { style: Style::Plain, text: decimal_digits(line) + " "@ },
            SpanView { style: Style::Dimmed, text: "|"@ },
            SpanView { style: Style::Plain, text: " "@ + lines[line as int] },
        ],
        seq![
            SpanView { style: Style::Plain, text: margin(line) + " "@ },
            SpanView { style: Style::Dimmed, text: "|"@ },
            SpanView { style: Style::Plain, text: " "@ + blank(column) + "^ "@ },
            SpanView { style: severity_style(severity), text: message },
        ],
        neighbour(
            lines,
            if line + 1 >= lines.len() {
                None
            } else {
                Some(line + 1)
            },
            line,
        ),
    ]
}

/// The escape sequence that switches a style on.
pub open spec fn escape_code(style: Style) -> Seq<char> {
    match style {
        Style::Plain => Seq::empty(),
        Style::Dimmed => "\x1B[2m"@,
        Style::Red => "\x1B[31m"@,
        Style::Yellow => "\x1B[33m"@,
    }
}

/// The escape sequence that switches every style off.
pub open spec fn reset_code() -> Seq<char> {
    "\x1B[0m"@
}

/// Whether the reset sequence occurs in `text`.
pub open spec fn holds_reset(text: Seq<char>) -> bool {
    exists|i: int|
        0 <= i && i + reset_code().len() <= text.len() && #[trigger] text.subrange(
            i,
            i + reset_code().len(),
        ) == reset_code()
}

/// Whether `shown` ends with the reset sequence.
pub open spec fn ends_with_reset(shown: Seq<char>) -> bool {
    &&& shown.len() >= reset_code().len()
    &&& shown.subrange(shown.len() - reset_code().len(), shown.len() as int) == reset_code()
}

/// Whether `shown` may be what a terminal is sent for `text` in `style`.
/// Plain text is sent as it is. Styled text is sent as it is where colours
/// are switched off, and else between the style's escape sequence and the
/// reset sequence. Of styled text that holds a reset sequence itself, only
/// this much is said: it is sent as it is, or what is sent ends with the
/// reset sequence.
pub open spec fn painted(style: Style, text: Seq<char>, shown: Seq<char>) -> bool {
    if style == Style::Plain {
        shown == text
    } else {
        &&& shown == text || ends_with_reset(shown)
        &&& !holds_reset(text) ==> {
            ||| shown == text
            ||| shown == text + reset_code()
            ||| shown == escape_code(style) + text + reset_code()
        }
    }
}

/// Whether `pieces` may be what is sent for `spans`, piece by piece.
pub open spec fn painted_each(spans: Seq<SpanView>, pieces: Seq<Seq<char>>) -> bool {
    &&& pieces.len() == spans.len()
    &&& forall|i: int|
        0 <= i < spans.len() ==> painted(spans[i].style, spans[i].text, #[trigger] pieces[i])
}

/// Whether `shown` may be what is sent for a line of spans.
pub open spec fn line_painted(spans: Seq<SpanView>, shown: Seq<char>) -> bool {
    exists|pieces: Seq<Seq<char>>| #[trigger] painted_each(spans, pieces) && shown == joined(pieces)
}

/// Whether `shown` may be what is sent for a report, line by line.
pub open spec fn report_painted(layout: Seq<Seq<SpanView>>, shown: Seq<Seq<char>>) -> bool {
    &&& shown.len() == layout.len()
    &&& forall|i: int| 0 <= i < layout.len() ==> line_painted(layout[i], #[trigger] shown[i])
}

/// `colored`'s `dimmed`, written out through `Display`. Whether colours are
/// on is for the environment and for `colored::control` to say, so the
/// contract allows both: the text as it is, or in escape sequences. It also
/// allows the text with the reset sequence alone, which is what comes out
/// if colours are switched on while the text is written. Whatever the text,
/// what is written with colours on ends with the reset sequence.
#[verifier::external_body]
fn dimmed(text: &str) -> (shown: String)
    ensures
        painted(Style::Dimmed, text@, shown@),
{
    text.dimmed().to_string()
}

/// `colored`'s `red`, written out through `Display`; see `dimmed`.
#[verifier::external_body]
fn red(text: &str) -> (shown: String)
    ensures
        painted(Style::Red, text@, shown@),
{
    text.red().to_string()
}

/// `colored`'s `yellow`, written out through `Display`; see `dimmed`.
#[verifier::external_body]
fn yellow(text: &str) -> (shown: String)
    ensures
        painted(Style::Yellow, text@, shown@),
{
    text.yellow().to_string()
}

/// What a terminal is sent for a span.
pub fn paint(span: &Span) -> (shown: String)
    ensures
        painted(span.style, span.text@, shown@),
{
    match span.style {
        Style::Plain => span.text.clone(),
        Style::Dimmed => dimmed(span.text.as_str()),
        Style::Red => red(span.text.as_str()),
        Style::Yellow => yellow(span.text.as_str()),
    }
}

/// What a terminal is sent for a line of spans.
pub fn render_line(spans: &Vec<Span>) -> (shown: String)
    ensures
        line_painted(span_views(spans@), shown@),
{
    let mut pieces: Vec<String> = Vec::new();
    let mut i: usize = 0;
    while i < spans.len()
        invariant
            i <= spans.len(),
            pieces@.len() == i,
            forall|j: int|
                0 <= j < i ==> painted(spans@[j].style, spans@[j].text@, #[trigger] pieces@[j]@),
        decreases spans.len() - i,
    {
        pieces.push(paint(&spans[i]));
        i += 1;
    }
    let shown = join(&pieces);
    assert(painted_each(span_views(spans@), text_views(pieces@)));
    shown
}

/// What a terminal is sent for a report, line by line.
pub fn render(layout: &Vec<Vec<Span>>) -> (shown: Vec<String>)
    ensures
        report_painted(layout_views(layout@), text_views(shown@)),
{
    let mut shown: Vec<String> = Vec::new();
    let mut i: usize = 0;
    while i < layout.len()
        invariant
            i <= layout.len(),
            shown@.len() == i,
            forall|j: int|
                0 <= j < i ==> line_painted(span_views(layout@[j]@), #[trigger] shown@[j]@),
        decreases layout.len() - i,
    {
        shown.push(render_line(&layout[i]));
        i += 1;
    }
    shown
}

/// The line above or below the line that a report is about.
fn neighbour_line(lines: &Vec<String>, shown: Option<usize>, line: usize) -> (spans: Vec<Span>)
    requires
        shown matches Some(index) ==> index < lines.len(),
    ensures
        span_views(spans@) == neighbour(
            text_views(lines@),
            match shown {
                Some(index) => Some(index as nat),
                None => None,
            },
            line as nat,
        ),
{
    let mut text = String::new();
    match shown {
        Some(index) => {
            push_decimal(&mut text, index as u64);
            push_text(&mut text, " | ");
            push_text(&mut text, lines[index].as_str());
            assert(text@ =~= decimal_digits(index as nat) + " | "@ + lines@[index as int]@);
        },
        None => {
            push_margin(&mut text, line);
            push_text(&mut text, " |");
            assert(text@ =~= margin(line as nat) + " |"@);
        },
    }
    let spans = vec![Span { style: Style::Dimmed, text }];
    assert(span_views(spans@) =~= seq![SpanView { style: Style::Dimmed, text: text@ }]);
    spans
}

/// Appends as many spaces as the numeral of `line` is wide.
fn push_margin(out: &mut String, line: usize)
    ensures
        final(out)@ == old(out)@ + margin(line as nat),
{
    let numeral = decimal_text(line as u64);
    push_blank(out, numeral.as_str().unicode_len());
}

/// Lays out the report of `message` about the line of index `error_line`
/// of `lines` and the column `error_char`.
pub fn layout(
    message: &str,
    lines: &Vec<String>,
    error_line: usize,
    error_char: usize,
    error_type: ErrorType,
) -> (report: Vec<Vec<Span>>)
    requires
        error_line < lines.len(),
    ensures
        layout_views(report@) == report_layout(
            message@,
            text_views(lines@),
            error_line as nat,
            error_char as nat,
            error_type,
        ),
{
    let above = neighbour_line(
        lines,
        if error_line != 0 {
            Some(error_line - 1)
        } else {
            None
        },
        error_line,
    );
    let mut number = String::new();
    push_decimal(&mut number, error_line as u64);
    push_text(&mut number, " ");
    let mut source = String::new();
    push_text(&mut source, " ");
    push_text(&mut source, lines[error_line].as_str());
    let at = vec![
        Span { style: Style::Plain, text: number },
        Span { style: Style::Dimmed, text: "|".to_owned() },
        Span { style: Style::Plain, text: source },
    ];
    let mut indent = String::new();
    push_margin(&mut indent, error_line);
    push_text(&mut indent, " ");
    let mut caret = String::new();
    push_text(&mut caret, " ");
    push_blank(&mut caret, error_char);
    push_text(&mut caret, "^ ");
    let under = vec![
        Span { style: Style::Plain, text: indent },
        Span { style: Style::Dimmed, text: "|".to_owned() },
        Span { style: Style::Plain, text: caret },
        Span {
            style: match error_type {
                ErrorType::Fatal => Style::Red,
                ErrorType::Warning => Style::Yellow,
            },
            text: message.to_owned(),
        },
    ];
    let below = neighbour_line(
        lines,
        if error_line + 1 >= lines.len() {
            None
        } else {
            Some(error_line + 1)
        },
        error_line,
    );
    proof {
        let wanted = report_layout(
            message@,
            text_views(lines@),
            error_line as nat,
            error_char as nat,
            error_type,
        );
        assert(number@ =~= decimal_digits(error_line as nat) + " "@);
        assert(source@ =~= " "@ + lines@[error_line as int]@);
        assert(indent@ =~= margin(error_line as nat) + " "@);
        assert(caret@ =~= " "@ + blank(error_char as nat) + "^ "@);
        assert(span_views(at@) =~= wanted[1]);
        assert(span_views(under@) =~= wanted[2]);
    }
    let report = vec![above, at, under, below];
    assert(layout_views(report@) =~= report_layout(
        message@,
        text_views(lines@),
        error_line as nat,
        error_char as nat,
        error_type,
    ));
    report
}

/// The report of `message` about a line of `lines`, as the lines of text
/// that a terminal is sent.
pub fn report(
    message: &str,
    lines: &Vec<String>,
    error_line: usize,
    error_char: usize,
    error_type: ErrorType,
) -> (shown: Vec<String>)
    requires
        error_line < lines.len(),
    ensures
        report_painted(
            report_layout(
                message@,
                text_views(lines@),
                error_line as nat,
                error_char as nat,
                error_type,
            ),
            text_views(shown@),
        ),
{
    render(&layout(message, lines, error_line, error_char, error_type))
}

} // verus!
