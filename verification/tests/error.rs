use lc_syntax::error::{layout, paint, render, render_line, report, Diagnostic, ErrorType, Span, Style};

fn source() -> Vec<String> {
    vec![
        "pub fn foo() -> string {".to_string(),
        "    return 89;".to_string(),
        "}".to_string(),
    ]
}

fn span(style: Style, text: &str) -> Span {
    Span { style, text: text.to_string() }
}

#[test]
fn layout_of_a_report_in_the_middle() {
    let report = layout("Invalid return type. Expected string.", &source(), 1, 11, ErrorType::Fatal);
    assert_eq!(
        report,
        vec![
            vec![span(Style::Dimmed, "0 | pub fn foo() -> string {")],
            vec![
                span(Style::Plain, "1 "),
                span(Style::Dimmed, "|"),
                span(Style::Plain, "     return 89;"),
            ],
            vec![
                span(Style::Plain, "  "),
                span(Style::Dimmed, "|"),
                span(Style::Plain, "            ^ "),
                span(Style::Red, "Invalid return type. Expected string."),
            ],
            vec![span(Style::Dimmed, "2 | }")],
        ]
    );
}

#[test]
fn layout_of_a_report_on_the_first_line() {
    let report = layout("careful", &source(), 0, 0, ErrorType::Warning);
    assert_eq!(
        report,
        vec![
            vec![span(Style::Dimmed, "  |")],
            vec![
                span(Style::Plain, "0 "),
                span(Style::Dimmed, "|"),
                span(Style::Plain, " pub fn foo() -> string {"),
            ],
            vec![
                span(Style::Plain, "  "),
                span(Style::Dimmed, "|"),
                span(Style::Plain, " ^ "),
                span(Style::Yellow, "careful"),
            ],
            vec![span(Style::Dimmed, "1 |     return 89;")],
        ]
    );
}

#[test]
fn layout_of_a_report_on_the_last_line() {
    let report = layout("m", &source(), 2, 1, ErrorType::Fatal);
    assert_eq!(report[0], vec![span(Style::Dimmed, "1 |     return 89;")]);
    assert_eq!(report[3], vec![span(Style::Dimmed, "  |")]);
    let single = layout("m", &vec!["x".to_string()], 0, 2, ErrorType::Fatal);
    assert_eq!(single[0], vec![span(Style::Dimmed, "  |")]);
    assert_eq!(single[2][2], span(Style::Plain, "   ^ "));
    assert_eq!(single[3], vec![span(Style::Dimmed, "  |")]);
}

#[test]
fn margin_is_as_wide_as_the_line_number() {
    let mut lines: Vec<String> = Vec::new();
    for i in 0..120 {
        lines.push(format!("line {}", i));
    }
    let report = layout("m", &lines, 100, 0, ErrorType::Fatal);
    assert_eq!(report[0], vec![span(Style::Dimmed, "99 | line 99")]);
    assert_eq!(report[1][0], span(Style::Plain, "100 "));
    assert_eq!(report[2][0], span(Style::Plain, "    "));
    assert_eq!(report[3], vec![span(Style::Dimmed, "101 | line 101")]);
    let report = layout("m", &lines, 119, 0, ErrorType::Fatal);
    assert_eq!(report[3], vec![span(Style::Dimmed, "    |")]);
    let report = layout("m", &lines, 10, 0, ErrorType::Fatal);
    assert_eq!(report[0], vec![span(Style::Dimmed, "9 | line 9")]);
}

#[test]
fn rendering_with_and_without_colours() {
    colored::control::set_override(false);
    assert_eq!(
        report("Invalid return type. Expected string.", &source(), 1, 11, ErrorType::Fatal),
        vec![
            "0 | pub fn foo() -> string {".to_string(),
            "1 |     return 89;".to_string(),
            "  |            ^ Invalid return type. Expected string.".to_string(),
            "2 | }".to_string(),
        ]
    );
    assert_eq!(paint(&span(Style::Red, "x")), "x");

    colored::control::set_override(true);
    assert_eq!(
        report("Invalid return type. Expected string.", &source(), 1, 11, ErrorType::Fatal),
        vec![
            "\u{1b}[2m0 | pub fn foo() -> string {\u{1b}[0m".to_string(),
            "1 \u{1b}[2m|\u{1b}[0m     return 89;".to_string(),
            "  \u{1b}[2m|\u{1b}[0m            ^ \u{1b}[31mInvalid return type. Expected string.\u{1b}[0m"
                .to_string(),
            "\u{1b}[2m2 | }\u{1b}[0m".to_string(),
        ]
    );
    assert_eq!(
        report("careful", &source(), 0, 0, ErrorType::Warning)[2],
        "  \u{1b}[2m|\u{1b}[0m ^ \u{1b}[33mcareful\u{1b}[0m"
    );
    assert_eq!(paint(&span(Style::Plain, "x")), "x");
    assert_eq!(paint(&span(Style::Dimmed, "x")), "\u{1b}[2mx\u{1b}[0m");
    assert_eq!(paint(&span(Style::Red, "x")), "\u{1b}[31mx\u{1b}[0m");
    assert_eq!(paint(&span(Style::Yellow, "x")), "\u{1b}[33mx\u{1b}[0m");
    assert_eq!(
        render_line(&vec![span(Style::Plain, "a"), span(Style::Red, "b"), span(Style::Plain, "c")]),
        "a\u{1b}[31mb\u{1b}[0mc"
    );
    assert_eq!(render_line(&vec![]), "");
    assert_eq!(
        render(&vec![vec![span(Style::Plain, "a")], vec![], vec![span(Style::Yellow, "b")]]),
        vec!["a".to_string(), String::new(), "\u{1b}[33mb\u{1b}[0m".to_string()]
    );
    colored::control::unset_override();
}

#[test]
fn diagnostics_compare_by_value() {
    let d = Diagnostic {
        message: "m".to_string(),
        line: 3,
        column: 0,
        severity: ErrorType::Warning,
    };
    assert_eq!(d.clone(), d);
    assert_ne!(
        d,
        Diagnostic { message: "m".to_string(), line: 3, column: 0, severity: ErrorType::Fatal }
    );
    assert_ne!(ErrorType::Fatal, ErrorType::Warning);
}
