use jo_compiler::error::{report_text, source_line_of, Diagnostic};
use jo_compiler::lint::parse_diagnostics;

fn sample() -> Diagnostic {
    Diagnostic::new(
        "E200",
        "expected return type after ')'".to_string(),
        "src/main.jo".to_string(),
        12,
        5,
        "    }".to_string(),
    )
    .with_label("expected expression")
}

#[test]
fn a_diagnostic_is_rendered_with_a_caret() {
    let expected = "error[E200]: expected return type after ')'\n  --> src/main.jo:12:5\n   |\n\
                    12 |     }\n   |     ^ expected expression\n";
    assert_eq!(sample().render(), expected);
}

#[test]
fn the_message_stands_in_for_an_empty_label() {
    let d = Diagnostic::new("E1", "bad".to_string(), "a.jo".to_string(), 7, 2, "\tx".to_string());
    assert_eq!(d.render(), "error[E1]: bad\n  --> a.jo:7:2\n   |\n 7 | \tx\n   | \t^ bad\n");
}

#[test]
fn the_gutter_grows_with_the_line_number() {
    let d = Diagnostic::new("E1", "m".to_string(), "a".to_string(), 123, 1, "x".to_string());
    assert_eq!(d.render(), "error[E1]: m\n  --> a:123:1\n    |\n123 | x\n    | ^ m\n");
}

#[test]
fn a_rendering_is_one_finding() {
    let d = sample();
    let found = parse_diagnostics(&d.render());
    assert_eq!(found.len(), 1);
}

#[test]
fn a_column_past_the_line_is_clipped() {
    let d = Diagnostic::new("E1", "m".to_string(), "a".to_string(), 1, 9, "ab".to_string());
    assert_eq!(d.render(), "error[E1]: m\n  --> a:1:9\n   |\n 1 | ab\n   |   ^ m\n");
    let z = Diagnostic::new("E1", "m".to_string(), "a".to_string(), 0, 0, String::new());
    assert_eq!(z.render(), "error[E1]: m\n  --> a:0:0\n   |\n 0 | \n   | ^ m\n");
}

#[test]
fn a_report_ends_with_the_count() {
    assert_eq!(report_text(&vec![]), "");
    let one = report_text(&vec![sample()]);
    assert_eq!(one, format!("{}\nerror: aborting due to previous error\n", sample().render()));
    let two = report_text(&vec![sample(), sample()]);
    assert!(two.ends_with("\n\nerror: aborting due to 2 previous errors\n"));
}

#[test]
fn lines_of_a_text() {
    let src = "one\r\ntwo\n\nfour";
    assert_eq!(source_line_of(src, 0), "");
    assert_eq!(source_line_of(src, 1), "one");
    assert_eq!(source_line_of(src, 2), "two");
    assert_eq!(source_line_of(src, 3), "");
    assert_eq!(source_line_of(src, 4), "four");
    assert_eq!(source_line_of(src, 5), "");
}

#[test]
fn what_is_reported_is_found() {
    let other = Diagnostic::new(
        "E4A1",
        "`P` has no field `x`: say [y]: z".to_string(),
        "c:/a b.jo".to_string(),
        3,
        1,
        "error[E1]: p.x".to_string(),
    );
    let found = parse_diagnostics(&report_text(&vec![sample(), other]));
    assert_eq!(found.len(), 2);
    assert_eq!(found[0].message, "expected return type after ')'");
    assert_eq!((found[0].line, found[0].character, found[0].end_character), (11, 4, 84));
    assert_eq!(found[0].severity, 1);
    assert_eq!(found[1].message, "`P` has no field `x`: say [y]: z");
    assert_eq!((found[1].line, found[1].character), (2, 0));
}

#[test]
fn findings_in_other_output() {
    let text = "compiled: x\nwarning[W1]: odd\n  --> f.jo:+4:x\nerror[E9] no colon\n--> 5:6\n\
                error[E1]: no place\nnothing\nerror[E2]: at the end";
    let found = parse_diagnostics(text);
    assert_eq!(found.len(), 2);
    assert_eq!(found[0].severity, 2);
    assert_eq!(found[0].message, "odd");
    assert_eq!((found[0].line, found[0].character), (3, 0));
    assert_eq!(found[1].message, "");
    assert_eq!((found[1].line, found[1].character), (4, 5));
    let zero = parse_diagnostics("error[E1]: m\n --> f:0:99999999999\n");
    assert_eq!((zero[0].line, zero[0].character, zero[0].end_character), (0, 0, 80));
}
