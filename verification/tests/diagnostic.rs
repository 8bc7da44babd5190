use just::diagnostic::{render, ColorMode, Diagnostic, Span};

fn at(message: &str, line: usize, column: usize, length: usize) -> Diagnostic {
    Diagnostic::at(message.to_string(), Span { line, column, length })
}

#[test]
fn render_without_place() {
    let error = Diagnostic::plain("Recipe `x` failed".to_string());
    assert_eq!(error.span, None);
    assert_eq!(error.code, 255);
    assert_eq!(render(&error, "x:\n", ColorMode::Never), "error: Recipe `x` failed\n");
    assert_eq!(render(&error, "x:\n", ColorMode::Auto), "error: Recipe `x` failed\n");
    assert_eq!(
        render(&error, "x:\n", ColorMode::Always),
        "\u{1b}[1;31merror:\u{1b}[0m \u{1b}[1mRecipe `x` failed\u{1b}[0m\n"
    );
}

#[test]
fn render_with_place() {
    let source = "bar:\nhello:\nfoo: bar baaaaaaaz hello";
    let error = at("recipe `foo` has unknown dependency `baaaaaaaz`", 2, 9, 9);
    assert_eq!(
        render(&error, source, ColorMode::Never),
        "error: recipe `foo` has unknown dependency `baaaaaaaz`\n  |\n3 | foo: bar baaaaaaaz hello\n  |          ^^^^^^^^^\n"
    );
    assert_eq!(
        render(&error, source, ColorMode::Always),
        "\u{1b}[1;31merror:\u{1b}[0m \u{1b}[1mrecipe `foo` has unknown dependency `baaaaaaaz`\n\u{1b}[0m  |\n3 | foo: bar baaaaaaaz hello\n  |          \u{1b}[1;31m^^^^^^^^^\u{1b}[0m\n"
    );
}

#[test]
fn render_gutter_is_as_wide_as_the_number() {
    let source = "\n".repeat(99) + "???\n";
    assert_eq!(
        render(&at("unknown start of token:", 99, 0, 1), &source, ColorMode::Never),
        "error: unknown start of token:\n    |\n100 | ???\n    | ^\n"
    );
    assert_eq!(
        render(&at("m", 8, 0, 0), &source, ColorMode::Never),
        "error: m\n  |\n9 | \n  | ^\n"
    );
}

#[test]
fn render_counts_columns() {
    let source = "a\tb\u{9396}c\u{1f62c}d e";
    assert_eq!(
        render(&at("m", 0, 2, 3), source, ColorMode::Never),
        "error: m\n  |\n1 | a    b\u{9396}c\u{1f62c}d e\n  |      ^^^^\n"
    );
    assert_eq!(
        render(&at("m", 0, 1, 1), source, ColorMode::Never),
        "error: m\n  |\n1 | a    b\u{9396}c\u{1f62c}d e\n  |  ^^^^\n"
    );
    assert_eq!(
        render(&at("m", 0, 6, 100), source, ColorMode::Never),
        "error: m\n  |\n1 | a    b\u{9396}c\u{1f62c}d e\n  |           ^^^\n"
    );
}

#[test]
fn render_place_outside_the_source() {
    assert_eq!(render(&at("m", 0, 7, 2), "abc", ColorMode::Never), "error: m\n  |\n1 | abc\n  |    ^\n");
    assert_eq!(render(&at("m", 5, 1, 2), "abc", ColorMode::Never), "error: m\n  |\n6 | \n  | ^\n");
    assert_eq!(
        render(&at("m", usize::MAX, usize::MAX, usize::MAX), "abc", ColorMode::Never),
        "error: m\n                     |\n18446744073709551616 | \n                     | ^\n"
    );
}
