use just::diagnostic::Span;
use just::lexer::tokenize;
use just::token::TokenKind;
use just::token::TokenKind::{
    Backtick, Colon, Dedent, Eof, Eol, Equals, Identifier, Indent, InterpolationEnd,
    InterpolationStart, Plus, StringLiteral, Text,
};

fn kinds(source: &str) -> Vec<TokenKind> {
    tokenize(source).unwrap().iter().map(|token| token.kind).collect()
}

#[test]
fn tokenize_assignment() {
    assert_eq!(kinds("a = 'b' + `c`\n"), vec![
        Identifier,
        Equals,
        StringLiteral { raw: true },
        Plus,
        Backtick,
        Eol,
        Eof
    ]);
}

#[test]
fn tokenize_recipe_with_body() {
    assert_eq!(kinds("a: b\n  echo {{x}} y\nc:"), vec![
        Identifier,
        Colon,
        Identifier,
        Eol,
        Indent,
        Text,
        InterpolationStart,
        Identifier,
        InterpolationEnd,
        Text,
        Eol,
        Dedent,
        Identifier,
        Colon,
        Eof
    ]);
}

#[test]
fn tokenize_unknown_start() {
    let error = tokenize("\n\n???\n").unwrap_err();
    assert_eq!(error.message, "unknown start of token:");
    assert_eq!(error.span, Some(Span { line: 2, column: 0, length: 1 }));
    assert_eq!(error.code, 255);
}

#[test]
fn tokenize_cooked_string_value() {
    let tokens = tokenize("a = \"x\\t\\\"y\\\\\\n\"").unwrap();
    assert_eq!(tokens[2].kind, TokenKind::StringLiteral { raw: false });
    assert_eq!(tokens[2].text, "x\t\"y\\\n");
    assert_eq!(tokens[2].span, Span { line: 0, column: 4, length: 12 });
}

fn refused(source: &str) -> (String, Span) {
    let error = tokenize(source).unwrap_err();
    assert_eq!(error.code, 255);
    (error.message, error.span.unwrap())
}

#[test]
fn tokenize_ends_with_eof() {
    assert_eq!(kinds(""), vec![Eof]);
    assert_eq!(kinds("\n"), vec![Eol, Eof]);
    assert_eq!(kinds("a:\n b"), vec![Identifier, Colon, Eol, Indent, Text, Dedent, Eof]);
}

#[test]
fn tokenize_tracks_places() {
    let tokens = tokenize("a = 'x\ny' + `z`\nr:\n\tb: c").unwrap();
    let places: Vec<(usize, usize, usize)> =
        tokens.iter().map(|token| (token.span.line, token.span.column, token.span.length)).collect();
    assert_eq!(places, vec![
        (0, 0, 1),
        (0, 2, 1),
        (0, 4, 5),
        (1, 3, 1),
        (1, 5, 3),
        (1, 8, 1),
        (2, 0, 1),
        (2, 1, 1),
        (2, 2, 1),
        (3, 0, 1),
        (3, 1, 4),
        (3, 5, 0),
        (3, 5, 0),
    ]);
    assert_eq!(tokens[2].text, "x\ny");
    assert_eq!(tokens[4].text, "z");
    assert_eq!(tokens[10].text, "b: c");
}

#[test]
fn tokenize_comment_and_at() {
    let tokens = tokenize("# note\n@a: # more").unwrap();
    let texts: Vec<&str> = tokens.iter().map(|token| token.text.as_str()).collect();
    assert_eq!(texts, vec!["# note", "\n", "@", "a", ":", "# more", ""]);
    assert_eq!(tokens[0].kind, TokenKind::Comment);
    assert_eq!(tokens[2].kind, TokenKind::At);
}

#[test]
fn tokenize_continuation_outside_strings() {
    let tokens = tokenize("a = b +\\\n    c\nd:").unwrap();
    let places: Vec<(usize, usize)> =
        tokens.iter().map(|token| (token.span.line, token.span.column)).collect();
    assert_eq!(kinds("a = b +\\\n    c\nd:"), vec![
        Identifier,
        Equals,
        Identifier,
        Plus,
        Identifier,
        Eol,
        Identifier,
        Colon,
        Eof
    ]);
    assert_eq!(places[4], (1, 4));
    assert_eq!(places[6], (2, 0));
}

#[test]
fn tokenize_continuation_inside_cooked_string() {
    let tokens = tokenize("a = \"b\\\nc\"").unwrap();
    assert_eq!(tokens[2].text, "b\nc");
}

#[test]
fn tokenize_unterminated() {
    assert_eq!(refused("a b=':\n"), ("unterminated string".to_string(), Span { line: 0, column: 4, length: 1 }));
    assert_eq!(refused("a = \"b\nc\""), ("unterminated string".to_string(), Span { line: 0, column: 4, length: 1 }));
    assert_eq!(refused("a = \"b\\"), ("unterminated string".to_string(), Span { line: 0, column: 4, length: 1 }));
    assert_eq!(refused("\na =  `b"), ("unterminated string".to_string(), Span { line: 1, column: 5, length: 1 }));
}

#[test]
fn tokenize_bad_escape() {
    assert_eq!(
        refused("a = \"b\\qc\""),
        ("`\\q` is not a valid escape sequence".to_string(), Span { line: 0, column: 4, length: 1 })
    );
}

#[test]
fn tokenize_bad_indentation() {
    assert_eq!(
        refused("a:\n \techo"),
        (
            "found a mix of tabs and spaces in leading whitespace".to_string(),
            Span { line: 1, column: 0, length: 2 }
        )
    );
    assert_eq!(
        refused("a:\n  echo\n\techo"),
        ("inconsistently used leading whitespace".to_string(), Span { line: 2, column: 0, length: 1 })
    );
    assert_eq!(
        refused("a:\n  echo\n echo"),
        ("inconsistently used leading whitespace".to_string(), Span { line: 2, column: 0, length: 1 })
    );
}

#[test]
fn tokenize_deeper_indentation_is_text() {
    let tokens = tokenize("a:\n  echo\n    more\n").unwrap();
    assert_eq!(tokens[6].kind, TokenKind::Text);
    assert_eq!(tokens[6].text, "  more");
    assert_eq!(tokens[6].span, Span { line: 2, column: 2, length: 6 });
}

#[test]
fn tokenize_braces_outside_body() {
    assert_eq!(refused("a = {{b}}").0, "unknown start of token:");
    assert_eq!(refused("a = b }}"), ("unknown start of token:".to_string(), Span { line: 0, column: 6, length: 1 }));
    assert_eq!(kinds("a:\n echo {{b}}}}")[8], Text);
}

#[test]
fn tokenize_indentation_matters_after_a_header_only() {
    assert_eq!(kinds("  a = 'x'\n    b = a\n"), vec![
        Identifier,
        Equals,
        StringLiteral { raw: true },
        Eol,
        Identifier,
        Equals,
        Identifier,
        Eol,
        Eof
    ]);
    assert_eq!(kinds("a = 'x'\n  b:\n\n  c\nd = 'y'\n  e\n"), vec![
        Identifier,
        Equals,
        StringLiteral { raw: true },
        Eol,
        Identifier,
        Colon,
        Eol,
        Eol,
        Indent,
        Text,
        Eol,
        Dedent,
        Identifier,
        Equals,
        StringLiteral { raw: true },
        Eol,
        Identifier,
        Eol,
        Eof
    ]);
}
