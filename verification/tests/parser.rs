use just::ast::{Expression, Fragment, Justfile};
use just::diagnostic::{Diagnostic, Span};
use just::lexer::tokenize;
use just::parser::parse;

fn parsed(source: &str) -> Justfile {
    parse(&tokenize(source).unwrap()).unwrap()
}

fn refused(source: &str) -> Diagnostic {
    parse(&tokenize(source).unwrap()).unwrap_err()
}

fn variable(name: &str, line: usize, column: usize) -> Expression {
    Expression::Variable { name: name.to_string(), span: Span { line, column, length: name.len() } }
}

#[test]
fn parse_expression_groups_from_the_left() {
    let file = parsed("a = b + 'c' + d\n");
    assert_eq!(file.assignments.len(), 1);
    assert_eq!(file.assignments[0].name, "a");
    assert!(!file.assignments[0].exported);
    assert_eq!(
        file.assignments[0].expression,
        Expression::Concatenation {
            left: Box::new(Expression::Concatenation {
                left: Box::new(variable("b", 0, 4)),
                right: Box::new(Expression::StringLiteral { text: "c".to_string(), raw: true }),
            }),
            right: Box::new(variable("d", 0, 14)),
        }
    );
}

#[test]
fn parse_exported_assignment() {
    let file = parsed("export a = \"x\"\nexport:\n");
    assert!(file.assignments[0].exported);
    assert_eq!(file.assignments[0].expression, Expression::StringLiteral {
        text: "x".to_string(),
        raw: false
    });
    assert_eq!(file.recipes[0].name, "export");
}

#[test]
fn parse_recipe_header() {
    let file = parsed("@build target mode='debug': clean fetch # comment\n");
    let recipe = &file.recipes[0];
    assert_eq!(recipe.name, "build");
    assert!(recipe.quiet);
    assert_eq!(recipe.parameters.len(), 2);
    assert_eq!(recipe.parameters[0].name, "target");
    assert_eq!(recipe.parameters[0].default, None);
    assert_eq!(recipe.parameters[1].name, "mode");
    assert_eq!(
        recipe.parameters[1].default,
        Some(Expression::StringLiteral { text: "debug".to_string(), raw: true })
    );
    assert_eq!(recipe.dependencies.len(), 2);
    assert_eq!(recipe.dependencies[0].name, "clean");
    assert_eq!(recipe.dependencies[1].name, "fetch");
    assert_eq!(recipe.dependencies[1].span, Span { line: 0, column: 34, length: 5 });
    assert!(recipe.lines.is_empty());
}

#[test]
fn parse_doc_comment() {
    let file = parsed("#   this does a thing  \nhello:\n\n# ignored\n\nother:\n");
    assert_eq!(file.recipes[0].doc_comment, Some("this does a thing".to_string()));
    assert_eq!(file.recipes[1].doc_comment, None);
}

#[test]
fn parse_body_lines() {
    let file = parsed("a:\n  @echo {{x}}!\n\n  #!/bin/sh\n\n\nb:\n");
    let lines = &file.recipes[0].lines;
    assert_eq!(lines.len(), 3);
    assert!(lines[0].quiet);
    assert!(!lines[0].shebang);
    assert_eq!(lines[0].fragments, vec![
        Fragment::Text { text: "@echo ".to_string() },
        Fragment::Interpolation { expression: variable("x", 1, 10) },
        Fragment::Text { text: "!".to_string() },
    ]);
    assert!(lines[1].fragments.is_empty());
    assert!(lines[2].shebang);
    assert!(!lines[2].quiet);
    assert_eq!(file.recipes[1].name, "b");
}

#[test]
fn parse_joins_continued_lines() {
    let file = parsed("a:\n  echo a\\\n     b\n  echo c\n");
    let lines = &file.recipes[0].lines;
    assert_eq!(lines.len(), 2);
    assert_eq!(lines[0].fragments, vec![
        Fragment::Text { text: "echo a".to_string() },
        Fragment::Text { text: "   b".to_string() },
    ]);
    assert_eq!(lines[1].fragments, vec![Fragment::Text { text: "echo c".to_string() }]);
}

#[test]
fn parse_duplicate_recipe() {
    let error = refused("a:\nb:\na:\n");
    assert_eq!(error.message, "recipe `a` first defined on line 1 is redefined on line 3");
    assert_eq!(error.span, Some(Span { line: 2, column: 0, length: 1 }));
    assert_eq!(error.code, 255);
}

#[test]
fn parse_duplicate_variable() {
    let error = refused("a = 'x'\nb = 'y'\na = 'z'\n");
    assert_eq!(error.message, "variable `a` has multiple definitions");
    assert_eq!(error.span, Some(Span { line: 2, column: 0, length: 1 }));
}

#[test]
fn parse_required_parameter_after_default() {
    let error = refused("bar:\nhello baz arg='foo' bar:");
    assert_eq!(error.message, "non-default parameter `bar` follows default parameter");
    assert_eq!(error.span, Some(Span { line: 1, column: 20, length: 3 }));
}

#[test]
fn parse_unterminated_interpolation() {
    let error = refused("a:\n echo {{b\n echo c\n");
    assert_eq!(error.message, "unterminated interpolation");
    assert_eq!(error.span, Some(Span { line: 1, column: 6, length: 2 }));
}

#[test]
fn parse_unexpected_tokens() {
    assert_eq!(refused("a b\n").message, "expected name, \"=\", or \":\" but found end of line");
    assert_eq!(refused("a = :\n").message, "expected name, string, or backtick but found \":\"");
    assert_eq!(refused("a = b c\n").message, "expected end of line but found name");
    assert_eq!(refused("= b\n").message, "expected name or \"@\" but found \"=\"");
    assert_eq!(refused("@:\n").message, "expected name but found \":\"");
    assert_eq!(refused("a:\n echo {{b c}}\n").message, "expected \"+\" or }} but found name");
    let error = refused("a = 'x'\n\nb = a\n  : c\n");
    assert_eq!(error.message, "expected name or \"@\" but found \":\"");
    assert_eq!(error.span, Some(Span { line: 3, column: 2, length: 1 }));
}

#[test]
fn parse_indented_items() {
    let file = parsed("  a = 'x'\n\t b: c\n    echo\n\nc:\n");
    assert_eq!(file.assignments[0].name, "a");
    assert_eq!(file.recipes[0].name, "b");
    assert_eq!(file.recipes[0].span, Span { line: 1, column: 2, length: 1 });
    assert_eq!(file.recipes[0].lines.len(), 1);
    assert_eq!(file.recipes[0].lines[0].fragments, vec![Fragment::Text { text: "echo".to_string() }]);
    assert_eq!(file.recipes[1].name, "c");
    assert_eq!(file.recipes[1].span, Span { line: 4, column: 0, length: 1 });
}
