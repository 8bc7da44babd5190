use just::ast::{Expression, Justfile};
use just::diagnostic::Span;
use just::evaluator::{
    evaluate, evaluate_line, trim_newline, value_of, Binding, Evaluation, EvaluationContext,
};
use just::lexer::tokenize;
use just::parser::parse;

fn parsed(source: &str) -> Justfile {
    parse(&tokenize(source).unwrap()).unwrap()
}

fn bind(name: &str, value: &str) -> Binding {
    Binding { name: name.to_string(), value: value.to_string() }
}

fn value(text: &str) -> Evaluation {
    Evaluation::Value { text: text.to_string() }
}

const NOWHERE: Span = Span { line: 0, column: 0, length: 0 };

#[test]
fn trim_newline_removes_one() {
    assert_eq!(trim_newline("hello\n"), "hello");
    assert_eq!(trim_newline("hello\n\n"), "hello\n");
    assert_eq!(trim_newline("hello"), "hello");
    assert_eq!(trim_newline(" a\tb \n"), " a\tb ");
    assert_eq!(trim_newline("\n"), "");
    assert_eq!(trim_newline(""), "");
    assert_eq!(trim_newline("hello\r\n"), "hello\r");
}

#[test]
fn evaluate_concatenation_keeps_every_character() {
    let file = parsed("a = \"x\\t \" + ' \\t' + b\nb = '\ty  '\n");
    let mut context = EvaluationContext::new(vec![]);
    let result = evaluate(&file.assignments[0].expression, &file.assignments, &vec![], &mut context);
    assert_eq!(result, value("x\t  \\t\ty  "));
    assert_eq!(context.values, vec![bind("b", "\ty  ")]);
}

#[test]
fn value_of_remembers_values() {
    let file = parsed("a = b + b\nb = `date`\n");
    let mut context = EvaluationContext::new(vec![]);
    let name = "a".to_string();
    let pending = Evaluation::Pending {
        command: "date".to_string(),
        span: Span { line: 1, column: 4, length: 6 },
    };
    assert_eq!(value_of(&name, NOWHERE, &file.assignments, &mut context), pending);
    assert!(context.values.is_empty());
    context.capture("now\n");
    assert_eq!(context.captured, vec!["now".to_string()]);
    assert_eq!(value_of(&name, NOWHERE, &file.assignments, &mut context), value("nownow"));
    assert_eq!(context.values, vec![bind("b", "now"), bind("a", "nownow")]);
    assert!(context.captured.is_empty());
    assert_eq!(value_of(&"b".to_string(), NOWHERE, &file.assignments, &mut context), value("now"));
}

#[test]
fn backticks_are_asked_for_from_left_to_right() {
    let file = parsed("a = `one` + b + `three`\nb = `two`\n");
    let mut context = EvaluationContext::new(vec![]);
    let mut asked = vec![];
    let result = loop {
        match evaluate(&file.assignments[0].expression, &file.assignments, &vec![], &mut context) {
            Evaluation::Pending { command, .. } => {
                context.capture(&format!("<{}>\n", command));
                asked.push(command);
            }
            other => break other,
        }
    };
    assert_eq!(asked, vec!["one", "two", "three"]);
    assert_eq!(result, value("<one><two><three>"));
    assert_eq!(context.values, vec![bind("b", "<two>")]);
}

#[test]
fn override_is_not_evaluated() {
    let file = parsed("foo = `exit 1`\nbar = foo + '!'\n");
    let mut context = EvaluationContext::new(vec![bind("foo", "bar")]);
    assert_eq!(value_of(&"foo".to_string(), NOWHERE, &file.assignments, &mut context), value("bar"));
    assert_eq!(value_of(&"bar".to_string(), NOWHERE, &file.assignments, &mut context), value("bar!"));
    assert_eq!(context.values, vec![bind("bar", "bar!")]);
}

#[test]
fn parameter_comes_before_variable() {
    let file = parsed("a = 'variable'\n");
    let mut context = EvaluationContext::new(vec![bind("a", "override")]);
    let expression = Expression::Variable { name: "a".to_string(), span: NOWHERE };
    let parameters = vec![bind("a", "parameter")];
    assert_eq!(evaluate(&expression, &file.assignments, &parameters, &mut context), value("parameter"));
    assert_eq!(evaluate(&expression, &file.assignments, &vec![], &mut context), value("override"));
}

#[test]
fn undefined_variable_fails() {
    let file = parsed("a = b\n");
    let mut context = EvaluationContext::new(vec![]);
    match evaluate(&file.assignments[0].expression, &file.assignments, &vec![], &mut context) {
        Evaluation::Failed { error } => {
            assert_eq!(error.message, "variable `b` not defined");
            assert_eq!(error.span, Some(Span { line: 0, column: 4, length: 1 }));
            assert_eq!(error.code, 255);
        }
        other => panic!("unexpected result: {:?}", other),
    }
}

#[test]
fn circular_variable_fails() {
    let file = parsed("a = 'x' + b\nb = c\nc = a\n");
    let mut context = EvaluationContext::new(vec![]);
    match value_of(&"a".to_string(), NOWHERE, &file.assignments, &mut context) {
        Evaluation::Failed { error } => {
            assert_eq!(error.message, "variable `a` depends on its own value");
            assert_eq!(error.span, Some(Span { line: 2, column: 4, length: 1 }));
        }
        other => panic!("unexpected result: {:?}", other),
    }
    assert!(context.values.is_empty());
}

#[test]
fn line_is_evaluated_with_parameters() {
    let file = parsed("v = 'w'\nr p:\n echo {{p + v}} {{`id`}}.\n");
    let mut context = EvaluationContext::new(vec![]);
    let fragments = &file.recipes[0].lines[0].fragments;
    let parameters = vec![bind("p", "q")];
    assert_eq!(
        evaluate_line(fragments, &file.assignments, &parameters, &mut context),
        Evaluation::Pending { command: "id".to_string(), span: Span { line: 2, column: 18, length: 4 } }
    );
    context.capture("me\n");
    assert_eq!(evaluate_line(fragments, &file.assignments, &parameters, &mut context), value("echo qw me."));
}
