use just::ast::Justfile;
use just::evaluator::{Binding, EvaluationContext};
use just::lexer::tokenize;
use just::listing::{dump, list, show, summary, values};
use just::parser::parse;

fn parsed(source: &str) -> Justfile {
    parse(&tokenize(source).unwrap()).unwrap()
}

fn bind(name: &str, value: &str) -> Binding {
    Binding { name: name.to_string(), value: value.to_string() }
}

#[test]
fn summary_is_in_order() {
    assert_eq!(summary(&parsed("b: a\na:\nd: c\nc: b")), "a b c d\n");
    assert_eq!(summary(&parsed("only:")), "only\n");
    assert_eq!(summary(&parsed("Z:\nab:\na:\n_:\n")), "Z _ a ab\n");
    assert_eq!(summary(&parsed("")), "\n");
}

#[test]
fn list_shows_parameters_and_comments() {
    let source = "# builds\nbuild target mode=\"a\\tb\\\\\" flag='it' + 's' + v other=`x` + w:\n\n@quiet:\n";
    assert_eq!(
        list(&parsed(source)),
        "Available recipes:\n    build target mode='a\\tb\\\\' flag='it' + 's' + v other=`x` + w # builds\n    quiet\n"
    );
    assert_eq!(list(&parsed("v = 'x'\n")), "Available recipes:\n");
}

#[test]
fn dump_writes_the_source_again() {
    let source = "z = \"a\\n\\\"\" + 'b\\n' + `c` + y\nexport y = 'x'\n\n# does it\n@r a b='c': s t\n  @echo {{a + \"!\"}}\n\n  next {{y}}{{z}}\ns:\nt:\n  #!/bin/sh\n";
    let written = "export y = 'x'\n\nz = \"a\\n\\\"\" + 'b\\n' + `c` + y\n\n# does it\n@r a b='c': s t\n    @echo {{a + \"!\"}}\n\n    next {{y}}{{z}}\n\ns:\n\nt:\n    #!/bin/sh\n";
    assert_eq!(dump(&parsed(source)), written);
    assert_eq!(dump(&parsed(written)), written);
    assert_eq!(dump(&parsed("")), "\n");
    assert_eq!(dump(&parsed("a:")), "a:\n");
}

#[test]
fn show_writes_one_recipe() {
    let file = parsed("hello:\n echo hi\nother: hello\n");
    assert_eq!(show(&file, &"other".to_string()).unwrap(), "other: hello\n");
    assert_eq!(show(&file, &"hello".to_string()).unwrap(), "hello:\n    echo hi\n");
    let error = show(&file, &"hell".to_string()).unwrap_err();
    assert_eq!(error.message, "Justfile does not contain recipe `hell`.\nDid you mean `hello`?");
    assert_eq!(error.code, 255);
    assert_eq!(show(&file, &"x".to_string()).unwrap_err().message, "Justfile does not contain recipe `x`.");
}

#[test]
fn values_stand_in_one_column() {
    let file = parsed("hello = 'c'\nab = 'x'\nfoo = 'y'\n");
    let mut context = EvaluationContext::new(vec![bind("foo", "over")]);
    context.values = vec![bind("hello", "c\t"), bind("foo", "y")];
    assert_eq!(values(&file, &context), "ab    = \"\"\nfoo   = \"over\"\nhello = \"c\t\"\n");
    assert_eq!(values(&parsed("r:\n"), &context), "");
}
