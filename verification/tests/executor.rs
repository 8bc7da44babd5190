use just::diagnostic::Span;
use just::evaluator::Binding;
use just::executor::{Action, Config, Event, Phase, Runner};
use just::run::prepare;

const PLAIN: Config = Config { dry_run: false, quiet: false };

fn texts(words: &[&str]) -> Vec<String> {
    words.iter().map(|word| word.to_string()).collect()
}

fn bind(name: &str, value: &str) -> Binding {
    Binding { name: name.to_string(), value: value.to_string() }
}

fn start(source: &str, arguments: &[&str], config: Config) -> Runner {
    prepare(source, vec![], &texts(arguments), config).unwrap()
}

fn command(text: &str, announce: bool) -> Action {
    Action::Command { command: text.to_string(), exports: vec![], announce, silent: false }
}

fn finished(code: i32, message: Option<&str>) -> Action {
    match message {
        None => Action::Finish { code, error: None },
        Some(message) => Action::Finish {
            code,
            error: Some(just::diagnostic::Diagnostic { message: message.to_string(), span: None, code }),
        },
    }
}

/// Runs to the end with commands that all end well, and gives the requests.
fn requests_of(mut runner: Runner) -> Vec<Action> {
    let mut actions = vec![];
    let mut event = Event::Start;
    loop {
        let action = runner.step(event);
        event = match &action {
            Action::Backtick { command, .. } => Event::Captured { code: 0, output: format!("[{}]\n", command) },
            Action::Finish { .. } => {
                actions.push(action);
                return actions;
            }
            _ => Event::Exited { code: 0 },
        };
        actions.push(action);
    }
}

fn arity(source: &str, arguments: &[&str]) -> String {
    match requests_of(start(source, arguments, PLAIN)).pop() {
        Some(Action::Finish { code: 255, error: Some(error) }) => {
            assert_eq!(error.span, None);
            error.message
        }
        other => panic!("unexpected end: {:?}", other),
    }
}

#[test]
fn arity_messages() {
    assert_eq!(arity("foo A B:", &["foo", "1", "2", "3"]), "Recipe `foo` got 3 arguments but only takes 2");
    assert_eq!(arity("foo A B:", &["foo", "1"]), "Recipe `foo` got 1 argument but takes 2");
    assert_eq!(arity("foo A:", &["foo"]), "Recipe `foo` got 0 arguments but takes 1");
    assert_eq!(arity("foo A:", &["foo", "1", "2"]), "Recipe `foo` got 2 arguments but only takes 1");
    assert_eq!(arity("foo A B='b':", &["foo", "1", "2", "3"]), "Recipe `foo` got 3 arguments but takes at most 2");
    assert_eq!(arity("foo A B C='c':", &["foo", "1"]), "Recipe `foo` got 1 argument but takes at least 2");
    assert_eq!(arity("foo A='a':", &["foo", "1", "2"]), "Recipe `foo` got 2 arguments but takes at most 1");
    assert_eq!(arity("bar: foo\nfoo A:", &["bar"]), "Recipe `foo` got 0 arguments but takes 1");
}

#[test]
fn arguments_and_defaults_are_bound() {
    let source = "v = 'w'\nfoo a b=v + `x` c='C':\n echo {{a}} {{b}} {{c}}\n";
    assert_eq!(requests_of(start(source, &["foo", "0"], PLAIN)), vec![
        Action::Backtick { command: "x".to_string(), exports: vec![], silent: false },
        command("echo 0 w[x] C", true),
        finished(0, None),
    ]);
    assert_eq!(requests_of(start(source, &["foo", "0", "1", "2"], PLAIN)), vec![
        command("echo 0 1 2", true),
        finished(0, None),
    ]);
}

#[test]
fn lines_are_announced_by_their_marks() {
    let source = "loud:\n one\n @two\n@hush:\n three\n @four\n";
    assert_eq!(requests_of(start(source, &["loud", "hush"], PLAIN)), vec![
        command("one", true),
        command("two", false),
        command("three", false),
        command("four", true),
        finished(0, None),
    ]);
}

#[test]
fn comments_and_empty_lines_are_not_run() {
    let source = "r:\n # comment\n\n @# quiet comment\n   \t# indented\n {{''}}\n echo # kept\n";
    assert_eq!(requests_of(start(source, &["r"], PLAIN)), vec![command("echo # kept", true), finished(0, None)]);
}

#[test]
fn script_is_run_as_one() {
    let source = "export a = 'b'\nc = 'd'\nr x:\n #!/bin/sh\n echo {{x}}\n\n @echo {{c}}\n\n";
    let script = "#!/bin/sh\necho 1\n\n@echo d\n";
    assert_eq!(requests_of(start(source, &["r", "1"], PLAIN)), vec![
        Action::Script { text: script.to_string(), exports: vec![bind("a", "b")], announce: false, silent: false },
        finished(0, None),
    ]);
    assert_eq!(requests_of(start(&source.replace("r x", "@r x"), &["r", "1"], PLAIN)), vec![
        Action::Script { text: script.to_string(), exports: vec![bind("a", "b")], announce: true, silent: false },
        finished(0, None),
    ]);
}

#[test]
fn dry_run_shows_and_does_not_run() {
    let source = "a:\n @one {{`x`}}\n two\ns:\n #!/bin/sh\n three\n";
    let config = Config { dry_run: true, quiet: false };
    assert_eq!(requests_of(start(source, &["a", "s"], config)), vec![
        Action::Backtick { command: "x".to_string(), exports: vec![], silent: false },
        Action::Announce { text: "one [x]\n".to_string() },
        Action::Announce { text: "two\n".to_string() },
        Action::Announce { text: "#!/bin/sh\nthree\n".to_string() },
        finished(0, None),
    ]);
}

#[test]
fn quiet_run_shows_nothing() {
    let source = "export v = `x`\na:\n one\n @two\n@s:\n #!/bin/sh\n";
    let config = Config { dry_run: false, quiet: true };
    let exports = vec![bind("v", "[x]")];
    assert_eq!(requests_of(start(source, &["a", "s"], config)), vec![
        Action::Backtick { command: "x".to_string(), exports: vec![], silent: true },
        Action::Command { command: "one".to_string(), exports: exports.clone(), announce: false, silent: true },
        Action::Command { command: "two".to_string(), exports: exports.clone(), announce: false, silent: true },
        Action::Script { text: "#!/bin/sh\n".to_string(), exports, announce: false, silent: true },
        finished(0, None),
    ]);
    let mut runner = start(source, &["a"], config);
    runner.step(Event::Start);
    assert_eq!(runner.step(Event::Captured { code: 3, output: String::new() }), finished(3, None));
}

#[test]
fn failing_command_ends_the_run() {
    let mut runner = start("a: b\n one\nb:\n two\n three\n", &["a"], PLAIN);
    assert_eq!(runner.step(Event::Start), command("two", true));
    assert_eq!(runner.step(Event::Exited { code: 0 }), command("three", true));
    assert_eq!(
        runner.step(Event::Exited { code: -7 }),
        finished(-7, Some("Recipe `b` failed with exit code -7"))
    );
    assert_eq!(runner.phase, Phase::Finished);
    assert_eq!(runner.step(Event::Exited { code: 0 }), finished(-7, None));
    assert_eq!(runner.step(Event::Start), finished(-7, None));
}

#[test]
fn failing_backtick_ends_the_run() {
    let mut runner = start("a:\n one {{`two`}}\n", &[], PLAIN);
    assert_eq!(
        runner.step(Event::Start),
        Action::Backtick { command: "two".to_string(), exports: vec![], silent: false }
    );
    assert_eq!(
        runner.step(Event::Captured { code: 200, output: "ignored".to_string() }),
        Action::Finish {
            code: 200,
            error: Some(just::diagnostic::Diagnostic {
                message: "backtick failed with exit code 200".to_string(),
                span: Some(Span { line: 1, column: 7, length: 5 }),
                code: 200,
            }),
        }
    );
}

#[test]
fn unexpected_event_ends_the_run() {
    let message = "internal error: the run was handed what it did not wait for";
    let mut runner = start("a:\n one\n", &[], PLAIN);
    assert_eq!(runner.step(Event::Exited { code: 0 }), finished(255, Some(message)));
    let mut runner = start("a:\n one\n", &[], PLAIN);
    assert_eq!(runner.step(Event::Start), command("one", true));
    assert_eq!(runner.step(Event::Captured { code: 0, output: String::new() }), finished(255, Some(message)));
}

#[test]
fn exports_are_those_known_so_far() {
    let source = "export a = 'x'\nexport b = `first`\nc = 'z'\nexport d = `second`\nr:\n run\n";
    let mut runner = prepare(source, vec![bind("a", "over")], &texts(&[]), PLAIN).unwrap();
    assert_eq!(
        runner.step(Event::Start),
        Action::Backtick { command: "first".to_string(), exports: vec![bind("a", "over")], silent: false }
    );
    assert_eq!(
        runner.step(Event::Captured { code: 0, output: "1\n".to_string() }),
        Action::Backtick {
            command: "second".to_string(),
            exports: vec![bind("a", "over"), bind("b", "1")],
            silent: false
        }
    );
    assert_eq!(
        runner.step(Event::Captured { code: 0, output: "2".to_string() }),
        Action::Command {
            command: "run".to_string(),
            exports: vec![bind("a", "over"), bind("b", "1"), bind("d", "2")],
            announce: true,
            silent: false
        }
    );
}

#[test]
fn prepare_reports_first_failure() {
    let failure = |source: &str, arguments: &[&str]| {
        prepare(source, vec![], &texts(arguments), PLAIN).unwrap_err().message
    };
    assert_eq!(failure("a:\n echo {{b}}\n???", &[]), "unknown start of token:");
    assert_eq!(failure("a:\n echo {{b}}\na:", &[]), "recipe `a` first defined on line 1 is redefined on line 3");
    assert_eq!(failure("a: c\n echo {{b}}\n", &["x=y", "z"]), "variable `b` not defined");
    assert_eq!(failure("p q=r:\n", &[]), "variable `r` not defined");
    assert_eq!(failure("p q:\n echo {{q}}\nv = q\n", &[]), "variable `q` not defined");
    assert_eq!(
        failure("a: c\n", &["x=y", "z"]),
        "Variable `x` overridden on the command line but not present in justfile"
    );
    assert_eq!(failure("a: c\n", &["z"]), "recipe `a` has unknown dependency `c`");
    assert_eq!(failure("a: a\n", &["z"]), "Justfile does not contain recipe `z`.\nDid you mean `a`?");
    assert_eq!(failure("a: a\n", &[]), "recipe `a` has circular dependency `a -> a`");
    assert_eq!(failure("", &[]), "Justfile contains no recipes.");
}
