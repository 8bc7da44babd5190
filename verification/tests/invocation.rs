use just::ast::Justfile;
use just::evaluator::Binding;
use just::invocation::{check_overrides, requests, split_override, take_overrides};
use just::lexer::tokenize;
use just::parser::parse;
use just::resolver::RecipeInvocation;

fn parsed(source: &str) -> Justfile {
    parse(&tokenize(source).unwrap()).unwrap()
}

fn bind(name: &str, value: &str) -> Binding {
    Binding { name: name.to_string(), value: value.to_string() }
}

fn texts(words: &[&str]) -> Vec<String> {
    words.iter().map(|word| word.to_string()).collect()
}

fn request(name: &str, arguments: &[&str]) -> RecipeInvocation {
    RecipeInvocation { name: name.to_string(), arguments: texts(arguments) }
}

#[test]
fn split_override_reads_name_and_value() {
    assert_eq!(split_override("a=b"), Some(bind("a", "b")));
    assert_eq!(split_override("a="), Some(bind("a", "")));
    assert_eq!(split_override("a=b=c"), Some(bind("a", "b=c")));
    assert_eq!(split_override("long name= v "), Some(bind("long name", " v ")));
    assert_eq!(split_override("=b"), None);
    assert_eq!(split_override("ab"), None);
    assert_eq!(split_override(""), None);
}

#[test]
fn take_overrides_stops_at_first_other_argument() {
    let mut overrides = vec![bind("x", "y")];
    let taken = take_overrides(&texts(&["foo=bar", "a=b", "recipe", "baz=bar"]), &mut overrides);
    assert_eq!(taken, 2);
    assert_eq!(overrides, vec![bind("x", "y"), bind("foo", "bar"), bind("a", "b")]);
    assert_eq!(take_overrides(&texts(&[]), &mut overrides), 0);
    assert_eq!(take_overrides(&texts(&["a=b"]), &mut overrides), 1);
}

#[test]
fn requests_default_to_first_recipe() {
    let file = parsed("v = 'x'\nfirst:\nsecond:\n");
    assert_eq!(requests(&file, &texts(&[]), 0).unwrap(), vec![request("first", &[])]);
    assert_eq!(requests(&file, &texts(&["a=b"]), 1).unwrap(), vec![request("first", &[])]);
    let error = requests(&parsed("v = 'x'\n"), &texts(&[]), 0).unwrap_err();
    assert_eq!(error.message, "Justfile contains no recipes.");
    assert_eq!(error.span, None);
    assert_eq!(error.code, 255);
}

#[test]
fn requests_group_arguments() {
    let file = parsed("plain:\nwith a b='c':\n");
    assert_eq!(
        requests(&file, &texts(&["with", "plain", "x=y"]), 0).unwrap(),
        vec![request("with", &["plain", "x=y"])]
    );
    assert_eq!(requests(&file, &texts(&["with"]), 0).unwrap(), vec![request("with", &[])]);
    assert_eq!(
        requests(&file, &texts(&["plain", "with", "other"]), 0).unwrap(),
        vec![request("plain", &[]), request("with", &[]), request("other", &[])]
    );
    assert_eq!(
        requests(&file, &texts(&["skipped", "plain"]), 1).unwrap(),
        vec![request("plain", &[])]
    );
}

#[test]
fn unknown_overrides_are_listed_in_order() {
    let file = parsed("a = 'x'\nr:\n");
    assert!(check_overrides(&file, &vec![]).is_ok());
    assert!(check_overrides(&file, &vec![bind("a", "1"), bind("a", "2")]).is_ok());
    let one = check_overrides(&file, &vec![bind("foo", "bar")]).unwrap_err();
    assert_eq!(one.message, "Variable `foo` overridden on the command line but not present in justfile");
    assert_eq!(one.span, None);
    assert_eq!(one.code, 255);
    let two = check_overrides(&file, &vec![bind("foo", "1"), bind("a", "2"), bind("baz", "3")]).unwrap_err();
    assert_eq!(
        two.message,
        "Variables `baz` and `foo` overridden on the command line but not present in justfile"
    );
    let many = check_overrides(
        &file,
        &vec![bind("r", "1"), bind("ab", "2"), bind("b", "3"), bind("ab", "4"), bind("aa", "5"), bind("B", "6")],
    )
    .unwrap_err();
    assert_eq!(
        many.message,
        "Variables `B`, `aa`, `ab`, `b`, and `r` overridden on the command line but not present in justfile"
    );
}
