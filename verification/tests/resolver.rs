use just::lexer::tokenize;
use just::parser::parse;
use just::resolver::{plan, RecipeInvocation};

fn order(source: &str, names: &[&str]) -> Result<Vec<String>, String> {
    let justfile = parse(&tokenize(source).unwrap()).unwrap();
    let requested: Vec<RecipeInvocation> = names
        .iter()
        .map(|name| RecipeInvocation { name: name.to_string(), arguments: vec![] })
        .collect();
    match plan(&justfile, &requested) {
        Ok(plan) => Ok(plan.steps.iter().map(|step| justfile.recipes[step.recipe].name.clone()).collect()),
        Err(error) => Err(error.message),
    }
}

#[test]
fn plan_orders_prerequisites_first() {
    let text = "b: a\na:\nd: c\nc: b";
    assert_eq!(order(text, &["a", "d"]).unwrap(), vec!["a", "b", "c", "d"]);
    assert_eq!(order(text, &["d", "a"]).unwrap(), vec!["a", "b", "c", "d"]);
    assert_eq!(order(text, &["b"]).unwrap(), vec!["a", "b"]);
}

#[test]
fn plan_reports_cycle() {
    assert_eq!(
        order("a: b\nb: c\nc: d\nd: a", &["a"]).unwrap_err(),
        "recipe `d` has circular dependency `a -> b -> c -> d -> a`"
    );
}

#[test]
fn plan_reports_unknown_dependency() {
    assert_eq!(
        order("bar:\nhello:\nfoo: bar baaaaaaaz hello", &["bar"]).unwrap_err(),
        "recipe `foo` has unknown dependency `baaaaaaaz`"
    );
}

#[test]
fn plan_reports_unknown_recipes() {
    assert_eq!(order("hello:", &["foo"]).unwrap_err(), "Justfile does not contain recipe `foo`.");
    assert_eq!(
        order("hello:", &["foo", "bar"]).unwrap_err(),
        "Justfile does not contain recipes `foo` or `bar`."
    );
}

#[test]
fn plan_schedules_shared_prerequisite_once() {
    let text = "all: left right\nleft: base\nright: base left\nbase:\nunused: base\n";
    assert_eq!(order(text, &["all"]).unwrap(), vec!["base", "left", "right", "all"]);
    assert_eq!(order(text, &["right", "all", "right", "base"]).unwrap(), vec!["base", "left", "right", "all"]);
    assert_eq!(order(text, &["base", "unused"]).unwrap(), vec!["base", "unused"]);
    assert_eq!(order(text, &[]).unwrap(), Vec::<String>::new());
}

#[test]
fn plan_keeps_arguments_of_requests() {
    let justfile = parse(&tokenize("a x: b\nb:\n").unwrap()).unwrap();
    let requested = vec![
        RecipeInvocation { name: "b".to_string(), arguments: vec![] },
        RecipeInvocation { name: "a".to_string(), arguments: vec!["1".to_string()] },
        RecipeInvocation { name: "a".to_string(), arguments: vec!["2".to_string()] },
    ];
    let steps = plan(&justfile, &requested).unwrap().steps;
    assert_eq!(steps.len(), 2);
    assert_eq!((steps[0].recipe, steps[0].arguments.len()), (1, 0));
    assert_eq!((steps[1].recipe, steps[1].arguments.clone()), (0, vec!["1".to_string()]));
}

#[test]
fn plan_reports_cycles_on_the_way_only() {
    let text = "a: b\nb: c b\nc:\nd: d\ne: a\n";
    assert_eq!(order(text, &["c"]).unwrap(), vec!["c"]);
    assert_eq!(order(text, &["e"]).unwrap_err(), "recipe `b` has circular dependency `b -> b`");
    assert_eq!(order(text, &["c", "d"]).unwrap_err(), "recipe `d` has circular dependency `d -> d`");
    assert_eq!(
        order("a: b\nb: c\nc: d\nd: b\n", &["a"]).unwrap_err(),
        "recipe `d` has circular dependency `b -> c -> d -> b`"
    );
}

#[test]
fn plan_failure_has_place_of_dependency() {
    let justfile = parse(&tokenize("a: b\nb: c\nc: d\nd: a").unwrap()).unwrap();
    let requested = vec![RecipeInvocation { name: "a".to_string(), arguments: vec![] }];
    let error = plan(&justfile, &requested).unwrap_err();
    assert_eq!(error.span, Some(just::diagnostic::Span { line: 3, column: 3, length: 1 }));
    assert_eq!(error.code, 255);
    let justfile = parse(&tokenize("a: b\nb:  z y").unwrap()).unwrap();
    let error = plan(&justfile, &vec![]).unwrap_err();
    assert_eq!(error.message, "recipe `b` has unknown dependency `z`");
    assert_eq!(error.span, Some(just::diagnostic::Span { line: 1, column: 4, length: 1 }));
}

#[test]
fn plan_lists_unknown_recipes() {
    assert_eq!(
        order("a:", &["x", "a", "y", "z"]).unwrap_err(),
        "Justfile does not contain recipes `x`, `y`, or `z`."
    );
}
