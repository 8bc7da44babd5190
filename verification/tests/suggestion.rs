use just::lexer::tokenize;
use just::parser::parse;
use just::suggestion::{distance, suggest};

fn apart(a: &str, b: &str) -> u128 {
    distance(&a.chars().collect(), &b.chars().collect())
}

fn meant(source: &str, given: &str) -> Option<String> {
    suggest(&parse(&tokenize(source).unwrap()).unwrap().recipes, &given.to_string())
}

#[test]
fn distance_counts_changes() {
    assert_eq!(apart("", ""), 0);
    assert_eq!(apart("", "abc"), 3);
    assert_eq!(apart("abc", ""), 3);
    assert_eq!(apart("hello", "hello"), 0);
    assert_eq!(apart("hello", "hell"), 1);
    assert_eq!(apart("hell", "hello"), 1);
    assert_eq!(apart("kitten", "sitting"), 3);
    assert_eq!(apart("flaw", "lawn"), 2);
    assert_eq!(apart("helloooooo", "hell"), 6);
    assert_eq!(apart("\u{9396}b", "\u{9f2c}b"), 1);
}

#[test]
fn suggest_takes_the_nearest_name() {
    assert_eq!(meant("hello:\na:\n", "hell"), Some("hello".to_string()));
    assert_eq!(meant("helloooooo:\na:\n", "hell"), None);
    assert_eq!(meant("", "hell"), None);
    assert_eq!(meant("build:\nbuilt:\nbuilds:\n", "buil"), Some("build".to_string()));
    assert_eq!(meant("zz:\nbuilds:\nbuilt:\n", "build"), Some("builds".to_string()));
    assert_eq!(meant("abcd:\nabc:\n", "ab"), Some("abc".to_string()));
    assert_eq!(meant("abcde:\n", "ab"), None);
    assert_eq!(meant("abcd:\n", "ab"), Some("abcd".to_string()));
}
