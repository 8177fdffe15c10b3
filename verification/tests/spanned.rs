use recursive_regex::from_regex_tree_and_str;
use recursive_regex::value::{Request, Value};
use recursive_regex::{RegexTree, Spanned};

fn spanned_text(s: &str, begin: usize, end: usize) -> Value {
    Value::Span(Spanned::new_raw(
        Box::new(Value::Text(s.to_string())),
        begin,
        end,
    ))
}

fn spanned_uint(n: u64, begin: usize, end: usize) -> Value {
    Value::Span(Spanned::new_raw(Box::new(Value::UInt(n)), begin, end))
}

fn play(title: Value, year: Value, tags: Vec<Value>) -> Value {
    Value::Record(vec![
        ("title".to_string(), title),
        ("year".to_string(), year),
        ("tags".to_string(), Value::List(tags)),
    ])
}

#[test]
fn spanned_main() {
    let file = "Title: Romeo and Juliet
Year: 1597
Tags: tragedy

This text is unrelated.

Title: Hamilton
Year: 2015
Tags: musical, historical";

    let regex_tree =
        RegexTree::root(r"Title: (?P<title>.*)\nYear: (?P<year>.*)\nTags: (?P<tags>.*)(?:\n|$)")
            .unwrap()
            .with_child("tags", RegexTree::leaf(r"[a-z]+").unwrap())
            .build();

    let request = Request::List(Box::new(Request::Record(vec![
        ("title".to_string(), Request::Span(Box::new(Request::Text))),
        ("year".to_string(), Request::Span(Box::new(Request::UInt))),
        (
            "tags".to_string(),
            Request::List(Box::new(Request::Span(Box::new(Request::Text)))),
        ),
    ])));

    let plays = from_regex_tree_and_str(&regex_tree, file, &request).unwrap();

    let expected = Value::List(vec![
        play(
            spanned_text("Romeo and Juliet", 7, 23),
            spanned_uint(1597, 30, 34),
            vec![spanned_text("tragedy", 41, 48)],
        ),
        play(
            spanned_text("Hamilton", 82, 90),
            spanned_uint(2015, 97, 101),
            vec![
                spanned_text("musical", 108, 115),
                spanned_text("historical", 117, 127),
            ],
        ),
    ]);

    assert_eq!(expected, plays);
}
