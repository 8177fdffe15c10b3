use recursive_regex::value::{Error, Request, Value};
use recursive_regex::{from_regex_tree_and_str, get_uncaptured, RegexTree, Spanned, StrDeserializer};

fn favorite_tree() -> RegexTree {
    RegexTree::root("(?P<name>.*)'s favorite numbers? (?:is|are) (?P<favorite_numbers>.*)")
        .unwrap()
        .with_child("favorite_numbers", RegexTree::leaf("\\d+").unwrap())
        .build()
}

#[test]
fn single_record_with_numbers() {
    let text = "Selah's favorite numbers are 3, 6, 8, and 12";
    let request = Request::Record(vec![
        ("name".to_string(), Request::Text),
        (
            "favorite_numbers".to_string(),
            Request::List(Box::new(Request::Int)),
        ),
    ]);
    let value = from_regex_tree_and_str(&favorite_tree(), text, &request).unwrap();
    let expected = Value::Record(vec![
        ("name".to_string(), Value::Text("Selah".to_string())),
        (
            "favorite_numbers".to_string(),
            Value::List(vec![
                Value::Int(3),
                Value::Int(6),
                Value::Int(8),
                Value::Int(12),
            ]),
        ),
    ]);
    assert_eq!(value, expected);
}

#[test]
fn field_without_child_is_verbatim() {
    let text = "Selah's favorite numbers are 3, 6, 8, and 12";
    let tree = RegexTree::root(
        "(?P<name>.*)'s favorite numbers? (?:is|are) (?P<favorite_numbers>.*)",
    )
    .unwrap()
    .build();
    let request = Request::Record(vec![
        ("name".to_string(), Request::Text),
        ("favorite_numbers".to_string(), Request::Text),
    ]);
    let value = from_regex_tree_and_str(&tree, text, &request).unwrap();
    let expected = Value::Record(vec![
        ("name".to_string(), Value::Text("Selah".to_string())),
        (
            "favorite_numbers".to_string(),
            Value::Text("3, 6, 8, and 12".to_string()),
        ),
    ]);
    assert_eq!(value, expected);
}

#[test]
fn sequence_of_numbers() {
    let tree = RegexTree::leaf(r"\d+").unwrap();
    let request = Request::List(Box::new(Request::Int));
    let value = from_regex_tree_and_str(&tree, "1 2 456", &request).unwrap();
    assert_eq!(
        value,
        Value::List(vec![Value::Int(1), Value::Int(2), Value::Int(456)])
    );
}

#[test]
fn span_wrapped_field() {
    let tree = RegexTree::root("Title: (?P<title>.*)").unwrap().build();
    let request = Request::Record(vec![(
        "title".to_string(),
        Request::Span(Box::new(Request::Text)),
    )]);
    let value = from_regex_tree_and_str(&tree, "Title: Hamilton", &request).unwrap();
    let expected = Value::Record(vec![(
        "title".to_string(),
        Value::Span(Spanned::new_raw(
            Box::new(Value::Text("Hamilton".to_string())),
            7,
            15,
        )),
    )]);
    assert_eq!(value, expected);
}

#[test]
fn no_match_is_an_error_unless_optional() {
    let tree = RegexTree::leaf("x").unwrap();
    let record = Request::Record(vec![]);
    assert_eq!(
        from_regex_tree_and_str(&tree, "abc", &record),
        Err(Error::NoMatch)
    );
    let optional = Request::Optional(Box::new(Request::Unit));
    assert_eq!(
        from_regex_tree_and_str(&tree, "abc", &optional),
        Ok(Value::Absent)
    );
    let present = from_regex_tree_and_str(&tree, "axc", &optional);
    assert_eq!(present, Ok(Value::Present(Box::new(Value::Unit))));
}

#[test]
fn extraction_is_idempotent() {
    let text = "Lina's favorite number is 2\nSven's favorite numbers are 1 and 5";
    let tree = favorite_tree();
    let request = Request::List(Box::new(Request::Record(vec![
        ("name".to_string(), Request::Text),
        (
            "favorite_numbers".to_string(),
            Request::List(Box::new(Request::Int)),
        ),
    ])));
    let first = from_regex_tree_and_str(&tree, text, &request).unwrap();
    let second = from_regex_tree_and_str(&tree, text, &request).unwrap();
    assert_eq!(first, second);
}

#[test]
fn gaps_and_matches_reconstruct_text() {
    let text = "a1b22c333";
    let tree = RegexTree::leaf(r"\d+").unwrap();
    let gaps = get_uncaptured(&tree, text);
    assert_eq!(gaps, vec!["a", "b", "c"]);
    let matches = from_regex_tree_and_str(&tree, text, &Request::List(Box::new(Request::Text)))
        .unwrap();
    let matched: Vec<String> = match matches {
        Value::List(vs) => vs
            .into_iter()
            .map(|v| match v {
                Value::Text(s) => s,
                other => panic!("expected text, got {:?}", other),
            })
            .collect(),
        other => panic!("expected a list, got {:?}", other),
    };
    let rebuilt = format!(
        "{}{}{}{}{}{}",
        gaps[0], matched[0], gaps[1], matched[1], gaps[2], matched[2]
    );
    assert_eq!(rebuilt, text);
}

#[test]
fn uncaptured_with_leading_and_trailing_text() {
    let tree = RegexTree::leaf(r"\d+").unwrap();
    assert_eq!(get_uncaptured(&tree, "x17y2z"), vec!["x", "y", "z"]);
    assert_eq!(get_uncaptured(&tree, "17"), Vec::<String>::new());
    assert_eq!(get_uncaptured(&tree, "abc"), vec!["abc"]);
}

#[test]
fn uncaptured_by_one_match() {
    let tree = RegexTree::leaf(r"(\d)(x)?").unwrap();
    let caps = tree.captures("a5b").unwrap();
    let gaps = recursive_regex::uncaptured::get_uncaptured_by_one("a5b", &caps);
    assert_eq!(gaps, vec!["a", "b"]);
}

#[test]
fn pattern_error_at_construction() {
    match RegexTree::leaf("(") {
        Err(Error::Pattern { message }) => assert!(!message.is_empty()),
        Err(other) => panic!("expected a pattern error, got {:?}", other),
        Ok(_) => panic!("expected a pattern error, got a tree"),
    }
    assert!(RegexTree::root("[z-a]").is_err());
}

#[test]
fn coercion_failure_propagates() {
    let tree = RegexTree::leaf("[a-z]+").unwrap();
    let request = Request::List(Box::new(Request::Int));
    match from_regex_tree_and_str(&tree, "abc", &request) {
        Err(Error::Parse { text, .. }) => assert_eq!(text, "abc"),
        other => panic!("expected a parse error, got {:?}", other),
    }
}

#[test]
fn later_child_shadows_earlier() {
    let tree = RegexTree::root("(?P<v>.+)")
        .unwrap()
        .with_child("v", RegexTree::leaf(r"\d").unwrap())
        .with_child("v", RegexTree::leaf(r"\d\d").unwrap())
        .build();
    let request = Request::Record(vec![(
        "v".to_string(),
        Request::List(Box::new(Request::Text)),
    )]);
    let value = from_regex_tree_and_str(&tree, "1234", &request).unwrap();
    let expected = Value::Record(vec![(
        "v".to_string(),
        Value::List(vec![
            Value::Text("12".to_string()),
            Value::Text("34".to_string()),
        ]),
    )]);
    assert_eq!(value, expected);
}

#[test]
fn positional_emission_skips_whole_match() {
    let tree = RegexTree::leaf(r"(\d+)-(\d+)").unwrap();
    let request = Request::Record(vec![]);
    // A record of a match with only unnamed groups has no entries.
    let value = from_regex_tree_and_str(&tree, "3-7", &request).unwrap();
    assert_eq!(value, Value::Record(vec![]));
    // Positionally, the two inner groups are the elements; group 0 is not.
    let des = StrDeserializer::from_regex_tree_and_str(&tree, "3-7");
    let value = des.deserialize(&Request::List(Box::new(Request::List(Box::new(Request::Int)))));
    assert_eq!(
        value,
        Ok(Value::List(vec![Value::List(vec![
            Value::Int(3),
            Value::Int(7)
        ])]))
    );
}

#[test]
fn spanned_accessors() {
    let s = Spanned::new_raw("v".to_string(), 3, 9);
    assert_eq!(s.begin(), 3);
    assert_eq!(s.end(), 9);
    assert_eq!(s.value(), &"v".to_string());
    assert_eq!(s.into_inner(), "v".to_string());
}

#[test]
fn unknown_emitted_group_is_kept_as_text() {
    let tree = RegexTree::root("(?P<a>.) (?P<b>.)").unwrap().build();
    let request = Request::Record(vec![("a".to_string(), Request::Char)]);
    let value = from_regex_tree_and_str(&tree, "x y", &request).unwrap();
    let expected = Value::Record(vec![
        ("a".to_string(), Value::Char('x')),
        ("b".to_string(), Value::Text("y".to_string())),
    ]);
    assert_eq!(value, expected);
}

#[test]
fn spans_use_byte_offsets_in_multibyte_text() {
    let tree = RegexTree::root("Namn: (?P<n>.*)").unwrap().build();
    let request = Request::Record(vec![(
        "n".to_string(),
        Request::Span(Box::new(Request::Text)),
    )]);
    let value = from_regex_tree_and_str(&tree, "Namn: Åsa", &request).unwrap();
    let expected = Value::Record(vec![(
        "n".to_string(),
        Value::Span(Spanned::new_raw(
            Box::new(Value::Text("Åsa".to_string())),
            6,
            10,
        )),
    )]);
    assert_eq!(value, expected);

    let digits = RegexTree::leaf(r"\d+").unwrap();
    assert_eq!(get_uncaptured(&digits, "å7ö"), vec!["å", "ö"]);
}

#[test]
fn bytes_and_bool_fields() {
    let tree = RegexTree::root("(?P<flag>\\w+) (?P<raw>\\w+)").unwrap().build();
    let request = Request::Record(vec![
        ("flag".to_string(), Request::Bool),
        ("raw".to_string(), Request::Bytes),
    ]);
    let value = from_regex_tree_and_str(&tree, "YES abc", &request).unwrap();
    let expected = Value::Record(vec![
        ("flag".to_string(), Value::Bool(true)),
        ("raw".to_string(), Value::Bytes(vec![b'a', b'b', b'c'])),
    ]);
    assert_eq!(value, expected);
}
