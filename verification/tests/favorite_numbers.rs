use recursive_regex::from_regex_tree_and_str;
use recursive_regex::value::{Request, Value};
use recursive_regex::RegexTree;

fn person(name: &str, numbers: &[i64]) -> Value {
    Value::Record(vec![
        ("name".to_string(), Value::Text(name.to_string())),
        (
            "favorite_numbers".to_string(),
            Value::List(numbers.iter().map(|n| Value::Int(*n)).collect()),
        ),
    ])
}

#[test]
fn favorite_numbers_main() {
    let file = "Lina's favorite number is 2
Selah's favorite numbers are 3, 6, 8, and 12
Aili's favorite numbers are 1, 4, 10, and 13
Gemma's favorite numbers are 9, 10, 11, and 14
Genoveva's favorite numbers are 2, 10, 11, 13, and 15
Eryk's favorite number is 6
Alpheus's favorite numbers are 1, 6, 12, and 19
Sven's favorite numbers are 1 and 5
Annabella's favorite numbers are 2, 6, and 14";

    let regex_subtree = RegexTree::leaf("\\d+").unwrap();
    let regex_tree =
        RegexTree::root("(?P<name>.*)'s favorite numbers? (?:is|are) (?P<favorite_numbers>.*)")
            .unwrap()
            .with_child("favorite_numbers", regex_subtree)
            .build();

    let request = Request::List(Box::new(Request::Record(vec![
        ("name".to_string(), Request::Text),
        (
            "favorite_numbers".to_string(),
            Request::List(Box::new(Request::Int)),
        ),
    ])));

    let people = from_regex_tree_and_str(&regex_tree, file, &request).unwrap();

    let expected_people = Value::List(vec![
        person("Lina", &[2]),
        person("Selah", &[3, 6, 8, 12]),
        person("Aili", &[1, 4, 10, 13]),
        person("Gemma", &[9, 10, 11, 14]),
        person("Genoveva", &[2, 10, 11, 13, 15]),
        person("Eryk", &[6]),
        person("Alpheus", &[1, 6, 12, 19]),
        person("Sven", &[1, 5]),
        person("Annabella", &[2, 6, 14]),
    ]);
    assert_eq!(expected_people, people);
}
