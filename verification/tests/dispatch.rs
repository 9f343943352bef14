use guzzle::attr::{FieldAttribute, GuzzleAttribute, GuzzleKeyedAttribute, Keys};
use guzzle::dispatch::{guzzle_all, Empty, Guzzle, KVPredicates, YummyMetadata};
use guzzle::record::{Record, Slot, Value};
use std::collections::HashMap;

type Converter = fn(String) -> u64;
type Tester = Record<u64, Converter, Empty>;

fn keyed(name: &str, keys: &[&str]) -> FieldAttribute {
    FieldAttribute {
        field: name.to_string(),
        attributes: Some(GuzzleAttribute::KeyedAttribute(GuzzleKeyedAttribute {
            keys: Keys(keys.iter().map(|key| key.to_string()).collect()),
            parser: None,
        })),
    }
}

/// A record with the text fields `one` and `two`, each keyed by its name.
fn tester() -> Tester {
    let mut record = Record::new();
    record.push(Slot::new(keyed("one", &["one"]), None, Value::Text(String::new())).unwrap());
    record.push(Slot::new(keyed("two", &["two"]), None, Value::Text(String::new())).unwrap());
    record
}

fn text<N: Guzzle>(record: &Record<u64, Converter, N>, name: &str) -> String {
    match record.get(name) {
        Some(Value::Text(text)) => text.clone(),
        _ => panic!("no text field of this name"),
    }
}

#[test]
fn guzzle_with_vec_string_string() {
    let test_data = vec![
        ("one".to_string(), "1".to_string()),
        ("two".to_string(), "2".to_string()),
        ("three".to_string(), "3".to_string()),
    ];

    let mut tester = tester();

    let remaining_data: Vec<(String, String)> = test_data
        .into_iter()
        .filter_map(|v| tester.guzzle(v))
        .collect();

    assert_eq!(text(&tester, "one"), "1".to_string());
    assert_eq!(text(&tester, "two"), "2".to_string());

    assert_eq!(remaining_data.len(), 1);
    assert_eq!(
        remaining_data.into_iter().next(),
        Some(("three".to_string(), "3".to_string()))
    );
}

#[test]
fn guzzle_with_vec_str_string() {
    let test_data = vec![
        ("one", "1".to_string()),
        ("two", "2".to_string()),
        ("three", "3".to_string()),
    ];

    let mut tester = tester();

    let remaining_data: Vec<(&str, String)> = test_data
        .into_iter()
        .filter_map(|v| tester.guzzle(v))
        .collect();

    assert_eq!(text(&tester, "one"), "1".to_string());
    assert_eq!(text(&tester, "two"), "2".to_string());

    assert_eq!(remaining_data.len(), 1);
    assert_eq!(
        remaining_data.into_iter().next(),
        Some(("three", "3".to_string()))
    );
}

#[test]
fn guzzle_with_hash_str_string() {
    let test_data: HashMap<String, String> = vec![
        ("one".to_string(), "1".to_string()),
        ("two".to_string(), "2".to_string()),
        ("three".to_string(), "3".to_string()),
    ]
    .into_iter()
    .collect();

    let mut tester = tester();

    let remaining_data: Vec<(String, String)> = test_data
        .into_iter()
        .filter_map(|v| tester.guzzle(v))
        .collect();

    assert_eq!(text(&tester, "one"), "1".to_string());
    assert_eq!(text(&tester, "two"), "2".to_string());

    assert_eq!(remaining_data.len(), 1);
    assert_eq!(
        remaining_data.into_iter().next(),
        Some(("three".to_string(), "3".to_string()))
    );
}

#[test]
fn eat_yummy_metadata_with_vec_string_string() {
    let test_data = vec![
        ("one".to_string(), "1".to_string()),
        ("two".to_string(), "2".to_string()),
        ("three".to_string(), "3".to_string()),
    ];

    let mut tester = tester();

    let remaining_data: Vec<(String, String)> = test_data
        .into_iter()
        .filter_map(|v| tester.eat_yummy_metadata(v))
        .collect();

    assert_eq!(text(&tester, "one"), "1".to_string());
    assert_eq!(text(&tester, "two"), "2".to_string());

    assert_eq!(remaining_data.len(), 1);
    assert_eq!(
        remaining_data.into_iter().next(),
        Some(("three".to_string(), "3".to_string()))
    );
}

#[test]
fn eat_yummy_metadata_with_vec_str_string() {
    let test_data = vec![
        ("one", "1".to_string()),
        ("two", "2".to_string()),
        ("three", "3".to_string()),
    ];

    let mut tester = tester();

    let remaining_data: Vec<(&str, String)> = test_data
        .into_iter()
        .filter_map(|v| tester.eat_yummy_metadata(v))
        .collect();

    assert_eq!(text(&tester, "one"), "1".to_string());
    assert_eq!(text(&tester, "two"), "2".to_string());

    assert_eq!(remaining_data.len(), 1);
    assert_eq!(
        remaining_data.into_iter().next(),
        Some(("three", "3".to_string()))
    );
}

#[test]
fn eat_yummy_metadata_with_hash_str_string() {
    let test_data: HashMap<String, String> = vec![
        ("one".to_string(), "1".to_string()),
        ("two".to_string(), "2".to_string()),
        ("three".to_string(), "3".to_string()),
    ]
    .into_iter()
    .collect();

    let mut tester = tester();

    let remaining_data: Vec<(String, String)> = test_data
        .into_iter()
        .filter_map(|v| tester.eat_yummy_metadata(v))
        .collect();

    assert_eq!(text(&tester, "one"), "1".to_string());
    assert_eq!(text(&tester, "two"), "2".to_string());

    assert_eq!(remaining_data.len(), 1);
    assert_eq!(
        remaining_data.into_iter().next(),
        Some(("three".to_string(), "3".to_string()))
    );
}

#[test]
fn filter_map_predicate_with_vec_string_string() {
    let test_data = vec![
        ("one".to_string(), "1".to_string()),
        ("two".to_string(), "2".to_string()),
        ("three".to_string(), "3".to_string()),
    ];

    let mut tester = tester();

    let remaining_data: Vec<(String, String)> = test_data
        .into_iter()
        .filter_map(|v| tester.filter_map_predicate(v))
        .collect();

    assert_eq!(text(&tester, "one"), "1".to_string());
    assert_eq!(text(&tester, "two"), "2".to_string());

    assert_eq!(remaining_data.len(), 1);
    assert_eq!(
        remaining_data.into_iter().next(),
        Some(("three".to_string(), "3".to_string()))
    );
}

#[test]
fn filter_map_predicate_with_vec_str_string() {
    let test_data = vec![
        ("one", "1".to_string()),
        ("two", "2".to_string()),
        ("three", "3".to_string()),
    ];

    let mut tester = tester();

    let remaining_data: Vec<(&str, String)> = test_data
        .into_iter()
        .filter_map(|v| tester.filter_map_predicate(v))
        .collect();

    assert_eq!(text(&tester, "one"), "1".to_string());
    assert_eq!(text(&tester, "two"), "2".to_string());

    assert_eq!(remaining_data.len(), 1);
    assert_eq!(
        remaining_data.into_iter().next(),
        Some(("three", "3".to_string()))
    );
}

#[test]
fn filter_map_predicate_with_hash_str_string() {
    let test_data: HashMap<String, String> = vec![
        ("one".to_string(), "1".to_string()),
        ("two".to_string(), "2".to_string()),
        ("three".to_string(), "3".to_string()),
    ]
    .into_iter()
    .collect();

    let mut tester = tester();

    let remaining_data: Vec<(String, String)> = test_data
        .into_iter()
        .filter_map(|v| tester.filter_map_predicate(v))
        .collect();

    assert_eq!(text(&tester, "one"), "1".to_string());
    assert_eq!(text(&tester, "two"), "2".to_string());

    assert_eq!(remaining_data.len(), 1);
    assert_eq!(
        remaining_data.into_iter().next(),
        Some(("three".to_string(), "3".to_string()))
    );
}

#[test]
fn empty_record_takes_nothing() {
    let mut empty = Empty;
    assert_eq!(empty.guzzle(("any", "1".to_string())), Some(("any", "1".to_string())));
    let mut record: Tester = Record::new();
    assert_eq!(record.guzzle(("one", "1".to_string())), Some(("one", "1".to_string())));
    assert_eq!(record.get("one"), None);
}

#[test]
fn repeated_key_is_assigned_again() {
    let mut tester = tester();
    assert_eq!(tester.guzzle(("one", "first".to_string())), None);
    assert_eq!(text(&tester, "one"), "first");
    assert_eq!(tester.guzzle(("one", "second".to_string())), None);
    assert_eq!(text(&tester, "one"), "second");
    assert_eq!(text(&tester, "two"), "");
}

#[test]
fn overlapping_key_goes_to_the_first_field() {
    let mut record: Tester = Record::new();
    record.push(Slot::new(keyed("a", &["dup"]), None, Value::Text(String::new())).unwrap());
    record.push(Slot::new(keyed("b", &["dup", "b"]), None, Value::Text(String::new())).unwrap());
    assert_eq!(record.guzzle(("dup", "v".to_string())), None);
    assert_eq!(text(&record, "a"), "v");
    assert_eq!(text(&record, "b"), "");
    assert_eq!(record.guzzle(("b", "w".to_string())), None);
    assert_eq!(text(&record, "a"), "v");
    assert_eq!(text(&record, "b"), "w");
}

#[test]
fn every_listed_key_reaches_the_field() {
    for key in ["k1", "k2", "k3"] {
        let mut record: Tester = Record::new();
        record.push(
            Slot::new(keyed("listed", &["k1", "k2", "k3"]), None, Value::Text(String::new()))
                .unwrap(),
        );
        assert_eq!(record.guzzle((key, key.to_uppercase())), None);
        assert_eq!(text(&record, "listed"), key.to_uppercase());
    }
    let mut record: Tester = Record::new();
    record.push(
        Slot::new(keyed("listed", &["k1", "k2", "k3"]), None, Value::Text(String::new())).unwrap(),
    );
    // The field's own name is no key once keys are listed.
    assert_eq!(record.guzzle(("listed", "x".to_string())), Some(("listed", "x".to_string())));
}

#[test]
fn excluded_field_is_never_assigned() {
    let mut record: Tester = Record::new();
    let excluded = FieldAttribute { field: "ignored".to_string(), attributes: None };
    record.push(Slot::new(excluded, None, Value::Text("kept".to_string())).unwrap());
    record.push(Slot::new(keyed("basic", &["basic"]), None, Value::Text(String::new())).unwrap());
    assert_eq!(
        record.guzzle(("ignored", "data".to_string())),
        Some(("ignored", "data".to_string()))
    );
    assert_eq!(record.guzzle(("basic", "x".to_string())), None);
    assert_eq!(text(&record, "ignored"), "kept");
    assert_eq!(text(&record, "basic"), "x");
}

fn double(text: String) -> u64 {
    2 * text.parse::<u64>().unwrap()
}

fn with_parser(name: &str, keys: &[&str], parser: &str) -> FieldAttribute {
    FieldAttribute {
        field: name.to_string(),
        attributes: Some(GuzzleAttribute::KeyedAttribute(GuzzleKeyedAttribute {
            keys: Keys(keys.iter().map(|key| key.to_string()).collect()),
            parser: Some(parser.to_string()),
        })),
    }
}

#[test]
fn value_goes_through_the_converter() {
    let mut record: Tester = Record::new();
    record.push(
        Slot::new(with_parser("n", &["n"], "double"), Some(double as Converter), Value::Parsed(0))
            .unwrap(),
    );
    assert_eq!(record.guzzle(("n", "21".to_string())), None);
    assert_eq!(record.get("n"), Some(&Value::Parsed(42)));
}

#[test]
fn slot_kinds_must_fit() {
    // A parser is named but no converter is given.
    assert!(Slot::<u64, Converter, Empty>::new(
        with_parser("n", &["n"], "double"),
        None,
        Value::Parsed(0)
    )
    .is_none());
    // A converter is given but the field holds a text.
    assert!(Slot::<u64, Converter, Empty>::new(
        with_parser("n", &["n"], "double"),
        Some(double as Converter),
        Value::Text(String::new())
    )
    .is_none());
    // No parser is named but a converter is given.
    assert!(Slot::<u64, Converter, Empty>::new(
        keyed("n", &["n"]),
        Some(double as Converter),
        Value::Text(String::new())
    )
    .is_none());
    // A recursive field must hold a nested record.
    let recursive = FieldAttribute {
        field: "inner".to_string(),
        attributes: Some(GuzzleAttribute::RecurseAttribute("inner".to_string())),
    };
    assert!(
        Slot::<u64, Converter, Empty>::new(recursive.clone(), None, Value::Parsed(1)).is_none()
    );
    assert!(Slot::<u64, Converter, Empty>::new(recursive, None, Value::Nested(Empty)).is_some());
    // A recursive field must name itself.
    let misnamed = FieldAttribute {
        field: "a".to_string(),
        attributes: Some(GuzzleAttribute::RecurseAttribute("b".to_string())),
    };
    assert!(Slot::<u64, Converter, Empty>::new(misnamed, None, Value::Nested(Empty)).is_none());
}

type Outer = Record<u64, Converter, Tester>;

fn outer() -> Outer {
    let recursive = |name: &str| FieldAttribute {
        field: name.to_string(),
        attributes: Some(GuzzleAttribute::RecurseAttribute(name.to_string())),
    };
    let mut first: Tester = Record::new();
    first.push(Slot::new(keyed("x", &["x", "shared"]), None, Value::Text(String::new())).unwrap());
    let mut second: Tester = Record::new();
    second.push(Slot::new(keyed("y", &["y", "x"]), None, Value::Text(String::new())).unwrap());
    let mut record: Outer = Record::new();
    record.push(
        Slot::new(keyed("own", &["own", "shared"]), None, Value::Text(String::new())).unwrap(),
    );
    record.push(Slot::new(recursive("first"), None, Value::Nested(first)).unwrap());
    record.push(Slot::new(recursive("second"), None, Value::Nested(second)).unwrap());
    record
}

fn nested_text(record: &Outer, nested: &str, name: &str) -> String {
    match record.get(nested) {
        Some(Value::Nested(inner)) => text(inner, name),
        _ => panic!("no nested record of this name"),
    }
}

#[test]
fn nested_record_is_asked_before_the_keys() {
    let mut record = outer();
    // `shared` is a key of the record itself and of its first nested record.
    assert_eq!(record.guzzle(("shared", "s".to_string())), None);
    assert_eq!(nested_text(&record, "first", "x"), "s");
    assert_eq!(text(&record, "own"), "");
    assert_eq!(record.guzzle(("own", "o".to_string())), None);
    assert_eq!(text(&record, "own"), "o");
}

#[test]
fn first_nested_record_that_takes_the_pair_ends_the_call() {
    let mut record = outer();
    assert_eq!(record.guzzle(("x", "1".to_string())), None);
    assert_eq!(nested_text(&record, "first", "x"), "1");
    assert_eq!(nested_text(&record, "second", "y"), "");
    assert_eq!(record.guzzle(("y", "2".to_string())), None);
    assert_eq!(nested_text(&record, "first", "x"), "1");
    assert_eq!(nested_text(&record, "second", "y"), "2");
    assert_eq!(record.guzzle(("z", "3".to_string())), Some(("z", "3".to_string())));
}

#[test]
fn guzzle_all_returns_the_pairs_that_matched_nothing() {
    let mut record = outer();
    let pairs = vec![
        ("zzz", "q".to_string()),
        ("x", "1".to_string()),
        ("zzz", "q".to_string()),
        ("own", "2".to_string()),
        ("other", "3".to_string()),
        ("x", "4".to_string()),
    ];
    let rest = guzzle_all(&mut record, pairs);
    assert_eq!(
        rest,
        vec![("zzz", "q".to_string()), ("zzz", "q".to_string()), ("other", "3".to_string())]
    );
    assert_eq!(nested_text(&record, "first", "x"), "4");
    assert_eq!(text(&record, "own"), "2");
    let nothing: Vec<(String, String)> = guzzle_all(&mut record, vec![]);
    assert!(nothing.is_empty());
}

#[test]
fn position_finds_the_first_field_of_a_name() {
    let record = outer();
    assert_eq!(record.position("own"), Some(0));
    assert_eq!(record.position("first"), Some(1));
    assert_eq!(record.position("second"), Some(2));
    assert_eq!(record.position("x"), None);
}

#[test]
fn a_pair_that_is_not_taken_changes_nothing() {
    let mut tester = tester();
    assert_eq!(tester.guzzle(("three", "3".to_string())), Some(("three", "3".to_string())));
    assert_eq!(tester.position("one"), Some(0));
    assert_eq!(tester.position("two"), Some(1));
    assert_eq!(tester.guzzle(("two", "2".to_string())), None);
    assert_eq!(tester.guzzle(("one", "1".to_string())), None);
    assert_eq!(text(&tester, "one"), "1");
    assert_eq!(text(&tester, "two"), "2");

    let mut record = outer();
    assert_eq!(record.guzzle(("z", "0".to_string())), Some(("z", "0".to_string())));
    assert_eq!(record.guzzle(("y", "2".to_string())), None);
    assert_eq!(record.guzzle(("shared", "s".to_string())), None);
    assert_eq!(nested_text(&record, "second", "y"), "2");
    assert_eq!(nested_text(&record, "first", "x"), "s");
    assert_eq!(text(&record, "own"), "");
}
