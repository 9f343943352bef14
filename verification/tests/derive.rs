use guzzle::attr::{
    AttrError, Attribute, Field, FieldAttribute, GuzzleAttribute, GuzzleKeyedAttribute, Keys,
};
use guzzle::derive::{
    fields_to_attributes, handle_errors, impl_guzzle, impl_guzzle_named_fields, tables, Arm,
    CompileError, Data, DeriveInput, Expansion, FieldError, Fields, FieldsNamed, GuzzleImpl,
};
use guzzle::dispatch::{Empty, Guzzle, KVPredicates, YummyMetadata};
use guzzle::kv::{field_to_type_and_ident, impl_kv_predicates};
use guzzle::record::{Record, Slot, Value};
use guzzle::token::{Delimiter, Spacing, TokenTree};
use guzzle::yummy::{
    get_key_and_field, get_yummy_meta, impl_yummy_metadata, impl_yummy_metadata_named_fields,
    names_from_meta, only_string_literals, MetaList, YummyAttribute,
};

fn ident(name: &str) -> TokenTree {
    TokenTree::Ident(name.to_string())
}

fn punct(c: char) -> TokenTree {
    TokenTree::Punct(c, Spacing::Alone)
}

fn lit(text: &str) -> TokenTree {
    TokenTree::literal(text.to_string())
}

fn parens(inner: Vec<TokenTree>) -> TokenTree {
    TokenTree::Group(Delimiter::Parenthesis, inner)
}

fn string_list(keys: &[&str]) -> Vec<TokenTree> {
    let mut inner = Vec::new();
    for (i, key) in keys.iter().enumerate() {
        if i > 0 {
            inner.push(punct(','));
        }
        inner.push(lit(&format!("\"{}\"", key)));
    }
    inner
}

fn keys_entry(keys: &[&str]) -> Vec<TokenTree> {
    vec![ident("keys"), punct('='), TokenTree::Group(Delimiter::Bracket, string_list(keys))]
}

fn parser_entry(name: &str) -> Vec<TokenTree> {
    vec![ident("parser"), punct('='), ident(name)]
}

fn guzzle(entries: Vec<Vec<TokenTree>>) -> Attribute {
    let mut inner = Vec::new();
    for (i, entry) in entries.into_iter().enumerate() {
        if i > 0 {
            inner.push(punct(','));
        }
        inner.extend(entry);
    }
    Attribute { path: "guzzle".to_string(), tts: vec![parens(inner)] }
}

fn marker(path: &str) -> Attribute {
    Attribute { path: path.to_string(), tts: vec![] }
}

fn field(name: &str, ty: &str, attrs: Vec<Attribute>) -> Field {
    Field { ident: Some(name.to_string()), ty: ty.to_string(), attrs }
}

fn strukt(name: &str, named: Vec<Field>) -> DeriveInput {
    DeriveInput {
        ident: name.to_string(),
        data: Data::Struct(Fields::Named(FieldsNamed { named })),
    }
}

fn arm(key: &str, matcher: &str, parser: Option<&str>) -> Arm {
    Arm {
        key: key.to_string(),
        matcher: matcher.to_string(),
        parser: parser.map(|text| text.to_string()),
    }
}

#[derive(Debug, PartialEq)]
enum Parsed {
    Number(u64),
    Flag(bool),
}

type Converter = fn(String) -> Parsed;

fn u64_parser(s: String) -> Parsed {
    Parsed::Number(s.parse().unwrap())
}

fn bool_parser(s: String) -> Parsed {
    Parsed::Flag(s.parse().unwrap())
}

type Deep = Record<Parsed, Converter, Empty>;
type Example = Record<Parsed, Converter, Deep>;

fn type_that_also_implements_guzzle() -> DeriveInput {
    strukt(
        "TypeThatAlsoImplementsGuzzle",
        vec![field(
            "deeply_nested_data",
            "bool",
            vec![guzzle(vec![keys_entry(&["deep_data"]), parser_entry("bool_parser")])],
        )],
    )
}

fn guzzle_example(exclusion: &str) -> DeriveInput {
    strukt(
        "GuzzleExample",
        vec![
            field("ignored", "String", vec![marker(exclusion)]),
            field("basic", "String", vec![]),
            field("basic_too", "String", vec![marker("guzzle")]),
            field("listed_keys", "String", vec![guzzle(vec![keys_entry(&["one", "two"])])]),
            field("other_types", "u64", vec![guzzle(vec![parser_entry("u64_parser")])]),
            field(
                "other_types_with_listed_keys",
                "u64",
                vec![guzzle(vec![parser_entry("u64_parser"), keys_entry(&["three", "four"])])],
            ),
            field(
                "recurse_guzzle_to_populate_this_field",
                "TypeThatAlsoImplementsGuzzle",
                vec![marker("deep_guzzle")],
            ),
        ],
    )
}

fn named(ast: &DeriveInput) -> &FieldsNamed {
    match &ast.data {
        Data::Struct(Fields::Named(fields)) => fields,
        _ => panic!("not a struct with named fields"),
    }
}

/// The converter that a parser's name stands for.
fn converter(attribute: &FieldAttribute) -> Option<Converter> {
    match &attribute.attributes {
        Some(GuzzleAttribute::KeyedAttribute(keyed)) => match keyed.parser.as_deref() {
            Some("u64_parser") => Some(u64_parser as Converter),
            Some("bool_parser") => Some(bool_parser as Converter),
            Some(other) => panic!("no parser named {}", other),
            None => None,
        },
        _ => None,
    }
}

/// A record of the declaration, each field with the default of its type.
fn deep_default() -> Deep {
    let ast = type_that_also_implements_guzzle();
    let mut record = Record::new();
    for attribute in fields_to_attributes(named(&ast)).unwrap() {
        let parser = converter(&attribute);
        record.push(Slot::new(attribute, parser, Value::Parsed(Parsed::Flag(false))).unwrap());
    }
    record
}

fn example_default(exclusion: &str) -> Example {
    let ast = guzzle_example(exclusion);
    let mut record = Record::new();
    for (attribute, field) in
        fields_to_attributes(named(&ast)).unwrap().into_iter().zip(named(&ast).named.iter())
    {
        let parser = converter(&attribute);
        let value = match field.ty.as_str() {
            "String" => Value::Text(String::new()),
            "u64" => Value::Parsed(Parsed::Number(0)),
            _ => Value::Nested(deep_default()),
        };
        record.push(Slot::new(attribute, parser, value).unwrap());
    }
    record
}

fn text<N: Guzzle>(record: &Record<Parsed, Converter, N>, name: &str) -> String {
    match record.get(name) {
        Some(Value::Text(text)) => text.clone(),
        _ => panic!("no text field of this name"),
    }
}

fn number<N: Guzzle>(record: &Record<Parsed, Converter, N>, name: &str) -> u64 {
    match record.get(name) {
        Some(Value::Parsed(Parsed::Number(n))) => *n,
        _ => panic!("no number field of this name"),
    }
}

fn deeply_nested_data(record: &Example) -> bool {
    match record.get("recurse_guzzle_to_populate_this_field") {
        Some(Value::Nested(deep)) => match deep.get("deeply_nested_data") {
            Some(Value::Parsed(Parsed::Flag(flag))) => *flag,
            _ => panic!("no flag"),
        },
        _ => panic!("no nested record"),
    }
}

#[test]
fn everything() {
    let test_data: Vec<(&str, String)> = vec![
        ("basic", "basic info".to_string()),
        ("basic_too", "more basic info".to_string()),
        ("one", "1".to_string()),
        ("two", "2".to_string()),
        ("other_types", "20".to_string()),
        ("three", "3".to_string()),
        ("four", "4".to_string()),
        ("ignored", "ignored data".to_string()),
        ("deep_data", "true".to_string()),
    ];

    let mut guzzle_example = example_default("no_guzzle");

    // This just makes sure deeply_nested_data isn't accidentally set to true
    assert!(!deeply_nested_data(&guzzle_example));

    let remaining_data: Vec<(&str, String)> = test_data
        .into_iter()
        .filter_map(|v| guzzle_example.guzzle(v))
        .collect();

    // All appropriate fields are now set
    assert_eq!(text(&guzzle_example, "basic"), "basic info".to_string());
    assert_eq!(text(&guzzle_example, "basic_too"), "more basic info".to_string());
    assert_eq!(text(&guzzle_example, "listed_keys"), "2".to_string());
    assert_eq!(number(&guzzle_example, "other_types"), 20);
    assert_eq!(number(&guzzle_example, "other_types_with_listed_keys"), 4);

    // Including the deeply nested field
    assert!(deeply_nested_data(&guzzle_example));

    // Ignored data is left over
    assert!(text(&guzzle_example, "ignored").is_empty());
    assert_eq!(
        remaining_data,
        vec![("ignored", "ignored data".to_string())]
    );
}

#[test]
fn all_features() {
    let ast = guzzle_example("noguzzle");
    let expansion = impl_guzzle(&ast);
    assert_eq!(
        expansion,
        Expansion::Impl(GuzzleImpl {
            name: "GuzzleExample".to_string(),
            deep_guzzles: vec!["recurse_guzzle_to_populate_this_field".to_string()],
            arms: vec![
                arm("basic", "basic", None),
                arm("basic_too", "basic_too", None),
                arm("listed_keys", "one", None),
                arm("listed_keys", "two", None),
                arm("other_types", "other_types", Some("u64_parser")),
                arm("other_types_with_listed_keys", "three", Some("u64_parser")),
                arm("other_types_with_listed_keys", "four", Some("u64_parser")),
            ],
        })
    );
    let deep = type_that_also_implements_guzzle();
    assert_eq!(
        impl_guzzle_named_fields(&deep, named(&deep)),
        Expansion::Impl(GuzzleImpl {
            name: "TypeThatAlsoImplementsGuzzle".to_string(),
            deep_guzzles: vec![],
            arms: vec![arm("deeply_nested_data", "deep_data", Some("bool_parser"))],
        })
    );
}

#[test]
fn scenario_basic_listed_and_converted() {
    let ast = strukt(
        "Scenario",
        vec![
            field("basic", "String", vec![]),
            field("listed_keys", "String", vec![guzzle(vec![keys_entry(&["one", "two"])])]),
            field(
                "other_types",
                "u64",
                vec![guzzle(vec![keys_entry(&["other_types"]), parser_entry("u64_parser")])],
            ),
        ],
    );
    let mut record: Record<Parsed, Converter, Empty> = Record::new();
    for (attribute, field) in
        fields_to_attributes(named(&ast)).unwrap().into_iter().zip(named(&ast).named.iter())
    {
        let parser = converter(&attribute);
        let value = match field.ty.as_str() {
            "String" => Value::Text(String::new()),
            _ => Value::Parsed(Parsed::Number(0)),
        };
        record.push(Slot::new(attribute, parser, value).unwrap());
    }
    let input = vec![
        ("basic", "x".to_string()),
        ("one", "1".to_string()),
        ("other_types", "20".to_string()),
        ("zzz", "q".to_string()),
    ];
    let residual: Vec<(&str, String)> =
        input.into_iter().filter_map(|pair| record.guzzle(pair)).collect();
    assert_eq!(text(&record, "basic"), "x");
    assert_eq!(text(&record, "listed_keys"), "1");
    assert_eq!(number(&record, "other_types"), 20);
    assert_eq!(residual, vec![("zzz", "q".to_string())]);
}

#[test]
fn scenario_overlapping_key() {
    let ast = strukt(
        "Overlap",
        vec![
            field("a", "String", vec![guzzle(vec![keys_entry(&["dup"])])]),
            field("b", "String", vec![guzzle(vec![keys_entry(&["dup"])])]),
        ],
    );
    // The second line of the table is never reached; it is no error.
    assert_eq!(
        impl_guzzle(&ast),
        Expansion::Impl(GuzzleImpl {
            name: "Overlap".to_string(),
            deep_guzzles: vec![],
            arms: vec![arm("a", "dup", None), arm("b", "dup", None)],
        })
    );
    let mut record: Record<Parsed, Converter, Empty> = Record::new();
    for attribute in fields_to_attributes(named(&ast)).unwrap() {
        record.push(Slot::new(attribute, None, Value::Text(String::new())).unwrap());
    }
    assert_eq!(record.guzzle(("dup", "v".to_string())), None);
    assert_eq!(text(&record, "a"), "v");
    assert_eq!(text(&record, "b"), "");
}

#[test]
fn refused_annotations_come_back_together() {
    let ast = strukt(
        "Broken",
        vec![
            field("fine", "String", vec![]),
            field(
                "unknown",
                "String",
                vec![guzzle(vec![vec![ident("key"), punct('='), lit("\"a\"")]])],
            ),
            field("also_fine", "String", vec![marker("guzzle")]),
            field(
                "bare_keys",
                "String",
                vec![guzzle(vec![vec![
                    ident("keys"),
                    punct('='),
                    TokenTree::Group(
                        Delimiter::Bracket,
                        vec![ident("one"), punct(','), ident("two")],
                    ),
                ]])],
            ),
            field("no_value", "String", vec![guzzle(vec![vec![ident("keys")]])]),
        ],
    );
    let errors = fields_to_attributes(named(&ast)).unwrap_err();
    assert_eq!(
        errors,
        vec![
            FieldError { span: 1, error: AttrError::UnknownKey("key".to_string()) },
            FieldError { span: 3, error: AttrError::ExpectedStringLiteral },
            FieldError { span: 4, error: AttrError::NotKeyValue },
        ]
    );
    let messages = handle_errors(&errors);
    assert_eq!(
        messages,
        vec![
            CompileError { span: 1, message: "Unknown key: key".to_string() },
            CompileError { span: 3, message: "expected string literal".to_string() },
            CompileError {
                span: 4,
                message: "Attributes must be listed as `key = value`".to_string(),
            },
        ]
    );
    assert_eq!(impl_guzzle(&ast), Expansion::Errors(messages));
    assert!(handle_errors(&vec![]).is_empty());
}

#[test]
fn tables_of_no_fields() {
    let ast = strukt("Nothing", vec![]);
    assert_eq!(
        impl_guzzle(&ast),
        Expansion::Impl(GuzzleImpl {
            name: "Nothing".to_string(),
            deep_guzzles: vec![],
            arms: vec![],
        })
    );
    assert_eq!(fields_to_attributes(named(&ast)), Ok(vec![]));
}

#[test]
fn tables_keep_the_order_of_the_fields() {
    let recursive = |name: &str| FieldAttribute {
        field: name.to_string(),
        attributes: Some(GuzzleAttribute::RecurseAttribute(name.to_string())),
    };
    let keyed = |name: &str, keys: &[&str]| FieldAttribute {
        field: name.to_string(),
        attributes: Some(GuzzleAttribute::KeyedAttribute(GuzzleKeyedAttribute {
            keys: Keys(keys.iter().map(|key| key.to_string()).collect()),
            parser: None,
        })),
    };
    let attributes = vec![
        recursive("r1"),
        keyed("k1", &["b", "a"]),
        FieldAttribute { field: "x".to_string(), attributes: None },
        recursive("r2"),
        keyed("k2", &["c"]),
    ];
    let found = tables(&"T".to_string(), &attributes);
    assert_eq!(found.name, "T");
    assert_eq!(found.deep_guzzles, vec!["r1".to_string(), "r2".to_string()]);
    assert_eq!(
        found.arms,
        vec![arm("k1", "b", None), arm("k1", "a", None), arm("k2", "c", None)]
    );
}

fn predicate_tester() -> DeriveInput {
    strukt(
        "PredicateTester",
        vec![field("one", "String", vec![]), field("two", "String", vec![])],
    )
}

/// A record of text fields that have no parser.
fn record_of(attributes: Vec<FieldAttribute>) -> Record<Parsed, Converter, Empty> {
    let mut record = Record::new();
    for attribute in attributes {
        record.push(Slot::new(attribute, None, Value::Text(String::new())).unwrap());
    }
    record
}

fn yummy_record(ast: &DeriveInput) -> Record<Parsed, Converter, Empty> {
    record_of(
        named(ast)
            .named
            .iter()
            .map(|field| YummyAttribute::from(field).unwrap().keyed())
            .collect(),
    )
}

#[test]
fn it_works() {
    let table = impl_kv_predicates(&predicate_tester());
    assert_eq!(
        table,
        GuzzleImpl {
            name: "PredicateTester".to_string(),
            deep_guzzles: vec![],
            arms: vec![arm("one", "one", None), arm("two", "two", None)],
        }
    );

    let test_data = vec![
        ("one".to_string(), "1".to_string()),
        ("two".to_string(), "2".to_string()),
        ("three".to_string(), "3".to_string()),
    ];

    let by_name = |name: &str| FieldAttribute {
        field: name.to_string(),
        attributes: Some(GuzzleAttribute::KeyedAttribute(GuzzleKeyedAttribute {
            keys: Keys(vec![name.to_string()]),
            parser: None,
        })),
    };
    let mut tester = record_of(vec![by_name("one"), by_name("two")]);

    let remaining_data: Vec<(String, String)> = test_data
        .into_iter()
        .filter_map(|v| tester.filter_map_predicate(v))
        .collect();

    assert_eq!(text(&tester, "one"), "1".to_string());
    assert_eq!(text(&tester, "two"), "2".to_string());

    assert_eq!(remaining_data.len(), 1);
    assert_eq!(
        remaining_data.into_iter().next(),
        Some(("three".to_string(), "3".to_string()))
    );
}

#[test]
fn lib_it_works() {
    let table = impl_yummy_metadata(&predicate_tester()).unwrap();
    assert_eq!(
        table,
        GuzzleImpl {
            name: "PredicateTester".to_string(),
            deep_guzzles: vec![],
            arms: vec![arm("one", "one", None), arm("two", "two", None)],
        }
    );

    let test_data = vec![
        ("one".to_string(), "1".to_string()),
        ("two".to_string(), "2".to_string()),
        ("three".to_string(), "3".to_string()),
    ];

    let mut tester = yummy_record(&predicate_tester());

    let remaining_data: Vec<(String, String)> = test_data
        .into_iter()
        .filter_map(|v| tester.eat_yummy_metadata(v))
        .collect();

    assert_eq!(text(&tester, "one"), "1".to_string());
    assert_eq!(text(&tester, "two"), "2".to_string());

    assert_eq!(remaining_data.len(), 1);
    assert_eq!(
        remaining_data.into_iter().next(),
        Some(("three".to_string(), "3".to_string()))
    );
}

#[test]
fn kv_passes_over_fields_without_a_name() {
    let unnamed = Field { ident: None, ty: "u8".to_string(), attrs: vec![] };
    assert_eq!(field_to_type_and_ident(&unnamed), None);
    let named = field("one", "String", vec![]);
    assert_eq!(
        field_to_type_and_ident(&named),
        Some((&"String".to_string(), &"one".to_string()))
    );
    let ast = strukt("Mixed", vec![field("a", "A", vec![]), unnamed, field("b", "B", vec![])]);
    assert_eq!(
        impl_kv_predicates(&ast).arms,
        vec![arm("a", "a", None), arm("b", "b", None)]
    );
}

fn yummy(names: &[&str]) -> Attribute {
    Attribute { path: "yummy".to_string(), tts: vec![parens(string_list(names))] }
}

#[test]
fn yummy_lists_give_the_keys() {
    let attrs = vec![
        yummy(&["a", "b"]),
        Attribute { path: "doc".to_string(), tts: vec![punct('='), lit("\"text\"")] },
        yummy(&["c"]),
    ];
    let meta = get_yummy_meta(&attrs);
    assert_eq!(
        meta,
        vec![
            MetaList { nested: vec![Some("a".to_string()), Some("b".to_string())] },
            MetaList { nested: vec![Some("c".to_string())] },
        ]
    );
    assert!(only_string_literals(&meta));
    assert_eq!(names_from_meta(&meta), vec!["a".to_string(), "b".to_string(), "c".to_string()]);
    let name = "field".to_string();
    assert_eq!(
        get_key_and_field(&name, &meta),
        (vec!["a".to_string(), "b".to_string(), "c".to_string()], &name)
    );
    assert!(only_string_literals(&vec![]));
    assert_eq!(names_from_meta(&vec![]), Vec::<String>::new());
    assert_eq!(get_key_and_field(&name, &vec![]), (vec!["field".to_string()], &name));
}

#[test]
fn yummy_annotations_of_other_forms_are_passed_over() {
    let word = Attribute { path: "yummy".to_string(), tts: vec![] };
    let assigned =
        Attribute { path: "yummy".to_string(), tts: vec![punct('='), lit("\"a\"")] };
    let unseparated = Attribute {
        path: "yummy".to_string(),
        tts: vec![parens(vec![lit("\"a\""), lit("\"b\"")])],
    };
    assert!(get_yummy_meta(&vec![word, assigned, unseparated]).is_empty());
    // An entry whose escape cannot be read counts as no string literal.
    let escaped = Attribute {
        path: "yummy".to_string(),
        tts: vec![parens(vec![TokenTree::Literal("\"\\u{D800}\"".to_string())])],
    };
    let meta = get_yummy_meta(&vec![escaped]);
    assert_eq!(meta, vec![MetaList { nested: vec![None] }]);
    assert!(!only_string_literals(&meta));
    let readable = Attribute {
        path: "yummy".to_string(),
        tts: vec![parens(vec![TokenTree::Literal("\"caf\\u{e9}\"".to_string())])],
    };
    assert_eq!(
        get_yummy_meta(&vec![readable]),
        vec![MetaList { nested: vec![Some("caf\u{e9}".to_string())] }]
    );
    let empty = Attribute { path: "yummy".to_string(), tts: vec![parens(vec![])] };
    assert_eq!(get_yummy_meta(&vec![empty]), vec![MetaList { nested: vec![] }]);
}

#[test]
fn yummy_entries_must_be_string_literals() {
    let attrs = || {
        vec![Attribute {
            path: "yummy".to_string(),
            tts: vec![parens(vec![lit("\"a\""), punct(','), ident("b"), punct(','), lit("3")])],
        }]
    };
    let meta = get_yummy_meta(&attrs());
    assert_eq!(meta, vec![MetaList { nested: vec![Some("a".to_string()), None, None] }]);
    assert!(!only_string_literals(&meta));
    assert_eq!(YummyAttribute::from(&field("f", "String", attrs())), None);
    let ast = strukt("Bad", vec![field("ok", "String", vec![]), field("f", "String", attrs())]);
    assert_eq!(impl_yummy_metadata(&ast), None);
    assert_eq!(impl_yummy_metadata_named_fields(&ast, named(&ast)), None);
}

#[test]
fn yummy_tables() {
    let ast = strukt(
        "Listed",
        vec![
            field("plain", "String", vec![]),
            field("listed", "String", vec![yummy(&["one", "two"])]),
        ],
    );
    let found = impl_yummy_metadata_named_fields(&ast, named(&ast)).unwrap();
    assert_eq!(
        found.arms,
        vec![
            arm("plain", "plain", None),
            arm("listed", "one", None),
            arm("listed", "two", None),
        ]
    );
    let attribute = YummyAttribute::from(&named(&ast).named[1]).unwrap();
    assert_eq!(attribute.field, "listed");
    assert_eq!(
        attribute.get_arm_parts(),
        vec![
            (&"listed".to_string(), &"one".to_string()),
            (&"listed".to_string(), &"two".to_string()),
        ]
    );
    assert_eq!(
        YummyAttribute::from(&named(&ast).named[0]).unwrap().keyed(),
        FieldAttribute {
            field: "plain".to_string(),
            attributes: Some(GuzzleAttribute::KeyedAttribute(GuzzleKeyedAttribute {
                keys: Keys(vec!["plain".to_string()]),
                parser: None,
            })),
        }
    );
    let mut record = yummy_record(&ast);
    assert_eq!(record.eat_yummy_metadata(("two", "2".to_string())), None);
    assert_eq!(text(&record, "listed"), "2");
    assert_eq!(
        record.eat_yummy_metadata(("listed", "x".to_string())),
        Some(("listed", "x".to_string()))
    );
}
