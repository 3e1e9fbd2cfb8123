use turbopuffer_apigen::codegen::error::{CodegenError, ErrorKind};
use turbopuffer_apigen::codegen::lift::{extract_any_of_tuples, ConflictBehavior};
use turbopuffer_apigen::codegen::schemas::SchemaMap;
use turbopuffer_apigen::codegen::{default_true, strip_schema_ref_prefix, OpenApiSchema};

fn string_schema(title: Option<&str>) -> OpenApiSchema {
    OpenApiSchema::String { title: title.map(|t| t.to_string()) }
}

fn const_schema(value: &str) -> OpenApiSchema {
    OpenApiSchema::Const { sconst: value.to_string(), title: None }
}

fn tuple(items: Vec<OpenApiSchema>, variant: Option<&str>, droppable: bool) -> OpenApiSchema {
    OpenApiSchema::ArrayTuple {
        additional_items: false,
        prefix_items: items,
        x_turbopuffer_variant_name: variant.map(|v| v.to_string()),
        x_turbopuffer_variant_drop_on_conflict: droppable,
        x_turbopuffer_flatten: false,
        title: None,
    }
}

fn names(map: &SchemaMap) -> Vec<String> {
    (0..map.len()).map(|i| map.name_at(i).to_string()).collect()
}

#[test]
fn title_of_each_variant() {
    assert_eq!(string_schema(Some("t")).title(), Some("t"));
    assert_eq!(string_schema(None).title(), None);
    assert_eq!(OpenApiSchema::AnyOf { any_of: vec![string_schema(Some("t"))] }.title(), None);
    let list = OpenApiSchema::ArrayList {
        items: Box::new(string_schema(Some("inner"))),
        title: Some("outer".to_string()),
    };
    assert_eq!(list.title(), Some("outer"));
    let r = OpenApiSchema::Ref { sref: "x".to_string(), title: Some("r".to_string()) };
    assert_eq!(r.title(), Some("r"));
}

#[test]
fn title_mut_replaces_the_title_only() {
    let mut s = OpenApiSchema::Const { sconst: "c".to_string(), title: None };
    *s.title_mut().unwrap() = Some("named".to_string());
    assert!(
        matches!(&s, OpenApiSchema::Const { sconst, title: Some(t) } if sconst == "c" && t == "named")
    );
    let mut u = OpenApiSchema::AnyOf { any_of: vec![] };
    assert!(u.title_mut().is_none());
    let mut n = OpenApiSchema::Number { title: Some("w".to_string()), x_turbopuffer_width: Some(32) };
    assert_eq!(n.title_mut().unwrap().take(), Some("w".to_string()));
    assert!(matches!(n, OpenApiSchema::Number { title: None, x_turbopuffer_width: Some(32) }));
}

#[test]
fn clone_is_deep() {
    let original = OpenApiSchema::Object {
        properties: vec![(
            "p".to_string(),
            OpenApiSchema::AnyOf { any_of: vec![const_schema("a"), string_schema(Some("t"))] },
        )],
        required: vec!["p".to_string()],
        title: Some("o".to_string()),
    };
    let copy = original.clone();
    assert_eq!(format!("{original:?}"), format!("{copy:?}"));
}

#[test]
fn reference_prefix_is_stripped() {
    assert_eq!(strip_schema_ref_prefix("#/components/schemas/Filter").unwrap(), "Filter");
    assert_eq!(strip_schema_ref_prefix("#/components/schemas/").unwrap(), "");
    assert_eq!(strip_schema_ref_prefix("#/components/schemas/Größe").unwrap(), "Größe");
    match strip_schema_ref_prefix("#/components/schema/Filter") {
        Err(e) => {
            assert!(matches!(&e, CodegenError::UnsupportedReference(r) if r == "#/components/schema/Filter"));
            assert_eq!(e.message(), "unsupported reference: #/components/schema/Filter");
            assert_eq!(e.kind(), ErrorKind::Reference);
        }
        Ok(_) => panic!("a reference with another prefix must be refused"),
    }
    assert!(strip_schema_ref_prefix("").is_err());
}

#[test]
fn additional_items_default() {
    assert!(default_true());
}

#[test]
fn schema_map_keeps_names_sorted() {
    let mut map = SchemaMap::new();
    assert_eq!(map.len(), 0);
    assert!(map.insert("b".to_string(), string_schema(None)).is_none());
    assert!(map.insert("a".to_string(), string_schema(None)).is_none());
    assert!(map.insert("ab".to_string(), string_schema(None)).is_none());
    assert!(map.insert("B".to_string(), string_schema(None)).is_none());
    assert!(map.insert("é".to_string(), string_schema(None)).is_none());
    assert_eq!(names(&map), vec!["B", "a", "ab", "b", "é"]);
    let old = map.insert("ab".to_string(), const_schema("new"));
    assert!(matches!(old, Some(OpenApiSchema::String { .. })));
    assert_eq!(map.len(), 5);
    assert!(matches!(map.get("ab"), Some(OpenApiSchema::Const { .. })));
    assert!(matches!(map.schema_at(2), OpenApiSchema::Const { .. }));
    assert!(map.get("c").is_none());
    assert!(map.contains_key("é"));
    assert!(!map.contains_key(""));
}

#[test]
fn variant_name_overrides_the_name_but_not_the_title() {
    let mut map = SchemaMap::new();
    map.insert(
        "Filter".to_string(),
        OpenApiSchema::AnyOf {
            any_of: vec![
                tuple(vec![string_schema(None), const_schema("Eq")], Some("Equals"), false),
                string_schema(None),
                tuple(vec![const_schema("a"), const_schema("b")], None, false),
                tuple(vec![string_schema(None)], None, false),
            ],
        },
    );
    extract_any_of_tuples(&mut map, ConflictBehavior::AppendSuffix).unwrap();
    assert_eq!(names(&map), vec!["Filter", "FilterEquals"]);
    let OpenApiSchema::AnyOf { any_of } = map.schema_at(0) else { panic!("still a union") };
    assert_eq!(any_of.len(), 4);
    match &any_of[0] {
        OpenApiSchema::Ref { sref, title } => {
            assert_eq!(sref, "#/components/schemas/FilterEquals");
            assert_eq!(title.as_deref(), Some("FilterEq"));
        }
        _ => panic!("the tuple must have become a reference"),
    }
    assert!(matches!(any_of[1], OpenApiSchema::String { .. }));
    assert!(matches!(any_of[2], OpenApiSchema::ArrayTuple { .. }));
    assert!(matches!(any_of[3], OpenApiSchema::ArrayTuple { .. }));
    assert!(matches!(map.schema_at(1), OpenApiSchema::ArrayTuple { .. }));
}

#[test]
fn suffixes_count_up() {
    let variant = |literal: &str| tuple(vec![const_schema(literal)], None, false);
    let mut map = SchemaMap::new();
    map.insert(
        "A".to_string(),
        OpenApiSchema::AnyOf { any_of: vec![variant("B"), variant("B"), variant("B2")] },
    );
    map.insert("Z".to_string(), OpenApiSchema::AnyOf { any_of: vec![variant("B")] });
    extract_any_of_tuples(&mut map, ConflictBehavior::AppendSuffix).unwrap();
    assert_eq!(names(&map), vec!["A", "AB", "AB2", "AB22", "Z", "ZB"]);
    let OpenApiSchema::AnyOf { any_of } = map.schema_at(0) else { panic!("still a union") };
    let refs: Vec<&str> = any_of
        .iter()
        .map(|a| match a {
            OpenApiSchema::Ref { sref, .. } => sref.as_str(),
            _ => panic!("every tuple must have become a reference"),
        })
        .collect();
    assert_eq!(
        refs,
        vec![
            "#/components/schemas/AB",
            "#/components/schemas/AB2",
            "#/components/schemas/AB22"
        ]
    );

    let mut many = SchemaMap::new();
    many.insert(
        "A".to_string(),
        OpenApiSchema::AnyOf { any_of: (0..11).map(|_| variant("B")).collect() },
    );
    extract_any_of_tuples(&mut many, ConflictBehavior::AppendSuffix).unwrap();
    assert_eq!(
        names(&many),
        vec!["A", "AB", "AB10", "AB11", "AB2", "AB3", "AB4", "AB5", "AB6", "AB7", "AB8", "AB9"]
    );
}

#[test]
fn nested_unions_are_left_alone() {
    let mut map = SchemaMap::new();
    map.insert(
        "L".to_string(),
        OpenApiSchema::ArrayList {
            items: Box::new(OpenApiSchema::AnyOf {
                any_of: vec![tuple(vec![const_schema("x")], None, false)],
            }),
            title: None,
        },
    );
    let before = format!("{map:?}");
    extract_any_of_tuples(&mut map, ConflictBehavior::AppendSuffix).unwrap();
    assert_eq!(format!("{map:?}"), before);
}

#[test]
fn lifting_twice_changes_nothing() {
    for policy in [ConflictBehavior::AppendSuffix, ConflictBehavior::Drop] {
        let mut map = SchemaMap::new();
        map.insert(
            "Foo".to_string(),
            OpenApiSchema::AnyOf {
                any_of: vec![
                    tuple(vec![const_schema("Bar"), string_schema(None)], None, false),
                    tuple(vec![string_schema(None), const_schema("Baz")], None, true),
                    string_schema(None),
                ],
            },
        );
        extract_any_of_tuples(&mut map, policy).unwrap();
        let once = format!("{map:?}");
        extract_any_of_tuples(&mut map, policy).unwrap();
        assert_eq!(format!("{map:?}"), once);
    }
}

#[test]
fn duplicate_names_are_fatal_without_suffixes() {
    let variant = || tuple(vec![const_schema("Bar")], None, false);
    let mut map = SchemaMap::new();
    map.insert("Foo".to_string(), OpenApiSchema::AnyOf { any_of: vec![variant(), variant()] });
    let before = format!("{map:?}");
    match extract_any_of_tuples(&mut map, ConflictBehavior::Drop) {
        Err(e) => {
            assert!(matches!(&e, CodegenError::DuplicateSchemaName(n) if n == "FooBar"));
            assert_eq!(
                e.message(),
                "extraction on array tuples from anyOf failed: duplicate schema name: FooBar"
            );
            assert_eq!(e.kind(), ErrorKind::Naming);
        }
        Ok(()) => panic!("two tuples of one name must be refused"),
    }
    assert_eq!(format!("{map:?}"), before);
}

#[test]
fn collision_with_an_existing_schema_is_fatal() {
    for policy in [ConflictBehavior::AppendSuffix, ConflictBehavior::Drop] {
        let mut map = SchemaMap::new();
        map.insert(
            "Foo".to_string(),
            OpenApiSchema::AnyOf { any_of: vec![tuple(vec![const_schema("Bar")], None, false)] },
        );
        map.insert("FooBar".to_string(), string_schema(None));
        let before = format!("{map:?}");
        let e = extract_any_of_tuples(&mut map, policy).unwrap_err();
        assert!(matches!(&e, CodegenError::DuplicateSchemaName(n) if n == "FooBar"));
        assert_eq!(format!("{map:?}"), before);
    }
}

#[test]
fn every_failure_has_its_message() {
    let cases: Vec<(CodegenError, &str, ErrorKind)> = vec![
        (CodegenError::InvalidYaml, "the document is not valid YAML", ErrorKind::Structure),
        (CodegenError::UnsupportedAnyOf, "unsupported anyOf", ErrorKind::Unsupported),
        (
            CodegenError::ObjectPosition,
            "object schema in unsupported position",
            ErrorKind::Unsupported,
        ),
        (
            CodegenError::ObjectProperties,
            "object schemas only supported with a required property",
            ErrorKind::Unsupported,
        ),
        (
            CodegenError::ObjectRequired,
            "object schemas only supported with a single required property",
            ErrorKind::Unsupported,
        ),
        (
            CodegenError::TupleItems,
            "tuple-type arrays with `items: true` unsupported",
            ErrorKind::Unsupported,
        ),
        (
            CodegenError::TuplePosition,
            "tuple-type arrays in unsupported position",
            ErrorKind::Unsupported,
        ),
        (CodegenError::NumberWidth(0), "unsupported number width: 0", ErrorKind::Unsupported),
        (
            CodegenError::NumberWidth(4294967295),
            "unsupported number width: 4294967295",
            ErrorKind::Unsupported,
        ),
        (CodegenError::ConstPosition, "const in unsupported position", ErrorKind::Unsupported),
        (
            CodegenError::ConstEnumPosition,
            "const enum in unsupported position",
            ErrorKind::Unsupported,
        ),
        (
            CodegenError::AnyOfRefsPosition,
            "anyOf with refs in unsupported position",
            ErrorKind::Unsupported,
        ),
        (
            CodegenError::NestedTooDeep("U".to_string()),
            "anyOf refers to itself: U",
            ErrorKind::Reference,
        ),
    ];
    for (e, message, kind) in cases {
        assert_eq!(e.message(), message);
        assert_eq!(e.kind(), kind);
    }
}
