use turbopuffer_apigen::codegen::error::CodegenError;
use turbopuffer_apigen::codegen::go;
use turbopuffer_apigen::codegen::lift::{extract_any_of_tuples, ConflictBehavior};
use turbopuffer_apigen::codegen::schemas::SchemaMap;
use turbopuffer_apigen::codegen::OpenApiSchema;
use turbopuffer_apigen::util::codegen_buf::CodegenBuf;

const PREAMBLE: &str = "// Code generated by turbopuffer-apigen. DO NOT EDIT.\n\npackage turbopuffer\n\nimport shimjson \"github.com/turbopuffer/turbopuffer-go/internal/encoding/json\"\n\n";

fn string_schema(title: Option<&str>) -> OpenApiSchema {
    OpenApiSchema::String { title: title.map(|t| t.to_string()) }
}

fn const_schema(value: &str) -> OpenApiSchema {
    OpenApiSchema::Const { sconst: value.to_string(), title: None }
}

fn tuple(items: Vec<OpenApiSchema>) -> OpenApiSchema {
    OpenApiSchema::ArrayTuple {
        additional_items: false,
        prefix_items: items,
        x_turbopuffer_variant_name: None,
        x_turbopuffer_variant_drop_on_conflict: false,
        x_turbopuffer_flatten: false,
        title: None,
    }
}

fn reference(name: &str) -> OpenApiSchema {
    OpenApiSchema::Ref { sref: format!("#/components/schemas/{name}"), title: None }
}

fn render_one(name: &str, schema: OpenApiSchema) -> Result<String, CodegenError> {
    let mut schemas = SchemaMap::new();
    schemas.insert(name.to_string(), schema);
    go::render(schemas).map(|buf| buf.into_string())
}

#[test]
fn tuple_variant_is_lifted_and_rendered() {
    let mut schemas = SchemaMap::new();
    schemas.insert(
        "FilterX".to_string(),
        OpenApiSchema::AnyOf {
            any_of: vec![tuple(vec![const_schema("Eq"), string_schema(Some("fieldA"))])],
        },
    );
    let out = go::render(schemas).unwrap().into_string();
    let expected = format!(
        "{PREAMBLE}{}{}",
        "type FilterX interface {\n\tsealed_FilterX()\n}\nfunc (v FilterXEq) sealed_FilterX() {}\n\n",
        "type FilterXEq struct {\n\tfieldA string\n}\nfunc NewFilterXEq(\n\tfieldA string,\n) FilterXEq {\n\treturn FilterXEq {\n\t\tfieldA,\n\t}\n}\nfunc (v FilterXEq) MarshalJSON() ([]byte, error) {\n\treturn shimjson.Marshal([]any{\n\t\t\"Eq\",\n\t\tv.fieldA,\n\t})\n}\n\n",
    );
    assert_eq!(out, expected);
}

#[test]
fn const_union_renders_enumeration() {
    let out = render_one(
        "Mode",
        OpenApiSchema::AnyOf {
            any_of: vec![const_schema("a"), const_schema("b"), const_schema("c")],
        },
    )
    .unwrap();
    let expected = format!(
        "{PREAMBLE}{}",
        "type Mode string\nconst (\n\tModeA Mode = \"a\"\n\tModeB Mode = \"b\"\n\tModeC Mode = \"c\"\n)\n\n",
    );
    assert_eq!(out, expected);
}

#[test]
fn const_union_member_takes_title() {
    let out = render_one(
        "Mode",
        OpenApiSchema::AnyOf {
            any_of: vec![OpenApiSchema::Const {
                sconst: "a".to_string(),
                title: Some("First".to_string()),
            }],
        },
    )
    .unwrap();
    assert_eq!(out, format!("{PREAMBLE}type Mode string\nconst (\n\tFirst Mode = \"a\"\n)\n\n"));
}

#[test]
fn number_width_selects_precision() {
    let single = render_one(
        "N",
        OpenApiSchema::Number { title: None, x_turbopuffer_width: Some(32) },
    );
    assert_eq!(single.unwrap(), format!("{PREAMBLE}type N float32\n"));
    let omitted = render_one("N", OpenApiSchema::Number { title: None, x_turbopuffer_width: None });
    assert_eq!(omitted.unwrap(), format!("{PREAMBLE}type N float64\n"));
    let double = render_one(
        "N",
        OpenApiSchema::Number { title: None, x_turbopuffer_width: Some(64) },
    );
    assert_eq!(double.unwrap(), format!("{PREAMBLE}type N float64\n"));
    let odd = render_one(
        "N",
        OpenApiSchema::Number { title: None, x_turbopuffer_width: Some(16) },
    );
    match odd {
        Err(e) => {
            assert!(matches!(e, CodegenError::NumberWidth(16)));
            assert_eq!(e.message(), "unsupported number width: 16");
        }
        Ok(_) => panic!("width 16 must be refused"),
    }
}

#[test]
fn scalars_and_lists_render_type_expressions() {
    assert_eq!(render_one("S", string_schema(None)).unwrap(), format!("{PREAMBLE}type S string\n"));
    assert_eq!(
        render_one("B", OpenApiSchema::Boolean { title: None }).unwrap(),
        format!("{PREAMBLE}type B bool\n")
    );
    assert_eq!(
        render_one("A", OpenApiSchema::Any { title: None }).unwrap(),
        format!("{PREAMBLE}type A any\n")
    );
    assert_eq!(render_one("R", reference("S")).unwrap(), format!("{PREAMBLE}type R S\n"));
    let list = OpenApiSchema::ArrayList {
        items: Box::new(OpenApiSchema::ArrayList {
            items: Box::new(string_schema(None)),
            title: None,
        }),
        title: None,
    };
    assert_eq!(render_one("L", list).unwrap(), format!("{PREAMBLE}type L [][]string\n"));
}

#[test]
fn object_renders_wrapper() {
    let object = OpenApiSchema::Object {
        properties: vec![("$ref_new".to_string(), string_schema(None))],
        required: vec!["$ref_new".to_string()],
        title: None,
    };
    let out = render_one("Wrap", object).unwrap();
    let expected = format!(
        "{PREAMBLE}{}",
        "type Wrap struct {\n\tRefNew string\n}\nfunc NewWrap(\n\tRefNew string,\n) Wrap {\n\treturn Wrap {\n\t\tRefNew: RefNew,\n\t}\n}\nfunc (v Wrap) MarshalJSON() ([]byte, error) {\n\treturn shimjson.Marshal(map[string]any{\n\t\t\"$ref_new\": v.RefNew,\n\t})\n}\n\n",
    );
    assert_eq!(out, expected);
}

#[test]
fn object_shape_errors() {
    let two = OpenApiSchema::Object {
        properties: vec![
            ("a".to_string(), string_schema(None)),
            ("b".to_string(), string_schema(None)),
        ],
        required: vec!["a".to_string()],
        title: None,
    };
    assert!(matches!(render_one("O", two), Err(CodegenError::ObjectProperties)));
    let none_required = OpenApiSchema::Object {
        properties: vec![("a".to_string(), string_schema(None))],
        required: vec![],
        title: None,
    };
    assert!(matches!(render_one("O", none_required), Err(CodegenError::ObjectProperties)));
    let other_required = OpenApiSchema::Object {
        properties: vec![("a".to_string(), string_schema(None))],
        required: vec!["b".to_string()],
        title: None,
    };
    assert!(matches!(render_one("O", other_required), Err(CodegenError::ObjectRequired)));
    let nested = OpenApiSchema::ArrayList {
        items: Box::new(OpenApiSchema::Object {
            properties: vec![("a".to_string(), string_schema(None))],
            required: vec!["a".to_string()],
            title: None,
        }),
        title: None,
    };
    assert!(matches!(render_one("O", nested), Err(CodegenError::ObjectPosition)));
}

#[test]
fn unsupported_shapes_are_refused() {
    assert!(matches!(render_one("C", const_schema("x")), Err(CodegenError::ConstPosition)));
    let open_tuple = OpenApiSchema::ArrayTuple {
        additional_items: true,
        prefix_items: vec![string_schema(None)],
        x_turbopuffer_variant_name: None,
        x_turbopuffer_variant_drop_on_conflict: false,
        x_turbopuffer_flatten: false,
        title: None,
    };
    assert!(matches!(render_one("T", open_tuple), Err(CodegenError::TupleItems)));
    let mixed = OpenApiSchema::AnyOf { any_of: vec![const_schema("a"), string_schema(None)] };
    assert!(matches!(render_one("M", mixed), Err(CodegenError::UnsupportedAnyOf)));
    let no_discriminant = OpenApiSchema::AnyOf {
        any_of: vec![tuple(vec![string_schema(None)]), reference("S")],
    };
    assert!(matches!(render_one("M", no_discriminant), Err(CodegenError::UnsupportedAnyOf)));
    let inner_tuple = OpenApiSchema::ArrayList {
        items: Box::new(tuple(vec![string_schema(None)])),
        title: None,
    };
    assert!(matches!(render_one("T", inner_tuple), Err(CodegenError::TuplePosition)));
    let bad_ref = OpenApiSchema::Ref { sref: "#/definitions/S".to_string(), title: None };
    match render_one("R", bad_ref) {
        Err(CodegenError::UnsupportedReference(r)) => assert_eq!(r, "#/definitions/S"),
        _ => panic!("a reference outside the schema collection must be refused"),
    }
}

#[test]
fn union_of_references_flattens_nested_unions() {
    let mut schemas = SchemaMap::new();
    schemas.insert("A".to_string(), string_schema(None));
    schemas.insert("B".to_string(), string_schema(None));
    schemas.insert(
        "Inner".to_string(),
        OpenApiSchema::AnyOf { any_of: vec![reference("A"), reference("B")] },
    );
    schemas.insert(
        "Outer".to_string(),
        OpenApiSchema::AnyOf { any_of: vec![reference("Inner"), reference("A")] },
    );
    let out = go::render(schemas).unwrap().into_string();
    let expected = format!(
        "{PREAMBLE}{}{}{}{}",
        "type A string\n",
        "type B string\n",
        "type Inner interface {\n\tsealed_Inner()\n}\nfunc (v A) sealed_Inner() {}\nfunc (v B) sealed_Inner() {}\n\n",
        "type Outer interface {\n\tsealed_Outer()\n}\nfunc (v A) sealed_Outer() {}\nfunc (v B) sealed_Outer() {}\nfunc (v A) sealed_Outer() {}\n\n",
    );
    assert_eq!(out, expected);
}

#[test]
fn union_reference_errors() {
    let dangling = OpenApiSchema::AnyOf { any_of: vec![reference("Nowhere")] };
    match render_one("U", dangling) {
        Err(e) => {
            assert!(matches!(&e, CodegenError::UnknownReference(n) if n == "Nowhere"));
            assert_eq!(e.message(), "reference to unknown schema: Nowhere");
        }
        Ok(_) => panic!("a reference to no schema must be refused"),
    }
    let cyclic = OpenApiSchema::AnyOf { any_of: vec![reference("U")] };
    assert!(matches!(render_one("U", cyclic), Err(CodegenError::NestedTooDeep(_))));
}

#[test]
fn flattened_tuple_is_wrapped_again() {
    let nested = OpenApiSchema::ArrayTuple {
        additional_items: false,
        prefix_items: vec![string_schema(None), const_schema("mid"), string_schema(Some("last"))],
        x_turbopuffer_variant_name: None,
        x_turbopuffer_variant_drop_on_conflict: false,
        x_turbopuffer_flatten: true,
        title: None,
    };
    let outer = tuple(vec![const_schema("Op"), nested, string_schema(None)]);
    let out = render_one("T", outer).unwrap();
    let expected = format!(
        "{PREAMBLE}{}",
        "type T struct {\n\tf1 string\n\tlast string\n\tf5 string\n}\nfunc NewT(\n\tf1 string,\n\tlast string,\n\tf5 string,\n) T {\n\treturn T {\n\t\tf1,\n\t\tlast,\n\t\tf5,\n\t}\n}\nfunc (v T) MarshalJSON() ([]byte, error) {\n\treturn shimjson.Marshal([]any{\n\t\t\"Op\",\n\t\t[]any{\n\t\t\tv.f1,\n\t\t\t\"mid\",\n\t\t\tv.last,\n\t\t},\n\t\tv.f5,\n\t})\n}\n\n",
    );
    assert_eq!(out, expected);
}

#[test]
fn duplicate_variant_names_resolve_by_policy() {
    let first = tuple(vec![const_schema("Bar"), string_schema(None)]);
    let second = OpenApiSchema::ArrayTuple {
        additional_items: false,
        prefix_items: vec![string_schema(None), const_schema("Bar")],
        x_turbopuffer_variant_name: None,
        x_turbopuffer_variant_drop_on_conflict: true,
        x_turbopuffer_flatten: false,
        title: None,
    };
    let mut suffixed = SchemaMap::new();
    suffixed.insert(
        "Foo".to_string(),
        OpenApiSchema::AnyOf { any_of: vec![first.clone(), second.clone()] },
    );
    extract_any_of_tuples(&mut suffixed, ConflictBehavior::AppendSuffix).unwrap();
    assert_eq!(suffixed.len(), 3);
    assert_eq!(suffixed.name_at(0), "Foo");
    assert_eq!(suffixed.name_at(1), "FooBar");
    assert_eq!(suffixed.name_at(2), "FooBar2");
    match suffixed.schema_at(0) {
        OpenApiSchema::AnyOf { any_of } => {
            assert_eq!(any_of.len(), 2);
            match &any_of[1] {
                OpenApiSchema::Ref { sref, title } => {
                    assert_eq!(sref, "#/components/schemas/FooBar2");
                    assert_eq!(title.as_deref(), Some("FooBar"));
                }
                _ => panic!("the second tuple must have become a reference"),
            }
        }
        _ => panic!("the union must stay a union"),
    }

    let mut dropped = SchemaMap::new();
    dropped.insert("Foo".to_string(), OpenApiSchema::AnyOf { any_of: vec![first, second] });
    extract_any_of_tuples(&mut dropped, ConflictBehavior::Drop).unwrap();
    assert_eq!(dropped.len(), 2);
    assert_eq!(dropped.name_at(0), "Foo");
    assert_eq!(dropped.name_at(1), "FooBar");
    match dropped.schema_at(0) {
        OpenApiSchema::AnyOf { any_of } => assert_eq!(any_of.len(), 1),
        _ => panic!("the union must stay a union"),
    }
}

#[test]
fn unions_need_a_name() {
    let consts = OpenApiSchema::ArrayList {
        items: Box::new(OpenApiSchema::AnyOf { any_of: vec![const_schema("a")] }),
        title: None,
    };
    match render_one("L", consts) {
        Err(e) => {
            assert!(matches!(e, CodegenError::ConstEnumPosition));
            assert_eq!(e.message(), "const enum in unsupported position");
        }
        Ok(_) => panic!("a union of literals cannot be an item type"),
    }
    let refs = OpenApiSchema::ArrayList {
        items: Box::new(OpenApiSchema::AnyOf { any_of: vec![reference("S")] }),
        title: None,
    };
    match render_one("L", refs) {
        Err(e) => {
            assert!(matches!(e, CodegenError::AnyOfRefsPosition));
            assert_eq!(e.message(), "anyOf with refs in unsupported position");
        }
        Ok(_) => panic!("a union of references cannot be an item type"),
    }
    let mut buf = CodegenBuf::new();
    assert!(matches!(
        go::unions::render_any_of_const_enum(&mut buf, None, &vec![const_schema("a")]),
        Err(CodegenError::ConstEnumPosition)
    ));
    assert!(matches!(
        go::unions::render_any_of_refs(&SchemaMap::new(), &mut buf, None, &vec![]),
        Err(CodegenError::AnyOfRefsPosition)
    ));
}

#[test]
fn type_expressions() {
    assert_eq!(go::go_type(&string_schema(None)).unwrap(), "string");
    assert_eq!(go::go_type(&reference("Other")).unwrap(), "Other");
    let list = OpenApiSchema::ArrayList { items: Box::new(reference("Other")), title: None };
    assert_eq!(go::go_type(&list).unwrap(), "[]Other");
    assert!(matches!(
        go::go_type(&tuple(vec![string_schema(None)])),
        Err(CodegenError::TuplePosition)
    ));
}

#[test]
fn render_schema_follows_the_depth_of_the_buffer() {
    let mut schemas = SchemaMap::new();
    schemas.insert("A".to_string(), string_schema(None));
    let mut buf = CodegenBuf::new();
    buf.indent();
    let union = OpenApiSchema::AnyOf { any_of: vec![reference("A")] };
    go::render_schema(&schemas, &mut buf, Some("U"), &union).unwrap();
    buf.write("|");
    let consts = OpenApiSchema::AnyOf {
        any_of: vec![OpenApiSchema::Const { sconst: "straße".to_string(), title: None }],
    };
    go::render_schema(&schemas, &mut buf, Some("E"), &consts).unwrap();
    buf.write("|");
    go::render_schema(&schemas, &mut buf, None, &string_schema(None)).unwrap();
    assert_eq!(
        buf.into_string(),
        "    interface {\n        sealed_U()\n    }\n    func (v A) sealed_U() {}\n|string\n    const (\n        EStraße E = \"straße\"\n    )\n|string"
    );
}

#[test]
fn empty_union_is_an_empty_enumeration() {
    let out = render_one("E", OpenApiSchema::AnyOf { any_of: vec![] }).unwrap();
    assert_eq!(out, format!("{PREAMBLE}type E string\nconst (\n)\n\n"));
}

#[test]
fn lifted_collection_renders_the_same_again() {
    let mut schemas = SchemaMap::new();
    schemas.insert(
        "FilterX".to_string(),
        OpenApiSchema::AnyOf {
            any_of: vec![tuple(vec![const_schema("Eq"), string_schema(Some("fieldA"))])],
        },
    );
    let mut lifted = SchemaMap::new();
    lifted.insert(
        "FilterX".to_string(),
        OpenApiSchema::AnyOf {
            any_of: vec![tuple(vec![const_schema("Eq"), string_schema(Some("fieldA"))])],
        },
    );
    extract_any_of_tuples(&mut lifted, ConflictBehavior::Drop).unwrap();
    assert_eq!(
        go::render(schemas).unwrap().into_string(),
        go::render(lifted).unwrap().into_string()
    );
}
