use turbopuffer_apigen::codegen::document::Node;
use turbopuffer_apigen::codegen::error::{CodegenError, ErrorKind};
use turbopuffer_apigen::codegen::parser::parse;
use turbopuffer_apigen::codegen::parser::shapes::parse_schema;
use turbopuffer_apigen::codegen::yaml::read_document;
use turbopuffer_apigen::codegen::OpenApiSchema;
use turbopuffer_apigen::{generate, Language};

fn text(s: &str) -> Node {
    Node::Str(s.to_string())
}

fn mapping(entries: Vec<(&str, Node)>) -> Node {
    Node::Mapping(entries.into_iter().map(|(k, v)| (text(k), v)).collect())
}

fn document(schemas: Vec<(&str, Node)>) -> Node {
    mapping(vec![("components", mapping(vec![("schemas", mapping(schemas))]))])
}

fn reference(name: &str) -> Node {
    mapping(vec![("$ref", text(&format!("#/components/schemas/{name}")))])
}

const PREFIXES: [&str; 4] = ["Aggregate", "Expr", "Filter", "RankBy"];

#[test]
fn yaml_text_becomes_a_tree() {
    let doc = read_document("a: [1, -2, 1.5, true, ~, x]\nb: {c: d}\n").unwrap();
    let Node::Mapping(entries) = doc else { panic!("the root must be a mapping") };
    assert_eq!(entries.len(), 2);
    assert!(matches!(&entries[0].0, Node::Str(k) if k == "a"));
    let Node::Sequence(items) = &entries[0].1 else { panic!("a must be a sequence") };
    assert_eq!(items.len(), 6);
    assert!(matches!(items[0], Node::Number(Some(1))));
    assert!(matches!(items[1], Node::Number(None)));
    assert!(matches!(items[2], Node::Number(None)));
    assert!(matches!(items[3], Node::Bool(true)));
    assert!(matches!(items[4], Node::Null));
    assert!(matches!(&items[5], Node::Str(s) if s == "x"));
    let Node::Mapping(inner) = &entries[1].1 else { panic!("b must be a mapping") };
    assert!(matches!(&inner[0], (Node::Str(k), Node::Str(v)) if k == "c" && v == "d"));
}

#[test]
fn tagged_yaml_value_is_marked() {
    let doc = read_document("a: !Thing 1\n").unwrap();
    let Node::Mapping(entries) = doc else { panic!("the root must be a mapping") };
    assert!(matches!(entries[0].1, Node::Tagged));
}

#[test]
fn broken_yaml_is_refused() {
    let e = read_document("a: [1, 2").unwrap_err();
    assert!(matches!(e, CodegenError::InvalidYaml));
    assert_eq!(e.kind(), ErrorKind::Structure);
    assert!(matches!(generate(Language::Go, "a: [1, 2"), Err(CodegenError::InvalidYaml)));
}

#[test]
fn each_shape_is_read() {
    let s = parse_schema(&mapping(vec![("type", text("string")), ("title", text("t"))]));
    assert!(matches!(s, Some(OpenApiSchema::String { title: Some(t) }) if t == "t"));
    let s = parse_schema(&mapping(vec![("type", text("boolean")), ("description", text("d"))]));
    assert!(matches!(s, Some(OpenApiSchema::Boolean { title: None })));
    let s = parse_schema(&mapping(vec![
        ("type", text("number")),
        ("x-turbopuffer-width", Node::Number(Some(32))),
    ]));
    assert!(matches!(
        s,
        Some(OpenApiSchema::Number { title: None, x_turbopuffer_width: Some(32) })
    ));
    let s = parse_schema(&mapping(vec![("const", text("Eq")), ("title", Node::Null)]));
    assert!(matches!(s, Some(OpenApiSchema::Const { sconst, title: None }) if sconst == "Eq"));
    let s = parse_schema(&reference("Other"));
    assert!(
        matches!(s, Some(OpenApiSchema::Ref { sref, title: None }) if sref == "#/components/schemas/Other")
    );
    let s = parse_schema(&mapping(vec![]));
    assert!(matches!(s, Some(OpenApiSchema::Any { title: None })));
    let s = parse_schema(&mapping(vec![("x-stainless-any", Node::Bool(true))]));
    assert!(matches!(s, Some(OpenApiSchema::Any { title: None })));
    let s = parse_schema(&mapping(vec![
        ("type", text("array")),
        ("items", mapping(vec![("type", text("string"))])),
    ]));
    assert!(matches!(s, Some(OpenApiSchema::ArrayList { .. })));
    let s = parse_schema(&mapping(vec![
        ("anyOf", Node::Sequence(vec![reference("A"), mapping(vec![("const", text("x"))])])),
        ("description", text("d")),
    ]));
    assert!(matches!(s, Some(OpenApiSchema::AnyOf { any_of }) if any_of.len() == 2));
    let s = parse_schema(&mapping(vec![
        ("type", text("object")),
        ("properties", mapping(vec![("p", mapping(vec![("type", text("string"))]))])),
        ("required", Node::Sequence(vec![text("p")])),
    ]));
    match s {
        Some(OpenApiSchema::Object { properties, required, title: None }) => {
            assert_eq!(properties.len(), 1);
            assert_eq!(properties[0].0, "p");
            assert_eq!(required, vec!["p".to_string()]);
        }
        _ => panic!("an object must be read"),
    }
    let s = parse_schema(&mapping(vec![
        ("type", text("object")),
        ("properties", mapping(vec![])),
    ]));
    assert!(matches!(s, Some(OpenApiSchema::Object { required, .. }) if required.is_empty()));
}

#[test]
fn tuple_shape_and_defaults() {
    let s = parse_schema(&mapping(vec![
        ("type", text("array")),
        ("prefixItems", Node::Sequence(vec![mapping(vec![("const", text("Eq"))])])),
    ]));
    match s {
        Some(OpenApiSchema::ArrayTuple {
            additional_items,
            prefix_items,
            x_turbopuffer_variant_name,
            x_turbopuffer_variant_drop_on_conflict,
            x_turbopuffer_flatten,
            title,
        }) => {
            assert!(additional_items);
            assert_eq!(prefix_items.len(), 1);
            assert!(x_turbopuffer_variant_name.is_none());
            assert!(!x_turbopuffer_variant_drop_on_conflict);
            assert!(!x_turbopuffer_flatten);
            assert!(title.is_none());
        }
        _ => panic!("a tuple must be read"),
    }
    let s = parse_schema(&mapping(vec![
        ("type", text("array")),
        ("prefixItems", Node::Sequence(vec![])),
        ("additionalItems", Node::Bool(false)),
        ("x-turbopuffer-variant-name", text("V")),
        ("x-turbopuffer-variant-drop-on-conflict", Node::Bool(true)),
        ("x-turbopuffer-flatten", Node::Bool(true)),
    ]));
    assert!(matches!(
        s,
        Some(OpenApiSchema::ArrayTuple {
            additional_items: false,
            x_turbopuffer_variant_name: Some(v),
            x_turbopuffer_variant_drop_on_conflict: true,
            x_turbopuffer_flatten: true,
            ..
        }) if v == "V"
    ));
}

#[test]
fn nodes_outside_the_shapes_are_refused() {
    assert!(parse_schema(&text("string")).is_none());
    assert!(parse_schema(&Node::Null).is_none());
    assert!(parse_schema(&mapping(vec![("type", text("integer"))])).is_none());
    assert!(parse_schema(&mapping(vec![("type", text("string")), ("format", text("x"))])).is_none());
    assert!(parse_schema(&mapping(vec![("type", text("string")), ("title", Node::Bool(true))]))
        .is_none());
    assert!(parse_schema(&mapping(vec![("type", text("string")), ("type", text("string"))]))
        .is_none());
    assert!(parse_schema(&Node::Mapping(vec![(Node::Number(Some(1)), text("x"))])).is_none());
    assert!(parse_schema(&mapping(vec![("type", text("array"))])).is_none());
    assert!(parse_schema(&mapping(vec![
        ("type", text("array")),
        ("items", mapping(vec![])),
        ("prefixItems", Node::Sequence(vec![])),
    ]))
    .is_none());
    assert!(parse_schema(&mapping(vec![("anyOf", Node::Sequence(vec![])), ("title", text("t"))]))
        .is_none());
    assert!(parse_schema(&mapping(vec![("anyOf", mapping(vec![]))])).is_none());
    assert!(parse_schema(&mapping(vec![("anyOf", Node::Sequence(vec![text("x")]))])).is_none());
    assert!(parse_schema(&mapping(vec![("$ref", Node::Number(Some(1)))])).is_none());
    assert!(parse_schema(&mapping(vec![("$ref", text("x")), ("description", text("d"))]))
        .is_none());
    assert!(parse_schema(&mapping(vec![("const", Node::Number(Some(1)))])).is_none());
    assert!(parse_schema(&mapping(vec![("type", text("object"))])).is_none());
    assert!(parse_schema(&mapping(vec![
        ("type", text("object")),
        ("properties", mapping(vec![])),
        ("required", Node::Null),
    ]))
    .is_none());
    assert!(parse_schema(&mapping(vec![("x-stainless-any", Node::Bool(false))])).is_none());
    assert!(parse_schema(&mapping(vec![
        ("type", text("number")),
        ("x-turbopuffer-width", Node::Number(None)),
    ]))
    .is_none());
    assert!(parse_schema(&mapping(vec![
        ("type", text("number")),
        ("x-turbopuffer-width", Node::Number(Some(1 << 32))),
    ]))
    .is_none());
    assert!(parse_schema(&mapping(vec![
        ("type", text("array")),
        ("prefixItems", Node::Sequence(vec![])),
        ("additionalItems", Node::Null),
    ]))
    .is_none());
}

#[test]
fn managed_and_unmanaged_are_told_apart() {
    let doc = document(vec![
        ("Zeta", mapping(vec![("type", text("string"))])),
        ("FilterB", mapping(vec![("anyOf", Node::Sequence(vec![reference("Used")]))])),
        ("Used", text("not even a schema")),
        ("Unused", mapping(vec![("type", text("string"))])),
        ("ExprA", mapping(vec![
            ("type", text("array")),
            ("items", reference("Zeta")),
        ])),
        ("Filter", reference("FilterB")),
    ]);
    let spec = parse(&doc, &PREFIXES.to_vec()).unwrap();
    assert_eq!(spec.managed_schemas.len(), 3);
    assert_eq!(spec.managed_schemas.name_at(0), "ExprA");
    assert_eq!(spec.managed_schemas.name_at(1), "Filter");
    assert_eq!(spec.managed_schemas.name_at(2), "FilterB");
    assert_eq!(spec.unmanaged_schemas, vec!["Zeta".to_string(), "Used".to_string()]);
    assert!(spec.managed_schemas.contains_key("Filter"));
    assert!(!spec.managed_schemas.contains_key("Zeta"));
    assert!(spec.managed_schemas.get("Unused").is_none());
}

#[test]
fn structural_errors() {
    let prefixes = PREFIXES.to_vec();
    assert!(matches!(parse(&Node::Null, &prefixes), Err(CodegenError::NoSchemas)));
    assert!(matches!(parse(&mapping(vec![]), &prefixes), Err(CodegenError::NoSchemas)));
    assert!(matches!(
        parse(&mapping(vec![("components", mapping(vec![]))]), &prefixes),
        Err(CodegenError::NoSchemas)
    ));
    assert!(matches!(
        parse(
            &mapping(vec![("components", mapping(vec![("schemas", Node::Sequence(vec![]))]))]),
            &prefixes
        ),
        Err(CodegenError::NoSchemas)
    ));
    let unnamed = mapping(vec![(
        "components",
        mapping(vec![("schemas", Node::Mapping(vec![(Node::Bool(true), mapping(vec![]))]))]),
    )]);
    let e = parse(&unnamed, &prefixes).unwrap_err();
    assert!(matches!(e, CodegenError::SchemaName));
    assert_eq!(e.message(), "schema name is not a string");
    let twice = document(vec![("A", mapping(vec![])), ("A", mapping(vec![]))]);
    assert!(matches!(parse(&twice, &prefixes), Err(CodegenError::SchemaName)));
    let bad = document(vec![
        ("Other", text("ignored")),
        ("FilterA", mapping(vec![("type", text("strange"))])),
        ("FilterB", text("also bad")),
    ]);
    match parse(&bad, &prefixes) {
        Err(e) => {
            assert!(matches!(&e, CodegenError::InvalidSchema(n) if n == "FilterA"));
            assert_eq!(e.message(), "schema matches none of the supported shapes: FilterA");
            assert_eq!(e.kind(), ErrorKind::Structure);
        }
        Ok(_) => panic!("a managed entry that is no schema must be refused"),
    }
    let e = parse(&Node::Null, &prefixes).unwrap_err();
    assert_eq!(e.message(), "no schemas found in OpenAPI spec");
}

#[test]
fn generate_renders_go_from_yaml() {
    let yaml = "
openapi: 3.1.0
components:
  schemas:
    Other:
      type: integer
    FilterX:
      anyOf:
        - type: array
          additionalItems: false
          prefixItems:
            - const: Eq
            - type: string
              title: fieldA
    ExprWidth:
      type: number
      x-turbopuffer-width: 32
";
    let out = generate(Language::Go, yaml).unwrap();
    let expected = [
        "// Code generated by turbopuffer-apigen. DO NOT EDIT.\n",
        "\n",
        "package turbopuffer\n",
        "\n",
        "import shimjson \"github.com/turbopuffer/turbopuffer-go/internal/encoding/json\"\n",
        "\n",
        "type ExprWidth float32\n",
        "type FilterX interface {\n",
        "\tsealed_FilterX()\n",
        "}\n",
        "func (v FilterXEq) sealed_FilterX() {}\n",
        "\n",
        "type FilterXEq struct {\n",
        "\tfieldA string\n",
        "}\n",
        "func NewFilterXEq(\n",
        "\tfieldA string,\n",
        ") FilterXEq {\n",
        "\treturn FilterXEq {\n",
        "\t\tfieldA,\n",
        "\t}\n",
        "}\n",
        "func (v FilterXEq) MarshalJSON() ([]byte, error) {\n",
        "\treturn shimjson.Marshal([]any{\n",
        "\t\t\"Eq\",\n",
        "\t\tv.fieldA,\n",
        "\t})\n",
        "}\n",
        "\n",
    ]
    .join("");
    assert_eq!(out, expected);
}

#[test]
fn other_languages_have_no_renderer() {
    let yaml = "components:\n  schemas: {}\n";
    for language in [Language::Java, Language::Python, Language::Typescript] {
        match generate(language, yaml) {
            Err(e) => {
                assert!(matches!(e, CodegenError::Unimplemented));
                assert_eq!(e.message(), "unimplemented");
                assert_eq!(e.kind(), ErrorKind::Unsupported);
            }
            Ok(_) => panic!("only Go has a renderer"),
        }
    }
    assert!(generate(Language::Go, yaml).is_ok());
}

#[test]
fn language_names() {
    assert_eq!(Language::Python.name(), "python");
    assert_eq!(Language::Go.name(), "go");
    assert_eq!(Language::Typescript.name(), "typescript");
    assert_eq!(Language::Java.name(), "java");
    assert!(Language::Python < Language::Go);
}
