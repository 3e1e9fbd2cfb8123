use turbopuffer_apigen::codegen::shared::{build_tuple_fields, TupleField};
use turbopuffer_apigen::codegen::OpenApiSchema;

fn string_schema(title: Option<&str>) -> OpenApiSchema {
    OpenApiSchema::String { title: title.map(|t| t.to_string()) }
}

fn const_schema(value: &str) -> OpenApiSchema {
    OpenApiSchema::Const { sconst: value.to_string(), title: None }
}

fn tuple(items: Vec<OpenApiSchema>, flatten: bool) -> OpenApiSchema {
    OpenApiSchema::ArrayTuple {
        additional_items: false,
        prefix_items: items,
        x_turbopuffer_variant_name: None,
        x_turbopuffer_variant_drop_on_conflict: false,
        x_turbopuffer_flatten: flatten,
        title: None,
    }
}

fn describe(fields: &[TupleField]) -> Vec<String> {
    fields
        .iter()
        .map(|f| match f {
            TupleField::Normal { name, .. } => format!("n:{name}"),
            TupleField::Const(s) => format!("c:{s}"),
            TupleField::StartIndent => "[".to_string(),
            TupleField::EndIndent => "]".to_string(),
        })
        .collect()
}

#[test]
fn literals_and_slots_keep_their_positions() {
    let items = vec![
        const_schema("Eq"),
        string_schema(Some("fieldA")),
        string_schema(None),
        const_schema("end"),
        string_schema(None),
    ];
    let fields = build_tuple_fields(&items);
    assert_eq!(describe(&fields), vec!["c:Eq", "n:fieldA", "n:f2", "c:end", "n:f4"]);
    let normal = fields.iter().filter(|f| matches!(f, TupleField::Normal { .. })).count();
    let literal = fields.iter().filter(|f| matches!(f, TupleField::Const(_))).count();
    assert_eq!(normal + literal, items.len());
}

#[test]
fn normal_field_refers_to_its_item() {
    let items = vec![OpenApiSchema::Number { title: None, x_turbopuffer_width: Some(32) }];
    let fields = build_tuple_fields(&items);
    assert_eq!(fields.len(), 1);
    match &fields[0] {
        TupleField::Normal { name, schema } => {
            assert_eq!(name, "f0");
            assert!(matches!(
                schema,
                OpenApiSchema::Number { x_turbopuffer_width: Some(32), .. }
            ));
        }
        _ => panic!("a number is a value slot"),
    }
}

#[test]
fn empty_tuple_has_no_fields() {
    assert!(build_tuple_fields(&Vec::new()).is_empty());
}

#[test]
fn flattened_tuple_is_bracketed() {
    let items = vec![
        string_schema(None),
        tuple(
            vec![
                string_schema(None),
                tuple(vec![const_schema("deep"), string_schema(None)], true),
                string_schema(None),
            ],
            true,
        ),
        string_schema(None),
        tuple(vec![string_schema(None)], false),
    ];
    let fields = build_tuple_fields(&items);
    assert_eq!(
        describe(&fields),
        vec!["n:f0", "[", "n:f1", "[", "c:deep", "n:f3", "]", "n:f5", "]", "n:f7", "n:f8"]
    );
    let mut depth = 0usize;
    let mut top_level = 0usize;
    for f in &fields {
        match f {
            TupleField::StartIndent => {
                if depth == 0 {
                    top_level += 1;
                }
                depth += 1;
            }
            TupleField::EndIndent => depth -= 1,
            _ => {
                if depth == 0 {
                    top_level += 1;
                }
            }
        }
    }
    assert_eq!(depth, 0);
    assert_eq!(top_level, items.len());
}

#[test]
fn positions_count_past_nine() {
    let items: Vec<OpenApiSchema> = (0..12).map(|_| string_schema(None)).collect();
    let fields = build_tuple_fields(&items);
    let names = describe(&fields);
    assert_eq!(names[9], "n:f9");
    assert_eq!(names[10], "n:f10");
    assert_eq!(names[11], "n:f11");
}
