use apollo_federation::ast::Argument;
use apollo_federation::ast::Component;
use apollo_federation::ast::ComponentOrigin;
use apollo_federation::ast::Directive;
use apollo_federation::ast::ExtendedType;
use apollo_federation::ast::FieldDefinition;
use apollo_federation::ast::FieldsType;
use apollo_federation::ast::Schema;
use apollo_federation::ast::SchemaDefinition;
use apollo_federation::ast::Value;
use apollo_federation::error::FederationError;
use apollo_federation::federation::DirectiveReferencers;
use apollo_federation::federation::FederationSchema;
use apollo_federation::federation::FederationSpecDefinition;
use apollo_federation::federation::KeyDirectiveArguments;
use apollo_federation::federation::Referencers;
use apollo_federation::federation::Version;
use apollo_federation::operation::FieldSelection;
use apollo_federation::operation::InlineFragmentSelection;
use apollo_federation::operation::Selection;
use apollo_federation::operation::SelectionSet;
use apollo_federation::position::FieldDefinitionPosition;
use apollo_federation::position::InterfaceFieldDefinitionPosition;
use apollo_federation::position::ObjectFieldDefinitionPosition;
use apollo_federation::position::UnionTypenameFieldDefinitionPosition;
use apollo_federation::subgraph_metadata::ExternalMetadata;
use apollo_federation::subgraph_metadata::SubgraphMetadata;

const FED1: FederationSpecDefinition = FederationSpecDefinition {
    version: Version { major: 1, minor: 0 },
};
const FED2: FederationSpecDefinition = FederationSpecDefinition {
    version: Version { major: 2, minor: 3 },
};

fn object_field(named_type: &str, field_name: &str) -> FieldDefinitionPosition {
    FieldDefinitionPosition::Object(ObjectFieldDefinitionPosition {
        named_type: named_type.to_string(),
        field_name: field_name.to_string(),
    })
}

fn interface_field(named_type: &str, field_name: &str) -> FieldDefinitionPosition {
    FieldDefinitionPosition::Interface(InterfaceFieldDefinitionPosition {
        named_type: named_type.to_string(),
        field_name: field_name.to_string(),
    })
}

fn key(origin: ComponentOrigin, fields: &str) -> Component {
    Component {
        origin,
        directive: Directive {
            name: "federation__key".to_string(),
            arguments: vec![Argument {
                name: "fields".to_string(),
                value: Value::String(fields.to_string()),
            }],
        },
    }
}

fn extends() -> Component {
    Component {
        origin: ComponentOrigin::Definition,
        directive: Directive { name: "extends".to_string(), arguments: Vec::new() },
    }
}

fn external() -> Directive {
    Directive { name: "external".to_string(), arguments: Vec::new() }
}

/// A field with an `@external` directive.
fn marked(name: &str) -> (String, FieldDefinition) {
    (name.to_string(), FieldDefinition { directives: vec![external()] })
}

/// A field without directives.
fn plain(name: &str) -> (String, FieldDefinition) {
    (name.to_string(), FieldDefinition { directives: Vec::new() })
}

fn node(directives: Vec<Component>, fields: Vec<(String, FieldDefinition)>) -> FieldsType {
    FieldsType { directives, fields }
}

fn names(of: Vec<&str>) -> Vec<String> {
    of.into_iter().map(|name| name.to_string()).collect()
}

/// `A` has keys in its definition and in an extension, `B` is extended as a whole, `C` is
/// external as a whole, and the interface `I` has a key in an extension.
fn schema() -> FederationSchema {
    let types = vec![
        ("Text", ExtendedType::Scalar),
        (
            "A",
            ExtendedType::Object(node(
                vec![
                    key(ComponentOrigin::Definition, "id"),
                    key(ComponentOrigin::Extension, "sku upc"),
                ],
                vec![marked("id"), marked("sku"), plain("upc"), plain("price")],
            )),
        ),
        (
            "B",
            ExtendedType::Object(node(
                vec![key(ComponentOrigin::Definition, "id"), extends()],
                vec![marked("id"), marked("name")],
            )),
        ),
        (
            "C",
            ExtendedType::Object(node(
                vec![Component { origin: ComponentOrigin::Definition, directive: external() }],
                vec![plain("x"), plain("y")],
            )),
        ),
        (
            "I",
            ExtendedType::Interface(node(
                vec![key(ComponentOrigin::Extension, "id")],
                vec![marked("id"), marked("other")],
            )),
        ),
    ];
    FederationSchema {
        schema: Schema {
            schema_definition: SchemaDefinition { directives: Vec::new() },
            types: types
                .into_iter()
                .map(|(name, ty)| (name.to_string(), ty))
                .collect(),
        },
        referencers: Referencers {
            directives: vec![
                (
                    "external".to_string(),
                    DirectiveReferencers {
                        object_types: names(vec!["C"]),
                        object_fields: vec![
                            ObjectFieldDefinitionPosition {
                                named_type: "A".to_string(),
                                field_name: "id".to_string(),
                            },
                            ObjectFieldDefinitionPosition {
                                named_type: "A".to_string(),
                                field_name: "sku".to_string(),
                            },
                            ObjectFieldDefinitionPosition {
                                named_type: "B".to_string(),
                                field_name: "id".to_string(),
                            },
                            ObjectFieldDefinitionPosition {
                                named_type: "B".to_string(),
                                field_name: "name".to_string(),
                            },
                        ],
                        interface_types: Vec::new(),
                        interface_fields: vec![
                            InterfaceFieldDefinitionPosition {
                                named_type: "I".to_string(),
                                field_name: "id".to_string(),
                            },
                            InterfaceFieldDefinitionPosition {
                                named_type: "I".to_string(),
                                field_name: "other".to_string(),
                            },
                        ],
                    },
                ),
                (
                    "federation__key".to_string(),
                    DirectiveReferencers {
                        object_types: names(vec!["A", "B"]),
                        object_fields: Vec::new(),
                        interface_types: names(vec!["I"]),
                        interface_fields: Vec::new(),
                    },
                ),
            ],
        },
        federation_directives: vec![
            ("key".to_string(), "federation__key".to_string()),
            ("external".to_string(), "external".to_string()),
            ("extends".to_string(), "extends".to_string()),
        ],
    }
}

fn key_directive_arguments(application: &Directive) -> Result<KeyDirectiveArguments, FederationError> {
    for argument in &application.arguments {
        if argument.name == "fields" {
            if let Some(fields) = argument.value.as_str() {
                return Ok(KeyDirectiveArguments { fields: fields.clone() });
            }
        }
    }
    Err(FederationError::internal("no field set"))
}

fn collect_target_fields(
    schema: &Schema,
    named_type: &String,
    fields: &String,
) -> Result<Vec<FieldDefinitionPosition>, FederationError> {
    let is_interface = schema.get_interface_type(named_type).is_ok();
    let node = if is_interface {
        schema.get_interface_type(named_type)?
    } else {
        schema.get_object_type(named_type)?
    };
    fields
        .split(' ')
        .map(|name| {
            if !node.fields.iter().any(|(field, _)| field == name) {
                return Err(FederationError::internal_about("no field ", name));
            }
            Ok(if is_interface {
                interface_field(named_type, name)
            } else {
                object_field(named_type, name)
            })
        })
        .collect()
}

fn read(
    schema: &FederationSchema,
    definition: &'static FederationSpecDefinition,
) -> Result<SubgraphMetadata, FederationError> {
    SubgraphMetadata::new(schema, definition, &key_directive_arguments, &collect_target_fields)
}

fn error<T>(result: Result<T, FederationError>) -> FederationError {
    match result {
        Ok(_) => panic!("no error"),
        Err(error) => error,
    }
}

#[test]
fn fields_are_external_unless_a_key_on_an_extension_has_them() {
    let metadata = read(&schema(), &FED2).unwrap();
    let external = metadata.external_metadata();
    // A key in the definition of a type does not count.
    assert!(external.is_external(&object_field("A", "id")));
    assert!(!external.is_fake_external(&object_field("A", "id")));
    // A key in an extension counts.
    assert!(!external.is_external(&object_field("A", "sku")));
    assert!(external.is_fake_external(&object_field("A", "sku")));
    // A field that is not marked as external is neither.
    assert!(!external.is_fake_external(&object_field("A", "upc")));
    assert!(!external.is_external(&object_field("A", "upc")));
    // With `@extends` all keys count.
    assert!(!external.is_external(&object_field("B", "id")));
    assert!(external.is_fake_external(&object_field("B", "id")));
    assert!(external.is_external(&object_field("B", "name")));
    assert!(!external.is_external(&object_field("A", "price")));
    // Interfaces.
    assert!(!external.is_external(&interface_field("I", "id")));
    assert!(external.is_fake_external(&interface_field("I", "id")));
    assert!(external.is_external(&interface_field("I", "other")));
    // The kind of the type is part of the position.
    assert!(!external.is_external(&object_field("I", "other")));
    assert!(!external.is_external(&FieldDefinitionPosition::Union(
        UnionTypenameFieldDefinitionPosition { named_type: "B".to_string() }
    )));
    assert_eq!(metadata.federation_spec_definition().version(), &Version { major: 2, minor: 3 });
}

#[test]
fn external_types_count_from_the_second_major_version_on() {
    let second = read(&schema(), &FED2).unwrap();
    assert!(second.external_metadata().is_external(&object_field("C", "x")));
    assert!(second.external_metadata().is_external(&object_field("C", "y")));
    assert!(!second.external_metadata().is_external(&object_field("C", "z")));
    let first = read(&schema(), &FED1).unwrap();
    assert!(!first.external_metadata().is_external(&object_field("C", "x")));
    assert!(first.external_metadata().is_external(&object_field("A", "id")));
    assert!(first.external_metadata().is_fake_external(&object_field("A", "sku")));
}

#[test]
fn versions_satisfy_lower_minor_versions() {
    let version = |major, minor| Version { major, minor };
    assert!(version(2, 0).satisfies(&version(2, 0)));
    assert!(version(2, 9).satisfies(&version(2, 0)));
    assert!(!version(2, 0).satisfies(&version(2, 1)));
    assert!(!version(1, 9).satisfies(&version(2, 0)));
    assert!(!version(3, 0).satisfies(&version(2, 0)));
    assert!(!version(0, 9).satisfies(&version(0, 8)));
    assert!(version(0, 8).satisfies(&version(0, 8)));
}

#[test]
fn collections_have_their_fields_in_order() {
    let schema = schema();
    let key = |kind: u8, named_type: &str, field_name: &str| {
        (kind, named_type.to_string(), field_name.to_string())
    };
    let external = ExternalMetadata::collect_external_fields(&FED2, &schema).unwrap();
    assert_eq!(
        external.into_iter().collect::<Vec<_>>(),
        vec![
            key(0, "A", "id"),
            key(0, "A", "sku"),
            key(0, "B", "id"),
            key(0, "B", "name"),
            key(1, "I", "id"),
            key(1, "I", "other"),
        ]
    );
    let fake = ExternalMetadata::collect_fake_externals(
        &FED2,
        &schema,
        &key_directive_arguments,
        &collect_target_fields,
    )
    .unwrap();
    assert_eq!(
        fake.into_iter().collect::<Vec<_>>(),
        vec![
            key(0, "A", "sku"),
            key(0, "B", "id"),
            key(1, "I", "id"),
        ]
    );
    let on_types = ExternalMetadata::collect_fields_on_external_types(&FED2, &schema).unwrap();
    assert_eq!(
        on_types.into_iter().collect::<Vec<_>>(),
        vec![key(0, "C", "x"), key(0, "C", "y")]
    );
}

#[test]
fn a_field_is_collected_once() {
    let mut schema = schema();
    schema.referencers.directives[0].1.object_types = names(vec!["C", "C"]);
    let on_types = ExternalMetadata::collect_fields_on_external_types(&FED2, &schema).unwrap();
    assert_eq!(on_types.len(), 2);
    schema.referencers.directives[1].1.object_types = names(vec!["A", "B", "A"]);
    let fake = ExternalMetadata::collect_fake_externals(
        &FED2,
        &schema,
        &key_directive_arguments,
        &collect_target_fields,
    )
    .unwrap();
    assert_eq!(fake.len(), 3);
}

#[test]
fn a_key_makes_only_fields_with_the_directive_fake() {
    let mut schema = schema();
    schema.schema.types[3].1 = ExtendedType::Object(node(
        vec![
            Component { origin: ComponentOrigin::Definition, directive: external() },
            key(ComponentOrigin::Extension, "x y"),
        ],
        vec![plain("x"), marked("y")],
    ));
    schema.referencers.directives[0].1.object_fields.push(ObjectFieldDefinitionPosition {
        named_type: "C".to_string(),
        field_name: "y".to_string(),
    });
    schema.referencers.directives[1].1.object_types.push("C".to_string());
    let second = read(&schema, &FED2).unwrap();
    let external = second.external_metadata();
    assert!(!external.is_fake_external(&object_field("C", "x")));
    assert!(external.is_external(&object_field("C", "x")));
    assert!(external.is_fake_external(&object_field("C", "y")));
    assert!(!external.is_external(&object_field("C", "y")));
    let first = read(&schema, &FED1).unwrap();
    let external = first.external_metadata();
    assert!(!external.is_external(&object_field("C", "x")));
    assert!(external.is_fake_external(&object_field("C", "y")));
    assert!(!external.is_external(&object_field("C", "y")));
}

#[test]
fn nothing_is_fake_where_nothing_is_marked() {
    let collect = |schema: &FederationSchema| {
        ExternalMetadata::collect_fake_externals(
            &FED2,
            schema,
            &key_directive_arguments,
            &collect_target_fields,
        )
    };
    // No referencers of `@external`.
    let mut without = schema();
    without.referencers.directives.remove(0);
    assert!(collect(&without).unwrap().is_empty());
    // No definition of `@external`.
    let mut undefined = schema();
    undefined.federation_directives.remove(1);
    assert!(collect(&undefined).unwrap().is_empty());
    // The keys are still read.
    without.schema.types[4].1 = ExtendedType::Interface(node(
        vec![key(ComponentOrigin::Extension, "gone")],
        vec![plain("id")],
    ));
    assert_eq!(error(collect(&without)), FederationError::internal("no field gone"));
    without.schema.types[4].1 = ExtendedType::Interface(node(
        vec![key(ComponentOrigin::Definition, "gone")],
        vec![plain("id")],
    ));
    assert!(collect(&without).unwrap().is_empty());
    // The referencers of `@key` are needed.
    without.referencers.directives.remove(0);
    assert_eq!(
        error(collect(&without)),
        FederationError::MissingReferencers { directive_name: "federation__key".to_string() }
    );
}

#[test]
fn metadata_agrees_with_the_collections() {
    let schema = schema();
    let metadata = read(&schema, &FED2).unwrap();
    let external = ExternalMetadata::collect_external_fields(&FED2, &schema).unwrap();
    let fake = ExternalMetadata::collect_fake_externals(
        &FED2,
        &schema,
        &key_directive_arguments,
        &collect_target_fields,
    )
    .unwrap();
    let on_types = ExternalMetadata::collect_fields_on_external_types(&FED2, &schema).unwrap();
    for (named_type, field_name) in [
        ("A", "id"),
        ("A", "sku"),
        ("A", "upc"),
        ("A", "price"),
        ("B", "id"),
        ("B", "name"),
        ("C", "x"),
        ("C", "y"),
    ] {
        let position = object_field(named_type, field_name);
        let key = position.key();
        let found = metadata.external_metadata();
        assert_eq!(found.is_fake_external(&position), fake.contains(&key));
        assert_eq!(
            found.is_external(&position),
            (external.contains(&key) || on_types.contains(&key)) && !fake.contains(&key)
        );
    }
}

#[test]
fn errors_come_in_order() {
    let mut without = schema();
    without.federation_directives.clear();
    assert_eq!(
        error(read(&without, &FED2)),
        FederationError::UndefinedDirective { name_in_spec: "external".to_string() }
    );
    without.federation_directives.push(("external".to_string(), "external".to_string()));
    assert_eq!(
        error(read(&without, &FED2)),
        FederationError::UndefinedDirective { name_in_spec: "extends".to_string() }
    );
    without.federation_directives.push(("extends".to_string(), "extends".to_string()));
    assert_eq!(
        error(read(&without, &FED2)),
        FederationError::UndefinedDirective { name_in_spec: "key".to_string() }
    );
    without.federation_directives.push(("key".to_string(), "nokey".to_string()));
    assert_eq!(
        error(read(&without, &FED2)),
        FederationError::MissingReferencers { directive_name: "nokey".to_string() }
    );

    let mut without = schema();
    without.referencers.directives.remove(0);
    assert_eq!(
        error(read(&without, &FED2)),
        FederationError::MissingReferencers { directive_name: "external".to_string() }
    );

    let mut without = schema();
    without.referencers.directives[0].1.object_types = names(vec!["I"]);
    assert_eq!(
        error(read(&without, &FED2)),
        FederationError::MissingObjectType { named_type: "I".to_string() }
    );
    assert!(read(&without, &FED1).is_ok());

    let mut without = schema();
    without.referencers.directives[1].1.interface_types = names(vec!["A"]);
    assert_eq!(
        error(read(&without, &FED1)),
        FederationError::MissingInterfaceType { named_type: "A".to_string() }
    );

    let mut without = schema();
    without.schema.types[4].1 =
        ExtendedType::Interface(node(
            vec![key(ComponentOrigin::Extension, "gone")],
            vec![marked("id"), marked("other")],
        ));
    assert_eq!(error(read(&without, &FED2)), FederationError::internal("no field gone"));

    let mut without = schema();
    without.schema.types[4].1 = ExtendedType::Interface(node(
        vec![Component {
            origin: ComponentOrigin::Extension,
            directive: Directive { name: "federation__key".to_string(), arguments: Vec::new() },
        }],
        vec![marked("id"), marked("other")],
    ));
    assert_eq!(error(read(&without, &FED2)), FederationError::internal("no field set"));
}

#[test]
fn keys_that_do_not_count_are_not_resolved() {
    let mut schema = schema();
    schema.schema.types[4].1 =
        ExtendedType::Interface(node(
            vec![key(ComponentOrigin::Definition, "gone")],
            vec![marked("id"), marked("other")],
        ));
    let metadata = read(&schema, &FED2).unwrap();
    assert!(metadata.external_metadata().is_external(&interface_field("I", "id")));
}

fn select(field_position: FieldDefinitionPosition, inner: Option<Vec<Selection>>) -> Selection {
    Selection::Field(FieldSelection {
        field_position,
        selection_set: inner.map(|selections| SelectionSet { selections }),
    })
}

fn fragment(selections: Vec<Selection>) -> Selection {
    Selection::InlineFragment(InlineFragmentSelection {
        selection_set: SelectionSet { selections },
    })
}

#[test]
fn external_fields_are_seen_at_any_depth() {
    let metadata = read(&schema(), &FED2).unwrap();
    let external = metadata.external_metadata();
    let selects =
        |selections: Vec<Selection>| external.selects_any_external_field(&SelectionSet { selections });
    assert!(!selects(vec![]));
    assert!(!selects(vec![fragment(vec![])]));
    assert!(!selects(vec![select(object_field("A", "sku"), None)]));
    assert!(selects(vec![
        select(object_field("A", "sku"), None),
        select(object_field("A", "id"), None),
    ]));
    assert!(selects(vec![select(
        object_field("A", "price"),
        Some(vec![fragment(vec![select(object_field("C", "y"), None)])]),
    )]));
    assert!(!selects(vec![select(
        object_field("A", "price"),
        Some(vec![fragment(vec![select(object_field("B", "id"), Some(vec![]))])]),
    )]));
    assert!(selects(vec![select(object_field("B", "name"), Some(vec![]))]));
}

#[test]
fn copies_say_the_same() {
    let metadata = read(&schema(), &FED2).unwrap();
    let copied = metadata.clone();
    let external = copied.external_metadata();
    assert!(external.is_external(&object_field("A", "id")));
    assert!(external.is_fake_external(&object_field("A", "sku")));
    assert!(external.is_external(&object_field("C", "x")));
    assert_eq!(copied.federation_spec_definition(), metadata.federation_spec_definition());
}
