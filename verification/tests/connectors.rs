use std::ops::Range;

use apollo_federation::ast::Argument;
use apollo_federation::ast::Component;
use apollo_federation::ast::ComponentOrigin;
use apollo_federation::ast::Directive;
use apollo_federation::ast::ExtendedType;
use apollo_federation::ast::FieldDefinition;
use apollo_federation::ast::FieldsType;
use apollo_federation::ast::Schema;
use apollo_federation::ast::SchemaDefinition;
use apollo_federation::ast::Value;
use apollo_federation::connect::connector::ConnectArgument;
use apollo_federation::connect::connector::ConnectDirectiveArguments;
use apollo_federation::connect::connector::ConnectHTTPArguments;
use apollo_federation::connect::connector::ConnectHTTPField;
use apollo_federation::connect::extract::extract_connect_directive_arguments;
use apollo_federation::connect::extract::extract_source_directive_arguments;
use apollo_federation::connect::headers::collect_headers;
use apollo_federation::connect::headers::Header;
use apollo_federation::connect::headers::HeaderSource;
use apollo_federation::connect::source::SourceArgument;
use apollo_federation::connect::source::SourceDirectiveArguments;
use apollo_federation::connect::source::SourceHTTPArguments;
use apollo_federation::connect::source::SourceHTTPField;
use apollo_federation::error::FederationError;
use apollo_federation::position::InterfaceFieldDefinitionPosition;
use apollo_federation::position::ObjectFieldDefinitionPosition;
use apollo_federation::position::ObjectOrInterfaceFieldDefinitionPosition;
use apollo_federation::position::ObjectOrInterfaceFieldDirectivePosition;

const CONNECTORS: &str = r#"
extend schema
  @link(url: "https://specs.apollo.dev/connect/v0.1", import: ["@connect", "@source"])
  @source(
    name: "json"
    http: {
      baseURL: "https://jsonplaceholder.typicode.com/"
      headers: [{ name: "AuthToken", from: "X-Auth-Token" }, { name: "user-agent", value: "Firefox" }]
    }
  )

type Query {
  users: [User] @connect(source: "json", http: { GET: "/users" }, selection: "id name")
  posts: [Post] @connect(source: "json", http: { GET: "/posts" }, selection: "id title body")
}

type User { id: ID! name: String }
type Post { id: ID! title: String body: String }
"#;

fn value(from: &apollo_compiler::ast::Value) -> Value {
    match from {
        apollo_compiler::ast::Value::Null => Value::Null,
        apollo_compiler::ast::Value::Enum(name) => Value::Enum(name.to_string()),
        apollo_compiler::ast::Value::Variable(name) => Value::Variable(name.to_string()),
        apollo_compiler::ast::Value::String(text) => Value::String(text.clone()),
        apollo_compiler::ast::Value::Float(number) => Value::Float(number.to_string()),
        apollo_compiler::ast::Value::Int(number) => Value::Int(number.to_string()),
        apollo_compiler::ast::Value::Boolean(truth) => Value::Boolean(*truth),
        apollo_compiler::ast::Value::List(items) => Value::List(items.iter().map(|item| value(item)).collect()),
        apollo_compiler::ast::Value::Object(fields) => Value::Object(
            fields
                .iter()
                .map(|(name, item)| (name.to_string(), value(item)))
                .collect(),
        ),
    }
}

fn directive(from: &apollo_compiler::ast::Directive) -> Directive {
    Directive {
        name: from.name.to_string(),
        arguments: from
            .arguments
            .iter()
            .map(|argument| Argument {
                name: argument.name.to_string(),
                value: value(&argument.value),
            })
            .collect(),
    }
}

fn component(from: &apollo_compiler::schema::Component<apollo_compiler::ast::Directive>) -> Component {
    Component {
        origin: match from.origin.extension_id() {
            Some(_) => ComponentOrigin::Extension,
            None => ComponentOrigin::Definition,
        },
        directive: directive(from),
    }
}

fn field(from: &apollo_compiler::ast::FieldDefinition) -> FieldDefinition {
    FieldDefinition {
        directives: from.directives.iter().map(|item| directive(item)).collect(),
    }
}

fn schema(sdl: &str) -> Schema {
    let from = match apollo_compiler::Schema::parse(sdl, "schema.graphql") {
        Ok(from) => from,
        Err(error) => panic!("{}", error),
    };
    Schema {
        schema_definition: SchemaDefinition {
            directives: from.schema_definition.directives.iter().map(component).collect(),
        },
        types: from
            .types
            .iter()
            .map(|(name, ty)| {
                let ty = match ty {
                    apollo_compiler::schema::ExtendedType::Scalar(_) => ExtendedType::Scalar,
                    apollo_compiler::schema::ExtendedType::Object(node) => ExtendedType::Object(FieldsType {
                        directives: node.directives.iter().map(component).collect(),
                        fields: node
                            .fields
                            .iter()
                            .map(|(name, item)| (name.to_string(), field(item)))
                            .collect(),
                    }),
                    apollo_compiler::schema::ExtendedType::Interface(node) => ExtendedType::Interface(FieldsType {
                        directives: node.directives.iter().map(component).collect(),
                        fields: node
                            .fields
                            .iter()
                            .map(|(name, item)| (name.to_string(), field(item)))
                            .collect(),
                    }),
                    apollo_compiler::schema::ExtendedType::Union(_) => ExtendedType::Union,
                    apollo_compiler::schema::ExtendedType::Enum(_) => ExtendedType::Enum,
                    apollo_compiler::schema::ExtendedType::InputObject(_) => ExtendedType::InputObject,
                };
                (name.to_string(), ty)
            })
            .collect(),
    }
}

/// A selection of plain fields, each with its place in the text.
#[derive(Debug, Clone, PartialEq)]
struct SubSelection {
    selections: Vec<(String, Range<usize>)>,
    range: Range<usize>,
}

fn parse(text: &String) -> Result<SubSelection, String> {
    let mut selections = Vec::new();
    let mut start = 0;
    for word in text.split(' ') {
        if word.is_empty() || !word.chars().all(|c| c.is_ascii_alphanumeric()) {
            return Err(format!("unexpected `{}`", word));
        }
        selections.push((word.to_string(), start..start + word.len()));
        start += word.len() + 1;
    }
    Ok(SubSelection { selections, range: 0..text.len() })
}

fn from_headers_arg(value: &Value) -> Vec<Result<Header, String>> {
    let items = match value {
        Value::List(items) => items,
        _ => return vec![Err("`headers` is not a list".to_string())],
    };
    items
        .iter()
        .map(|item| {
            let fields = item.as_object().ok_or("header is not an object".to_string())?;
            let get = |name: &str| {
                fields
                    .iter()
                    .find(|(key, _)| key == name)
                    .and_then(|(_, value)| value.as_str())
            };
            let name = get("name").ok_or("missing `name`".to_string())?.to_lowercase();
            match (get("from"), get("value")) {
                (Some(from), None) => Ok(Header {
                    name,
                    source: HeaderSource::From(from.to_lowercase()),
                }),
                (None, Some(value)) => Ok(Header {
                    name,
                    source: HeaderSource::Value(value.clone()),
                }),
                _ => Err(format!("either `from` or `value` must be set: {}", name)),
            }
        })
        .collect()
}

fn string(text: &str) -> Value {
    Value::String(text.to_string())
}

fn object(fields: Vec<(&str, Value)>) -> Value {
    Value::Object(pairs(fields))
}

fn pairs(fields: Vec<(&str, Value)>) -> Vec<(String, Value)> {
    fields
        .into_iter()
        .map(|(name, value)| (name.to_string(), value))
        .collect()
}

fn application(name: &str, arguments: Vec<(&str, Value)>) -> Directive {
    Directive {
        name: name.to_string(),
        arguments: arguments
            .into_iter()
            .map(|(name, value)| Argument { name: name.to_string(), value })
            .collect(),
    }
}

fn position() -> ObjectOrInterfaceFieldDirectivePosition {
    ObjectOrInterfaceFieldDirectivePosition {
        field: ObjectOrInterfaceFieldDefinitionPosition::Object(ObjectFieldDefinitionPosition {
            named_type: "Query".to_string(),
            field_name: "users".to_string(),
        }),
        directive_name: "connect".to_string(),
        directive_index: 0,
    }
}

fn read_source(arguments: Vec<(&str, Value)>) -> Result<SourceDirectiveArguments, FederationError> {
    SourceDirectiveArguments::try_from(&application("source", arguments), &from_headers_arg)
}

fn read_source_http(fields: Vec<(&str, Value)>) -> Result<SourceHTTPArguments, FederationError> {
    SourceHTTPArguments::try_from(&pairs(fields), &from_headers_arg)
}

fn read_connect(
    arguments: Vec<(&str, Value)>,
) -> Result<ConnectDirectiveArguments<SubSelection>, FederationError> {
    ConnectDirectiveArguments::from_position_and_directive(
        position(),
        &application("connect", arguments),
        &parse,
        &from_headers_arg,
    )
}

fn read_connect_http(
    fields: Vec<(&str, Value)>,
) -> Result<ConnectHTTPArguments<SubSelection>, FederationError> {
    ConnectHTTPArguments::try_from(&pairs(fields), &parse, &from_headers_arg)
}

fn message<T>(result: Result<T, FederationError>) -> String {
    match result {
        Err(FederationError::Internal { message }) => message,
        Err(_) => panic!("another error"),
        Ok(_) => panic!("no error"),
    }
}

#[test]
fn it_extracts_at_source() {
    let schema = schema(CONNECTORS);
    let sources =
        extract_source_directive_arguments(&schema, &"source".to_string(), &from_headers_arg).unwrap();

    assert_eq!(sources.len(), 1);
    assert_eq!(sources[0].name, "json");
    let base_url = url::Url::parse(&sources[0].http.base_url).unwrap();
    assert_eq!(base_url.as_str(), sources[0].http.base_url);
    assert_eq!(base_url.scheme(), "https");
    assert!(!base_url.cannot_be_a_base());
    assert_eq!(base_url.username(), "");
    assert_eq!(base_url.password(), None);
    assert_eq!(base_url.host(), Some(url::Host::Domain("jsonplaceholder.typicode.com")));
    assert_eq!(base_url.port(), None);
    assert_eq!(base_url.path(), "/");
    assert_eq!(base_url.query(), None);
    assert_eq!(base_url.fragment(), None);
    let headers: Vec<_> = sources[0].http.headers.iter().collect();
    assert_eq!(
        headers,
        vec![
            (&"authtoken".to_string(), &HeaderSource::From("x-auth-token".to_string())),
            (&"user-agent".to_string(), &HeaderSource::Value("Firefox".to_string())),
        ]
    );
}

#[test]
fn it_extracts_at_connect() {
    let schema = schema(CONNECTORS);
    let connects = extract_connect_directive_arguments(
        &schema,
        &"connect".to_string(),
        &parse,
        &from_headers_arg,
    )
    .unwrap();

    assert_eq!(connects.len(), 2);
    let expected = vec![
        ("users", "/users", vec![("id", 0..2), ("name", 3..7)], 0..7),
        ("posts", "/posts", vec![("id", 0..2), ("title", 3..8), ("body", 9..13)], 0..13),
    ];
    for (connect, (field_name, get, selections, range)) in connects.iter().zip(expected) {
        assert_eq!(
            connect.position,
            ObjectOrInterfaceFieldDirectivePosition {
                field: ObjectOrInterfaceFieldDefinitionPosition::Object(
                    ObjectFieldDefinitionPosition {
                        named_type: "Query".to_string(),
                        field_name: field_name.to_string(),
                    }
                ),
                directive_name: "connect".to_string(),
                directive_index: 0,
            }
        );
        assert_eq!(connect.source, Some("json".to_string()));
        let http = connect.http.as_ref().unwrap();
        assert_eq!(http.get, Some(get.to_string()));
        assert_eq!(http.post, None);
        assert_eq!(http.patch, None);
        assert_eq!(http.put, None);
        assert_eq!(http.delete, None);
        assert_eq!(http.body, None);
        assert!(http.headers.is_empty());
        assert_eq!(
            connect.selection,
            SubSelection {
                selections: selections
                    .into_iter()
                    .map(|(name, range)| (name.to_string(), range))
                    .collect(),
                range,
            }
        );
        assert!(!connect.entity);
    }
}

#[test]
fn applications_are_found_on_all_fields_with_their_index() {
    let schema = schema(
        r#"
        interface Node { id: ID! @connect(selection: "a") @other @connect(selection: "b") }
        union Any = Thing
        type Thing implements Node {
          id: ID!
          name: String @other @connect(selection: "c", entity: true)
        }
        extend type Thing { extra: Int @connect(selection: "d") }
        "#,
    );
    let connects = extract_connect_directive_arguments(
        &schema,
        &"connect".to_string(),
        &parse,
        &from_headers_arg,
    )
    .unwrap();
    let mut found = Vec::new();
    for connect in &connects {
        let (kind, named_type, field_name) = match &connect.position.field {
            ObjectOrInterfaceFieldDefinitionPosition::Object(ObjectFieldDefinitionPosition {
                named_type,
                field_name,
            }) => ("object", named_type.as_str(), field_name.as_str()),
            ObjectOrInterfaceFieldDefinitionPosition::Interface(
                InterfaceFieldDefinitionPosition { named_type, field_name },
            ) => ("interface", named_type.as_str(), field_name.as_str()),
        };
        found.push((
            kind,
            named_type,
            field_name,
            connect.position.directive_index,
            connect.selection.selections[0].0.as_str(),
            connect.entity,
        ));
    }
    assert_eq!(
        found,
        vec![
            ("interface", "Node", "id", 0, "a", false),
            ("interface", "Node", "id", 2, "b", false),
            ("object", "Thing", "name", 1, "c", true),
            ("object", "Thing", "extra", 0, "d", false),
        ]
    );
}

#[test]
fn first_connector_that_cannot_be_read_decides() {
    let schema = schema(
        r#"
        type Query {
          a: Int @connect(selection: "a")
          b: Int @connect(selection: "?")
          c: Int @connect
        }
        "#,
    );
    let connects = extract_connect_directive_arguments(
        &schema,
        &"connect".to_string(),
        &parse,
        &from_headers_arg,
    );
    assert_eq!(message(connects), "unexpected `?`");
}

#[test]
fn sources_are_those_of_the_name_in_order() {
    let schema = schema(
        r#"
        schema
          @s(name: "a", http: { baseURL: "http://a.example" })
          @other(name: 1)
          @s(name: "b", http: { baseURL: "http://b.example/x/../y" }) { query: Query }
        type Query { a: Int }
        "#,
    );
    let sources =
        extract_source_directive_arguments(&schema, &"s".to_string(), &from_headers_arg).unwrap();
    let found: Vec<_> = sources
        .iter()
        .map(|source| (source.name.as_str(), source.http.base_url.as_str()))
        .collect();
    assert_eq!(found, vec![("a", "http://a.example/"), ("b", "http://b.example/y")]);

    let other = extract_source_directive_arguments(&schema, &"other".to_string(), &from_headers_arg);
    assert_eq!(message(other), "`name` field in `@source` directive is not a string");
}

#[test]
fn base_url_is_parsed() {
    let http = read_source_http(vec![("baseURL", string("HTTPS://Example.COM"))]).unwrap();
    assert_eq!(http.base_url, "https://example.com/");
    assert!(http.headers.is_empty());
    assert_eq!(
        message(read_source_http(vec![("baseURL", string("no url"))])),
        "Invalid base URL: relative URL without a base"
    );
    assert_eq!(
        message(SourceHTTPField::from_parsed_url(Err("empty host".to_string()))),
        "Invalid base URL: empty host"
    );
    assert!(matches!(
        SourceHTTPField::from_parsed_url(Ok("x".to_string())),
        Ok(SourceHTTPField::BaseUrl(url)) if url == "x"
    ));
}

#[test]
fn errors_of_source_http() {
    assert_eq!(
        message(read_source_http(vec![("baseURL", Value::Null)])),
        "`baseURL` field in `@source` directive's `http` field is not a string"
    );
    assert_eq!(
        message(read_source_http(vec![("base", string("x"))])),
        "unknown argument in `@source` directive's `http` field: base"
    );
    assert_eq!(
        message(read_source_http(vec![("headers", Value::List(Vec::new()))])),
        "missing `base_url` field in `@source` directive's `http` argument"
    );
    assert_eq!(
        message(read_source_http(vec![("headers", Value::Boolean(true))])),
        "`headers` is not a list"
    );
    // The first field that cannot be read decides.
    assert_eq!(
        message(read_source_http(vec![("baseURL", Value::Null), ("base", Value::Null)])),
        "`baseURL` field in `@source` directive's `http` field is not a string"
    );
    assert_eq!(
        message(read_source_http(vec![("base", Value::Null), ("baseURL", Value::Null)])),
        "unknown argument in `@source` directive's `http` field: base"
    );
}

#[test]
fn errors_of_source() {
    let http = || object(vec![("baseURL", string("http://a.example"))]);
    assert_eq!(
        message(read_source(vec![("name", Value::Int("1".to_string()))])),
        "`name` field in `@source` directive is not a string"
    );
    assert_eq!(
        message(read_source(vec![("http", string("x"))])),
        "`http` field in `@source` directive is not an object"
    );
    assert_eq!(
        message(read_source(vec![("url", string("x"))])),
        "unknown argument in `@source` directive: url"
    );
    assert_eq!(
        message(read_source(vec![("http", http())])),
        "missing `name` field in `@source` directive"
    );
    assert_eq!(
        message(read_source(vec![("name", string("x"))])),
        "missing `http` field in `@source` directive"
    );
    assert_eq!(message(read_source(vec![])), "missing `name` field in `@source` directive");
    assert_eq!(
        message(read_source(vec![("http", object(vec![]))])),
        "missing `base_url` field in `@source` directive's `http` argument"
    );
}

#[test]
fn last_argument_wins() {
    let source = read_source(vec![
        ("name", string("a")),
        ("http", object(vec![("baseURL", string("http://a.example"))])),
        ("name", string("b")),
        (
            "http",
            object(vec![
                ("baseURL", string("http://b.example")),
                ("baseURL", string("http://c.example")),
            ]),
        ),
    ])
    .unwrap();
    assert_eq!(source.name, "b");
    assert_eq!(source.http.base_url, "http://c.example/");

    let connect = read_connect(vec![
        ("selection", string("a")),
        ("entity", Value::Boolean(true)),
        ("source", string("x")),
        ("selection", string("b")),
        ("entity", Value::Boolean(false)),
        ("source", string("y")),
    ])
    .unwrap();
    assert_eq!(connect.selection.selections, vec![("b".to_string(), 0..1)]);
    assert_eq!(connect.source, Some("y".to_string()));
    assert!(!connect.entity);
    assert!(connect.http.is_none());
    assert_eq!(connect.position, position());
}

#[test]
fn errors_of_connect() {
    assert_eq!(
        message(read_connect(vec![("source", Value::Null)])),
        "`source` field in `@source` directive is not a string"
    );
    assert_eq!(
        message(read_connect(vec![("http", Value::Null)])),
        "`http` field in `@connect` directive is not an object"
    );
    assert_eq!(
        message(read_connect(vec![("selection", Value::Null)])),
        "`selection` field in `@connect` directive is not a string"
    );
    assert_eq!(message(read_connect(vec![("selection", string("?"))])), "unexpected `?`");
    assert_eq!(
        message(read_connect(vec![("entity", string("true"))])),
        "`entity` field in `@connect` directive is not a boolean"
    );
    assert_eq!(
        message(read_connect(vec![("url", string("x"))])),
        "unknown argument in `@connect` directive: url"
    );
    assert_eq!(
        message(read_connect(vec![("source", string("x"))])),
        "`@connect` directive is missing a selection"
    );
}

#[test]
fn http_of_connect_has_all_fields() {
    let http = read_connect_http(vec![
        ("GET", string("/1")),
        ("POST", string("/2")),
        ("PATCH", string("/3")),
        ("PUT", string("/4")),
        ("DELETE", string("/5")),
        ("body", string("a b")),
        (
            "headers",
            Value::List(vec![object(vec![("name", string("N")), ("value", string("v"))])]),
        ),
    ])
    .unwrap();
    assert_eq!(http.get, Some("/1".to_string()));
    assert_eq!(http.post, Some("/2".to_string()));
    assert_eq!(http.patch, Some("/3".to_string()));
    assert_eq!(http.put, Some("/4".to_string()));
    assert_eq!(http.delete, Some("/5".to_string()));
    assert_eq!(http.body, parse(&"a b".to_string()).ok());
    assert_eq!(http.headers.get("n"), Some(&HeaderSource::Value("v".to_string())));
    assert_eq!(http.headers.len(), 1);
}

#[test]
fn unknown_http_fields_of_connect_are_ignored() {
    let http = read_connect_http(vec![
        ("get", Value::Null),
        ("GET", string("/1")),
        ("HEAD", string("/2")),
    ])
    .unwrap();
    assert_eq!(http.get, Some("/1".to_string()));
    assert_eq!(http.post, None);
    assert!(http.headers.is_empty());
}

#[test]
fn errors_of_connect_http() {
    assert_eq!(
        message(read_connect_http(vec![("body", Value::Null)])),
        "`body` field in `@connect` directive's `http` field is not a string"
    );
    assert_eq!(message(read_connect_http(vec![("body", string(""))])), "unexpected ``");
    assert_eq!(
        message(read_connect_http(vec![("headers", Value::Null)])),
        "`headers` is not a list"
    );
    for name in ["GET", "POST", "PATCH", "PUT", "DELETE"] {
        assert_eq!(
            message(read_connect_http(vec![(name, Value::Null)])),
            "supplied HTTP template URL in `@connect` directive's `http` field is not a string"
        );
    }
    assert_eq!(
        message(read_connect(vec![("http", object(vec![("GET", Value::Null)]))])),
        "supplied HTTP template URL in `@connect` directive's `http` field is not a string"
    );
}

#[test]
fn last_header_of_a_name_keeps_the_first_place() {
    let header = |name: &str, value: &str| {
        Ok(Header {
            name: name.to_string(),
            source: HeaderSource::Value(value.to_string()),
        })
    };
    let headers =
        collect_headers(vec![header("a", "1"), header("b", "2"), header("a", "3")]).unwrap();
    let found: Vec<_> = headers.iter().collect();
    assert_eq!(
        found,
        vec![
            (&"a".to_string(), &HeaderSource::Value("3".to_string())),
            (&"b".to_string(), &HeaderSource::Value("2".to_string())),
        ]
    );
    assert!(collect_headers(Vec::new()).unwrap().is_empty());
    let failed = collect_headers(vec![
        header("a", "1"),
        Err("first".to_string()),
        Err("second".to_string()),
    ]);
    assert_eq!(message(failed), "first");
}

#[test]
fn parts_are_assembled() {
    assert_eq!(
        message(SourceHTTPArguments::assemble(Vec::new())),
        "missing `base_url` field in `@source` directive's `http` argument"
    );
    assert_eq!(
        message(SourceDirectiveArguments::assemble(vec![SourceArgument::Name("a".to_string())])),
        "missing `http` field in `@source` directive"
    );
    let http: ConnectHTTPArguments<u8> = ConnectHTTPArguments::assemble(vec![
        ConnectHTTPField::Put("a".to_string()),
        ConnectHTTPField::Body(1),
        ConnectHTTPField::Other,
        ConnectHTTPField::Put("b".to_string()),
    ]);
    assert_eq!((http.put, http.body, http.get), (Some("b".to_string()), Some(1), None));
    let connect = ConnectDirectiveArguments::assemble(
        position(),
        vec![ConnectArgument::Selection(1), ConnectArgument::Entity(true)],
    )
    .unwrap();
    assert_eq!((connect.selection, connect.entity), (1, true));
    assert!(matches!(
        ConnectArgument::from_parsed_selection(Ok(5)),
        Ok(ConnectArgument::Selection(5))
    ));
    assert_eq!(
        message(ConnectHTTPField::<u8>::from_parsed_body(Err("bad".to_string()))),
        "bad"
    );
}

fn reversed<'a>(mut fields: Vec<(&'a str, Value)>) -> Vec<(&'a str, Value)> {
    fields.reverse();
    fields
}

#[test]
fn order_of_http_fields_makes_no_difference() {
    let fields = || {
        vec![
            ("GET", string("/1")),
            ("unknown", Value::Null),
            ("PUT", string("/4")),
            ("body", string("a b")),
            (
                "headers",
                Value::List(vec![
                    object(vec![("name", string("N")), ("value", string("v"))]),
                    object(vec![("name", string("M")), ("from", string("w"))]),
                ]),
            ),
        ]
    };
    let there = read_connect_http(fields()).unwrap();
    let back = read_connect_http(reversed(fields())).unwrap();
    assert_eq!(there.get, Some("/1".to_string()));
    assert_eq!(back.get, there.get);
    assert_eq!(back.post, there.post);
    assert_eq!(back.put, there.put);
    assert_eq!(back.body, there.body);
    assert_eq!(back.headers.len(), 2);
    assert!(back.headers.iter().eq(there.headers.iter()));
}

#[test]
fn order_of_arguments_makes_no_difference() {
    let arguments = || {
        vec![
            ("name", string("a")),
            (
                "http",
                object(reversed(vec![
                    ("baseURL", string("http://a.example")),
                    (
                        "headers",
                        Value::List(vec![object(vec![("name", string("N")), ("value", string("v"))])]),
                    ),
                ])),
            ),
        ]
    };
    let there = read_source(arguments()).unwrap();
    let back = read_source(reversed(arguments())).unwrap();
    assert_eq!(there.name, "a");
    assert_eq!(back.name, there.name);
    assert_eq!(back.http.base_url, "http://a.example/");
    assert_eq!(back.http.base_url, there.http.base_url);
    assert!(back.http.headers.iter().eq(there.http.headers.iter()));
    assert!(read_source(vec![("name", string("a"))]).is_err());

    let arguments = || {
        vec![
            ("entity", Value::Boolean(true)),
            ("source", string("x")),
            ("selection", string("a")),
            ("http", object(vec![("GET", string("/1"))])),
        ]
    };
    let there = read_connect(arguments()).unwrap();
    let back = read_connect(reversed(arguments())).unwrap();
    assert_eq!(back.entity, there.entity);
    assert_eq!(back.source, there.source);
    assert_eq!(back.selection, there.selection);
    assert_eq!(back.http.map(|http| http.get), there.http.map(|http| http.get));
}

#[test]
fn position_is_only_copied() {
    let read = |position, name: &str, selection: &str| {
        ConnectDirectiveArguments::from_position_and_directive(
            position,
            &application(name, vec![("selection", string(selection))]),
            &parse,
            &from_headers_arg,
        )
    };
    let elsewhere = || ObjectOrInterfaceFieldDirectivePosition {
        field: ObjectOrInterfaceFieldDefinitionPosition::Interface(InterfaceFieldDefinitionPosition {
            named_type: "Node".to_string(),
            field_name: "id".to_string(),
        }),
        directive_name: "unrelated".to_string(),
        directive_index: 7,
    };
    let here = read(position(), "connect", "a b").unwrap();
    let there = read(elsewhere(), "renamed", "a b").unwrap();
    assert_eq!(here.position, position());
    assert_eq!(there.position, elsewhere());
    assert_eq!(here.selection, there.selection);
    assert_eq!(here.source, there.source);
    assert_eq!(here.entity, there.entity);
    assert_eq!(
        message(read(position(), "connect", "?")),
        message(read(elsewhere(), "renamed", "?"))
    );
}

#[test]
fn error_of_http_is_passed_on() {
    let http = || vec![("GET", string("/1")), ("body", string("?"))];
    let error = message(read_connect_http(http()));
    assert_eq!(error, "unexpected `?`");
    assert_eq!(
        message(read_connect(vec![
            ("source", string("x")),
            ("http", object(http())),
            ("selection", Value::Null),
            ("unknown", Value::Null),
        ])),
        error
    );
}

#[test]
fn connectors_can_be_read_again_at_their_positions() {
    let schema = schema(
        r#"
        type Query {
          a: Int @connect(selection: "a") @other @connect(selection: "b", entity: true)
          b: Int @connect(selection: "a")
        }
        interface Node { a: Int @connect(source: "s", selection: "a") }
        "#,
    );
    let connects = extract_connect_directive_arguments(
        &schema,
        &"connect".to_string(),
        &parse,
        &from_headers_arg,
    )
    .unwrap();
    assert_eq!(connects.len(), 4);
    for (i, connect) in connects.iter().enumerate() {
        for other in &connects[i + 1..] {
            assert_ne!(connect.position, other.position);
        }
        let (node, field_name) = match &connect.position.field {
            ObjectOrInterfaceFieldDefinitionPosition::Object(field) => {
                (schema.get_object_type(&field.named_type).unwrap(), &field.field_name)
            }
            ObjectOrInterfaceFieldDefinitionPosition::Interface(field) => {
                (schema.get_interface_type(&field.named_type).unwrap(), &field.field_name)
            }
        };
        let field = &node.fields.iter().find(|(name, _)| name == field_name).unwrap().1;
        let directive = &field.directives[connect.position.directive_index];
        assert_eq!(directive.name, "connect");
        assert_eq!(connect.position.directive_name, "connect");
        let again = ConnectDirectiveArguments::from_position_and_directive(
            position(),
            directive,
            &parse,
            &from_headers_arg,
        )
        .unwrap();
        assert_eq!(again.selection, connect.selection);
        assert_eq!(again.source, connect.source);
        assert_eq!(again.entity, connect.entity);
    }
}

#[test]
fn sources_of_one_name_are_not_merged() {
    let schema = schema(
        r#"
        schema
          @s(name: "a", http: { baseURL: "http://a.example" })
          @s(name: "a", http: { baseURL: "http://b.example" }) { query: Query }
        type Query { a: Int }
        "#,
    );
    let sources =
        extract_source_directive_arguments(&schema, &"s".to_string(), &from_headers_arg).unwrap();
    assert_eq!(sources.len(), 2);
    for (source, component) in sources.iter().zip(&schema.schema_definition.directives) {
        let single =
            SourceDirectiveArguments::try_from(&component.directive, &from_headers_arg).unwrap();
        assert_eq!(source.name, single.name);
        assert_eq!(source.http.base_url, single.http.base_url);
    }
    let none =
        extract_source_directive_arguments(&schema, &"none".to_string(), &from_headers_arg).unwrap();
    assert!(none.is_empty());
}
