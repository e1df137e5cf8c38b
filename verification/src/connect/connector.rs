//! The arguments of `@connect`.

use crate::ast::is_named;
use crate::ast::Argument;
use crate::ast::Directive;
use crate::ast::Value;
use crate::collecting::collects;
use crate::collecting::last_of;
use crate::collecting::law_found_in_an_item;
use crate::collecting::law_item_with_value_can_be_left_out;
use crate::collecting::law_silent_item_can_be_left_out;
use crate::collecting::lemma_all_pass;
use crate::collecting::lemma_filtered_without;
use crate::collecting::lemma_first_failure;
use crate::collecting::without;
use crate::connect::headers::collect_headers;
use crate::connect::headers::headers_collected;
use crate::connect::headers::Header;
use crate::connect::headers::HeaderSource;
use crate::connect::source::given_headers;
use crate::connect::source::headers_or_none;
use crate::error::internal;
use crate::error::outcome;
use crate::error::ErrorView;
use crate::error::FederationError;
use crate::position::ObjectOrInterfaceFieldDirectivePosition;
use apollo_compiler::collections::IndexMap;
use vstd::prelude::*;

verus! {

/// The `http` argument of `@connect`, with selections of the type `S`.
#[derive(Debug)]
pub struct ConnectHTTPArguments<S> {
    pub get: Option<String>,
    pub post: Option<String>,
    pub patch: Option<String>,
    pub put: Option<String>,
    pub delete: Option<String>,
    /// The selection that makes the body of the request.
    pub body: Option<S>,
    /// The headers, by their names.
    pub headers: IndexMap<String, HeaderSource>,
}

/// The arguments of `@connect`, with selections of the type `S`.
#[derive(Debug)]
pub struct ConnectDirectiveArguments<S> {
    /// Where the directive is applied.
    pub position: ObjectOrInterfaceFieldDirectivePosition,
    /// The name of the `@source` that the connector refers to.
    pub source: Option<String>,
    pub http: Option<ConnectHTTPArguments<S>>,
    /// The selection that makes the field out of the response.
    pub selection: S,
    /// Whether the connector resolves the entity.
    pub entity: bool,
}

/// A field of the `http` argument of `@connect`.
#[derive(Debug)]
pub enum ConnectHTTPField<S> {
    Get(String),
    Post(String),
    Patch(String),
    Put(String),
    Delete(String),
    Body(S),
    Headers(IndexMap<String, HeaderSource>),
    /// A field without meaning here.
    Other,
}

/// An argument of `@connect`.
#[derive(Debug)]
pub enum ConnectArgument<S> {
    Source(String),
    Http(ConnectHTTPArguments<S>),
    Selection(S),
    Entity(bool),
}

impl<S> ConnectHTTPField<S> {
    /// The URL template of the `GET` request, if this is it.
    pub open spec fn get() -> spec_fn(ConnectHTTPField<S>) -> Option<String> {
        |item: ConnectHTTPField<S>|
            match item {
                ConnectHTTPField::Get(found) => Some(found),
                _ => None,
            }
    }

    /// The URL template of the `POST` request, if this is it.
    pub open spec fn post() -> spec_fn(ConnectHTTPField<S>) -> Option<String> {
        |item: ConnectHTTPField<S>|
            match item {
                ConnectHTTPField::Post(found) => Some(found),
                _ => None,
            }
    }

    /// The URL template of the `PATCH` request, if this is it.
    pub open spec fn patch() -> spec_fn(ConnectHTTPField<S>) -> Option<String> {
        |item: ConnectHTTPField<S>|
            match item {
                ConnectHTTPField::Patch(found) => Some(found),
                _ => None,
            }
    }

    /// The URL template of the `PUT` request, if this is it.
    pub open spec fn put() -> spec_fn(ConnectHTTPField<S>) -> Option<String> {
        |item: ConnectHTTPField<S>|
            match item {
                ConnectHTTPField::Put(found) => Some(found),
                _ => None,
            }
    }

    /// The URL template of the `DELETE` request, if this is it.
    pub open spec fn delete() -> spec_fn(ConnectHTTPField<S>) -> Option<String> {
        |item: ConnectHTTPField<S>|
            match item {
                ConnectHTTPField::Delete(found) => Some(found),
                _ => None,
            }
    }

    /// The body, if this is it.
    pub open spec fn body() -> spec_fn(ConnectHTTPField<S>) -> Option<S> {
        |item: ConnectHTTPField<S>|
            match item {
                ConnectHTTPField::Body(found) => Some(found),
                _ => None,
            }
    }

    /// The headers, if these are they.
    pub open spec fn headers() -> spec_fn(ConnectHTTPField<S>) -> Option<IndexMap<String, HeaderSource>> {
        |item: ConnectHTTPField<S>|
            match item {
                ConnectHTTPField::Headers(found) => Some(found),
                _ => None,
            }
    }

    /// What a body gives that was parsed as `parsed`.
    pub open spec fn parsed_body(parsed: Result<S, String>) -> Result<ConnectHTTPField<S>, ErrorView> {
        match parsed {
            Ok(selection) => Ok(ConnectHTTPField::Body(selection)),
            Err(message) => Err(internal(message@)),
        }
    }

    /// Whether `read` is what `text` gives as the body, where `parse` parses selections.
    pub open spec fn body_text_read<P: Fn(&String) -> Result<S, String>>(
        parse: P,
        text: String,
        read: Result<ConnectHTTPField<S>, ErrorView>,
    ) -> bool {
        exists|parsed: Result<S, String>|
            #[trigger] call_ensures(parse, (&text,), parsed) && read == Self::parsed_body(parsed)
    }

    /// Whether `read` is what `value` gives as the body, where `parse` parses selections.
    pub open spec fn body_read<P: Fn(&String) -> Result<S, String>>(
        parse: P,
        value: Value,
        read: Result<ConnectHTTPField<S>, ErrorView>,
    ) -> bool {
        match value.text() {
            Some(text) => Self::body_text_read(parse, text, read),
            None => read == Err::<ConnectHTTPField<S>, ErrorView>(
                internal("`body` field in `@connect` directive's `http` field is not a string"@),
            ),
        }
    }

    /// Whether `read` is what `value` gives as the headers, where `from_headers_arg` parses them.
    pub open spec fn headers_read<H: Fn(&Value) -> Vec<Result<Header, String>>>(
        from_headers_arg: H,
        value: Value,
        read: Result<ConnectHTTPField<S>, ErrorView>,
    ) -> bool {
        exists|parsed: Vec<Result<Header, String>>, headers: Result<
            IndexMap<String, HeaderSource>,
            ErrorView,
        >|
            {
                &&& #[trigger] call_ensures(from_headers_arg, (&value,), parsed)
                &&& #[trigger] headers_collected(parsed@, headers)
                &&& read == match headers {
                    Ok(headers) => Ok(ConnectHTTPField::<S>::Headers(headers)),
                    Err(error) => Err(error),
                }
            }
    }

    /// What a field of the name `name` gives that has a URL template or no meaning.
    pub open spec fn plain_field(name: Seq<char>, value: Value) -> Result<
        ConnectHTTPField<S>,
        ErrorView,
    > {
        if name == "GET"@ || name == "POST"@ || name == "PATCH"@ || name == "PUT"@ || name
            == "DELETE"@ {
            match value.text() {
                Some(template) => Ok(
                    if name == "GET"@ {
                        ConnectHTTPField::Get(template)
                    } else if name == "POST"@ {
                        ConnectHTTPField::Post(template)
                    } else if name == "PATCH"@ {
                        ConnectHTTPField::Patch(template)
                    } else if name == "PUT"@ {
                        ConnectHTTPField::Put(template)
                    } else {
                        ConnectHTTPField::Delete(template)
                    },
                ),
                None => Err(
                    internal(
                        "supplied HTTP template URL in `@connect` directive's `http` field is not a string"@,
                    ),
                ),
            }
        } else {
            Ok(ConnectHTTPField::Other)
        }
    }

    /// Whether a field of the `http` argument can be read as `read`.
    pub open spec fn reads<
        P: Fn(&String) -> Result<S, String>,
        H: Fn(&Value) -> Vec<Result<Header, String>>,
    >(parse: P, from_headers_arg: H) -> spec_fn(
        (String, Value),
        Result<ConnectHTTPField<S>, ErrorView>,
    ) -> bool {
        |field: (String, Value), read: Result<ConnectHTTPField<S>, ErrorView>|
            if field.0@ == "body"@ {
                Self::body_read(parse, field.1, read)
            } else if field.0@ == "headers"@ {
                Self::headers_read(from_headers_arg, field.1, read)
            } else {
                read == Self::plain_field(field.0@, field.1)
            }
    }

    /// The body that was parsed as `parsed`.
    pub fn from_parsed_body(parsed: Result<S, String>) -> (read: Result<
        ConnectHTTPField<S>,
        FederationError,
    >)
        ensures
            outcome(read) == Self::parsed_body(parsed),
    {
        match parsed {
            Ok(selection) => Ok(ConnectHTTPField::Body(selection)),
            Err(message) => Err(FederationError::Internal { message }),
        }
    }

    /// The text of a URL template.
    fn url_template(value: &Value) -> (template: Result<String, FederationError>)
        ensures
            outcome(template) == match value.text() {
                Some(text) => Ok(text),
                None => Err(
                    internal(
                        "supplied HTTP template URL in `@connect` directive's `http` field is not a string"@,
                    ),
                ),
            },
    {
        match value.as_str() {
            Some(text) => Ok(text.clone()),
            None => Err(
                FederationError::internal(
                    "supplied HTTP template URL in `@connect` directive's `http` field is not a string",
                ),
            ),
        }
    }

    /// Reads the body.
    fn read_body<P: Fn(&String) -> Result<S, String>>(value: &Value, parse: &P) -> (read: Result<
        ConnectHTTPField<S>,
        FederationError,
    >)
        requires
            forall|text: &String| call_requires(*parse, (text,)),
        ensures
            Self::body_read(*parse, *value, outcome(read)),
    {
        match value.as_str() {
            Some(text) => {
                let parsed = parse(text);
                assert(call_ensures(*parse, (text,), parsed));
                Self::from_parsed_body(parsed)
            },
            None => Err(
                FederationError::internal(
                    "`body` field in `@connect` directive's `http` field is not a string",
                ),
            ),
        }
    }

    /// Reads the headers.
    fn read_headers<H: Fn(&Value) -> Vec<Result<Header, String>>>(
        value: &Value,
        from_headers_arg: &H,
    ) -> (read: Result<ConnectHTTPField<S>, FederationError>)
        requires
            forall|value: &Value| call_requires(*from_headers_arg, (value,)),
        ensures
            Self::headers_read(*from_headers_arg, *value, outcome(read)),
    {
        let parsed = from_headers_arg(value);
        let ghost parsed_headers = parsed;
        let headers = collect_headers(parsed);
        proof {
            assert(call_ensures(*from_headers_arg, (value,), parsed_headers));
            assert(headers_collected(parsed_headers@, outcome(headers)));
        }
        match headers {
            Ok(headers) => Ok(ConnectHTTPField::Headers(headers)),
            Err(error) => Err(error),
        }
    }

    /// Reads a field of the `http` argument of `@connect`.
    pub fn read<
        P: Fn(&String) -> Result<S, String>,
        H: Fn(&Value) -> Vec<Result<Header, String>>,
    >(field: &(String, Value), parse: &P, from_headers_arg: &H) -> (read: Result<
        ConnectHTTPField<S>,
        FederationError,
    >)
        requires
            forall|text: &String| call_requires(*parse, (text,)),
            forall|value: &Value| call_requires(*from_headers_arg, (value,)),
        ensures
            Self::reads(*parse, *from_headers_arg)(*field, outcome(read)),
    {
        let name = &field.0;
        let value = &field.1;
        if is_named(name, "body") {
            Self::read_body(value, parse)
        } else if is_named(name, "headers") {
            Self::read_headers(value, from_headers_arg)
        } else if is_named(name, "GET") {
            match Self::url_template(value) {
                Ok(template) => Ok(ConnectHTTPField::Get(template)),
                Err(error) => Err(error),
            }
        } else if is_named(name, "POST") {
            match Self::url_template(value) {
                Ok(template) => Ok(ConnectHTTPField::Post(template)),
                Err(error) => Err(error),
            }
        } else if is_named(name, "PATCH") {
            match Self::url_template(value) {
                Ok(template) => Ok(ConnectHTTPField::Patch(template)),
                Err(error) => Err(error),
            }
        } else if is_named(name, "PUT") {
            match Self::url_template(value) {
                Ok(template) => Ok(ConnectHTTPField::Put(template)),
                Err(error) => Err(error),
            }
        } else if is_named(name, "DELETE") {
            match Self::url_template(value) {
                Ok(template) => Ok(ConnectHTTPField::Delete(template)),
                Err(error) => Err(error),
            }
        } else {
            Ok(ConnectHTTPField::Other)
        }
    }
}

impl<S> ConnectHTTPArguments<S> {
    /// Whether `made` is what the fields make: of each field the last one.
    pub open spec fn assembles(
        fields: Seq<ConnectHTTPField<S>>,
        made: ConnectHTTPArguments<S>,
    ) -> bool {
        &&& made.get == last_of(fields, ConnectHTTPField::get())
        &&& made.post == last_of(fields, ConnectHTTPField::post())
        &&& made.patch == last_of(fields, ConnectHTTPField::patch())
        &&& made.put == last_of(fields, ConnectHTTPField::put())
        &&& made.delete == last_of(fields, ConnectHTTPField::delete())
        &&& made.body == last_of(fields, ConnectHTTPField::body())
        &&& headers_or_none(last_of(fields, ConnectHTTPField::headers()), made.headers)
    }

    /// Whether the fields of an object value can be read as `made`.
    pub open spec fn reads<
        P: Fn(&String) -> Result<S, String>,
        H: Fn(&Value) -> Vec<Result<Header, String>>,
    >(
        parse: P,
        from_headers_arg: H,
        values: Seq<(String, Value)>,
        made: Result<ConnectHTTPArguments<S>, ErrorView>,
    ) -> bool {
        exists|fields: Result<Seq<ConnectHTTPField<S>>, ErrorView>|
            {
                &&& #[trigger] collects(
                    values,
                    ConnectHTTPField::reads(parse, from_headers_arg),
                    fields,
                )
                &&& match fields {
                    Ok(fields) => made matches Ok(arguments) && Self::assembles(fields, arguments),
                    Err(error) => made == Err::<ConnectHTTPArguments<S>, ErrorView>(error),
                }
            }
    }

    /// Makes the `http` argument out of its fields.
    pub fn assemble(fields: Vec<ConnectHTTPField<S>>) -> (made: ConnectHTTPArguments<S>)
        ensures
            Self::assembles(fields@, made),
    {
        let ghost all = fields@;
        let mut rest = fields;
        let mut get: Option<String> = None;
        let mut post: Option<String> = None;
        let mut patch: Option<String> = None;
        let mut put: Option<String> = None;
        let mut delete: Option<String> = None;
        let mut body: Option<S> = None;
        let mut headers: Option<IndexMap<String, HeaderSource>> = None;
        while rest.len() > 0
            invariant
                last_of(all, ConnectHTTPField::get()) == match get {
                    Some(found) => Some(found),
                    None => last_of(rest@, ConnectHTTPField::get()),
                },
                last_of(all, ConnectHTTPField::post()) == match post {
                    Some(found) => Some(found),
                    None => last_of(rest@, ConnectHTTPField::post()),
                },
                last_of(all, ConnectHTTPField::patch()) == match patch {
                    Some(found) => Some(found),
                    None => last_of(rest@, ConnectHTTPField::patch()),
                },
                last_of(all, ConnectHTTPField::put()) == match put {
                    Some(found) => Some(found),
                    None => last_of(rest@, ConnectHTTPField::put()),
                },
                last_of(all, ConnectHTTPField::delete()) == match delete {
                    Some(found) => Some(found),
                    None => last_of(rest@, ConnectHTTPField::delete()),
                },
                last_of(all, ConnectHTTPField::body()) == match body {
                    Some(found) => Some(found),
                    None => last_of(rest@, ConnectHTTPField::body()),
                },
                last_of(all, ConnectHTTPField::headers()) == match headers {
                    Some(found) => Some(found),
                    None => last_of(rest@, ConnectHTTPField::headers()),
                },
            decreases rest.len(),
        {
            match rest.pop() {
                Some(ConnectHTTPField::Get(found)) => {
                    if get.is_none() {
                        get = Some(found);
                    }
                },
                Some(ConnectHTTPField::Post(found)) => {
                    if post.is_none() {
                        post = Some(found);
                    }
                },
                Some(ConnectHTTPField::Patch(found)) => {
                    if patch.is_none() {
                        patch = Some(found);
                    }
                },
                Some(ConnectHTTPField::Put(found)) => {
                    if put.is_none() {
                        put = Some(found);
                    }
                },
                Some(ConnectHTTPField::Delete(found)) => {
                    if delete.is_none() {
                        delete = Some(found);
                    }
                },
                Some(ConnectHTTPField::Body(found)) => {
                    if body.is_none() {
                        body = Some(found);
                    }
                },
                Some(ConnectHTTPField::Headers(found)) => {
                    if headers.is_none() {
                        headers = Some(found);
                    }
                },
                Some(ConnectHTTPField::Other) | None => {},
            }
        }
        ConnectHTTPArguments {
            get,
            post,
            patch,
            put,
            delete,
            body,
            headers: given_headers(headers),
        }
    }

    /// Reads the `http` argument of `@connect` from the fields of an object value.
    pub fn try_from<
        P: Fn(&String) -> Result<S, String>,
        H: Fn(&Value) -> Vec<Result<Header, String>>,
    >(values: &Vec<(String, Value)>, parse: &P, from_headers_arg: &H) -> (made: Result<
        ConnectHTTPArguments<S>,
        FederationError,
    >)
        requires
            forall|text: &String| call_requires(*parse, (text,)),
            forall|value: &Value| call_requires(*from_headers_arg, (value,)),
        ensures
            Self::reads(*parse, *from_headers_arg, values@, outcome(made)),
    {
        let ghost gives = ConnectHTTPField::<S>::reads(*parse, *from_headers_arg);
        let mut fields: Vec<ConnectHTTPField<S>> = Vec::new();
        let mut i: usize = 0;
        while i < values.len()
            invariant
                i <= values.len(),
                fields.len() == i,
                gives == ConnectHTTPField::<S>::reads(*parse, *from_headers_arg),
                forall|text: &String| call_requires(*parse, (text,)),
                forall|value: &Value| call_requires(*from_headers_arg, (value,)),
                forall|j: int| 0 <= j < i ==> gives(#[trigger] values@[j], Ok(fields@[j])),
            decreases values.len() - i,
        {
            match ConnectHTTPField::read(&values[i], parse, from_headers_arg) {
                Ok(field) => {
                    fields.push(field);
                },
                Err(error) => {
                    proof {
                        lemma_first_failure(values@, gives, fields@, error@);
                    }
                    return Err(error);
                },
            }
            i += 1;
        }
        proof {
            assert(collects(values@, gives, Ok::<Seq<ConnectHTTPField<S>>, ErrorView>(fields@)));
        }
        Ok(Self::assemble(fields))
    }
}

impl<S> ConnectArgument<S> {
    /// The source, if this is it.
    pub open spec fn source() -> spec_fn(ConnectArgument<S>) -> Option<String> {
        |item: ConnectArgument<S>|
            match item {
                ConnectArgument::Source(found) => Some(found),
                _ => None,
            }
    }

    /// The `http` argument, if this is it.
    pub open spec fn http() -> spec_fn(ConnectArgument<S>) -> Option<ConnectHTTPArguments<S>> {
        |item: ConnectArgument<S>|
            match item {
                ConnectArgument::Http(found) => Some(found),
                _ => None,
            }
    }

    /// The selection, if this is it.
    pub open spec fn selection() -> spec_fn(ConnectArgument<S>) -> Option<S> {
        |item: ConnectArgument<S>|
            match item {
                ConnectArgument::Selection(found) => Some(found),
                _ => None,
            }
    }

    /// Whether the entity is resolved, if this says so.
    pub open spec fn entity() -> spec_fn(ConnectArgument<S>) -> Option<bool> {
        |item: ConnectArgument<S>|
            match item {
                ConnectArgument::Entity(found) => Some(found),
                _ => None,
            }
    }

    /// What a selection gives that was parsed as `parsed`.
    pub open spec fn parsed_selection(parsed: Result<S, String>) -> Result<ConnectArgument<S>, ErrorView> {
        match parsed {
            Ok(selection) => Ok(ConnectArgument::Selection(selection)),
            Err(message) => Err(internal(message@)),
        }
    }

    /// Whether `read` is what `text` gives as the selection, where `parse` parses selections.
    pub open spec fn selection_text_read<P: Fn(&String) -> Result<S, String>>(
        parse: P,
        text: String,
        read: Result<ConnectArgument<S>, ErrorView>,
    ) -> bool {
        exists|parsed: Result<S, String>|
            #[trigger] call_ensures(parse, (&text,), parsed) && read == Self::parsed_selection(parsed)
    }

    /// Whether `read` is what `value` gives as the selection, where `parse` parses selections.
    pub open spec fn selection_read<P: Fn(&String) -> Result<S, String>>(
        parse: P,
        value: Value,
        read: Result<ConnectArgument<S>, ErrorView>,
    ) -> bool {
        match value.text() {
            Some(text) => Self::selection_text_read(parse, text, read),
            None => read == Err::<ConnectArgument<S>, ErrorView>(
                internal("`selection` field in `@connect` directive is not a string"@),
            ),
        }
    }

    /// Whether `read` is what the fields of the `http` argument give.
    pub open spec fn http_read<
        P: Fn(&String) -> Result<S, String>,
        H: Fn(&Value) -> Vec<Result<Header, String>>,
    >(
        parse: P,
        from_headers_arg: H,
        values: Seq<(String, Value)>,
        read: Result<ConnectArgument<S>, ErrorView>,
    ) -> bool {
        exists|http: Result<ConnectHTTPArguments<S>, ErrorView>|
            {
                &&& #[trigger] ConnectHTTPArguments::reads(parse, from_headers_arg, values, http)
                &&& read == match http {
                    Ok(http) => Ok(ConnectArgument::Http(http)),
                    Err(error) => Err(error),
                }
            }
    }

    /// Whether an argument of `@connect` can be read as `read`.
    pub open spec fn reads<
        P: Fn(&String) -> Result<S, String>,
        H: Fn(&Value) -> Vec<Result<Header, String>>,
    >(parse: P, from_headers_arg: H) -> spec_fn(
        Argument,
        Result<ConnectArgument<S>, ErrorView>,
    ) -> bool {
        |argument: Argument, read: Result<ConnectArgument<S>, ErrorView>|
            if argument.name@ == "source"@ {
                read == match argument.value.text() {
                    Some(source) => Ok(ConnectArgument::<S>::Source(source)),
                    None => Err(
                        internal("`source` field in `@source` directive is not a string"@),
                    ),
                }
            } else if argument.name@ == "http"@ {
                match argument.value.fields() {
                    Some(values) => Self::http_read(parse, from_headers_arg, values@, read),
                    None => read == Err::<ConnectArgument<S>, ErrorView>(
                        internal("`http` field in `@connect` directive is not an object"@),
                    ),
                }
            } else if argument.name@ == "selection"@ {
                Self::selection_read(parse, argument.value, read)
            } else if argument.name@ == "entity"@ {
                read == match argument.value.truth() {
                    Some(entity) => Ok(ConnectArgument::<S>::Entity(entity)),
                    None => Err(
                        internal("`entity` field in `@connect` directive is not a boolean"@),
                    ),
                }
            } else {
                read == Err::<ConnectArgument<S>, ErrorView>(
                    internal("unknown argument in `@connect` directive: "@ + argument.name@),
                )
            }
    }

    /// The selection that was parsed as `parsed`.
    pub fn from_parsed_selection(parsed: Result<S, String>) -> (read: Result<
        ConnectArgument<S>,
        FederationError,
    >)
        ensures
            outcome(read) == Self::parsed_selection(parsed),
    {
        match parsed {
            Ok(selection) => Ok(ConnectArgument::Selection(selection)),
            Err(message) => Err(FederationError::Internal { message }),
        }
    }

    /// Reads the selection.
    fn read_selection<P: Fn(&String) -> Result<S, String>>(value: &Value, parse: &P) -> (read:
        Result<ConnectArgument<S>, FederationError>)
        requires
            forall|text: &String| call_requires(*parse, (text,)),
        ensures
            Self::selection_read(*parse, *value, outcome(read)),
    {
        match value.as_str() {
            Some(text) => {
                let parsed = parse(text);
                assert(call_ensures(*parse, (text,), parsed));
                Self::from_parsed_selection(parsed)
            },
            None => Err(
                FederationError::internal(
                    "`selection` field in `@connect` directive is not a string",
                ),
            ),
        }
    }

    /// Reads an argument of `@connect`.
    pub fn read<
        P: Fn(&String) -> Result<S, String>,
        H: Fn(&Value) -> Vec<Result<Header, String>>,
    >(argument: &Argument, parse: &P, from_headers_arg: &H) -> (read: Result<
        ConnectArgument<S>,
        FederationError,
    >)
        requires
            forall|text: &String| call_requires(*parse, (text,)),
            forall|value: &Value| call_requires(*from_headers_arg, (value,)),
        ensures
            Self::reads(*parse, *from_headers_arg)(*argument, outcome(read)),
    {
        let name = &argument.name;
        let value = &argument.value;
        if is_named(name, "source") {
            match value.as_str() {
                Some(source) => Ok(ConnectArgument::Source(source.clone())),
                None => Err(
                    FederationError::internal(
                        "`source` field in `@source` directive is not a string",
                    ),
                ),
            }
        } else if is_named(name, "http") {
            match value.as_object() {
                Some(values) => {
                    let http = ConnectHTTPArguments::try_from(values, parse, from_headers_arg);
                    assert(ConnectHTTPArguments::reads(
                        *parse,
                        *from_headers_arg,
                        values@,
                        outcome(http),
                    ));
                    match http {
                        Ok(http) => Ok(ConnectArgument::Http(http)),
                        Err(error) => Err(error),
                    }
                },
                None => Err(
                    FederationError::internal(
                        "`http` field in `@connect` directive is not an object",
                    ),
                ),
            }
        } else if is_named(name, "selection") {
            Self::read_selection(value, parse)
        } else if is_named(name, "entity") {
            match value.to_bool() {
                Some(entity) => Ok(ConnectArgument::<S>::Entity(entity)),
                None => Err(
                    FederationError::internal(
                        "`entity` field in `@connect` directive is not a boolean",
                    ),
                ),
            }
        } else {
            Err(
                FederationError::internal_about(
                    "unknown argument in `@connect` directive: ",
                    name.as_str(),
                ),
            )
        }
    }
}

impl<S> ConnectDirectiveArguments<S> {
    /// What the arguments make at `position`: of each argument the last one, where only a
    /// selection is needed, and the entity is not resolved unless an argument says so.
    pub open spec fn assembled(
        position: ObjectOrInterfaceFieldDirectivePosition,
        arguments: Seq<ConnectArgument<S>>,
    ) -> Result<ConnectDirectiveArguments<S>, ErrorView> {
        match last_of(arguments, ConnectArgument::selection()) {
            Some(selection) => Ok(
                ConnectDirectiveArguments {
                    position,
                    source: last_of(arguments, ConnectArgument::source()),
                    http: last_of(arguments, ConnectArgument::http()),
                    selection,
                    entity: last_of(arguments, ConnectArgument::entity()) == Some(true),
                },
            ),
            None => Err(internal("`@connect` directive is missing a selection"@)),
        }
    }

    /// Whether the application `directive` at `position` can be read as `made`.
    pub open spec fn application_read<
        P: Fn(&String) -> Result<S, String>,
        H: Fn(&Value) -> Vec<Result<Header, String>>,
    >(
        parse: P,
        from_headers_arg: H,
        position: ObjectOrInterfaceFieldDirectivePosition,
        directive: Directive,
        made: Result<ConnectDirectiveArguments<S>, ErrorView>,
    ) -> bool {
        exists|arguments: Result<Seq<ConnectArgument<S>>, ErrorView>|
            {
                &&& #[trigger] collects(
                    directive.arguments@,
                    ConnectArgument::reads(parse, from_headers_arg),
                    arguments,
                )
                &&& made == match arguments {
                    Ok(arguments) => Self::assembled(position, arguments),
                    Err(error) => Err(error),
                }
            }
    }

    /// Whether an application at a position can be read as given.
    pub open spec fn reads<
        P: Fn(&String) -> Result<S, String>,
        H: Fn(&Value) -> Vec<Result<Header, String>>,
    >(parse: P, from_headers_arg: H) -> spec_fn(
        (ObjectOrInterfaceFieldDirectivePosition, Directive),
        Result<ConnectDirectiveArguments<S>, ErrorView>,
    ) -> bool {
        |
            application: (ObjectOrInterfaceFieldDirectivePosition, Directive),
            made: Result<ConnectDirectiveArguments<S>, ErrorView>,
        |
            Self::application_read(parse, from_headers_arg, application.0, application.1, made)
    }

    /// Makes the arguments of `@connect` out of the single ones.
    pub fn assemble(
        position: ObjectOrInterfaceFieldDirectivePosition,
        arguments: Vec<ConnectArgument<S>>,
    ) -> (made: Result<ConnectDirectiveArguments<S>, FederationError>)
        ensures
            outcome(made) == Self::assembled(position, arguments@),
    {
        let ghost all = arguments@;
        let mut rest = arguments;
        let mut source: Option<String> = None;
        let mut http: Option<ConnectHTTPArguments<S>> = None;
        let mut selection: Option<S> = None;
        let mut entity: Option<bool> = None;
        while rest.len() > 0
            invariant
                last_of(all, ConnectArgument::source()) == match source {
                    Some(found) => Some(found),
                    None => last_of(rest@, ConnectArgument::source()),
                },
                last_of(all, ConnectArgument::http()) == match http {
                    Some(found) => Some(found),
                    None => last_of(rest@, ConnectArgument::http()),
                },
                last_of(all, ConnectArgument::selection()) == match selection {
                    Some(found) => Some(found),
                    None => last_of(rest@, ConnectArgument::selection()),
                },
                last_of(all, ConnectArgument::entity()) == match entity {
                    Some(found) => Some(found),
                    None => last_of(rest@, ConnectArgument::entity()),
                },
            decreases rest.len(),
        {
            match rest.pop() {
                Some(ConnectArgument::Source(found)) => {
                    if source.is_none() {
                        source = Some(found);
                    }
                },
                Some(ConnectArgument::Http(found)) => {
                    if http.is_none() {
                        http = Some(found);
                    }
                },
                Some(ConnectArgument::Selection(found)) => {
                    if selection.is_none() {
                        selection = Some(found);
                    }
                },
                Some(ConnectArgument::Entity(found)) => {
                    if entity.is_none() {
                        entity = Some(found);
                    }
                },
                None => {},
            }
        }
        match selection {
            Some(selection) => Ok(
                ConnectDirectiveArguments {
                    position,
                    source,
                    http,
                    selection,
                    entity: match entity {
                        Some(entity) => entity,
                        None => false,
                    },
                },
            ),
            None => Err(
                FederationError::internal("`@connect` directive is missing a selection"),
            ),
        }
    }

    /// Reads the arguments of the application `directive` of `@connect` at `position`.
    pub fn from_position_and_directive<
        P: Fn(&String) -> Result<S, String>,
        H: Fn(&Value) -> Vec<Result<Header, String>>,
    >(
        position: ObjectOrInterfaceFieldDirectivePosition,
        directive: &Directive,
        parse: &P,
        from_headers_arg: &H,
    ) -> (made: Result<ConnectDirectiveArguments<S>, FederationError>)
        requires
            forall|text: &String| call_requires(*parse, (text,)),
            forall|value: &Value| call_requires(*from_headers_arg, (value,)),
        ensures
            Self::application_read(*parse, *from_headers_arg, position, *directive, outcome(made)),
    {
        let ghost gives = ConnectArgument::<S>::reads(*parse, *from_headers_arg);
        let args = &directive.arguments;
        let mut arguments: Vec<ConnectArgument<S>> = Vec::new();
        let mut i: usize = 0;
        while i < args.len()
            invariant
                i <= args.len(),
                arguments.len() == i,
                gives == ConnectArgument::<S>::reads(*parse, *from_headers_arg),
                args == directive.arguments,
                forall|text: &String| call_requires(*parse, (text,)),
                forall|value: &Value| call_requires(*from_headers_arg, (value,)),
                forall|j: int| 0 <= j < i ==> gives(#[trigger] args@[j], Ok(arguments@[j])),
            decreases args.len() - i,
        {
            match ConnectArgument::read(&args[i], parse, from_headers_arg) {
                Ok(argument) => {
                    arguments.push(argument);
                },
                Err(error) => {
                    proof {
                        lemma_first_failure(args@, gives, arguments@, error@);
                    }
                    return Err(error);
                },
            }
            i += 1;
        }
        proof {
            assert(collects(args@, gives, Ok::<Seq<ConnectArgument<S>>, ErrorView>(arguments@)));
        }
        Self::assemble(position, arguments)
    }
}

/// Whether a field of the `http` argument of `@connect` has a meaning.
pub open spec fn is_http_field(name: Seq<char>) -> bool {
    ||| name == "body"@
    ||| name == "headers"@
    ||| name == "GET"@
    ||| name == "POST"@
    ||| name == "PATCH"@
    ||| name == "PUT"@
    ||| name == "DELETE"@
}

/// A field without meaning makes no difference to what the fields make.
proof fn lemma_other_field<S>(
    fields: Seq<ConnectHTTPField<S>>,
    n: int,
    made: ConnectHTTPArguments<S>,
)
    requires
        0 <= n < fields.len(),
        fields[n] is Other,
    ensures
        ConnectHTTPArguments::assembles(fields, made) == ConnectHTTPArguments::assembles(
            without(fields, n),
            made,
        ),
{
    law_silent_item_can_be_left_out(fields, n, ConnectHTTPField::<S>::get());
    law_silent_item_can_be_left_out(fields, n, ConnectHTTPField::<S>::post());
    law_silent_item_can_be_left_out(fields, n, ConnectHTTPField::<S>::patch());
    law_silent_item_can_be_left_out(fields, n, ConnectHTTPField::<S>::put());
    law_silent_item_can_be_left_out(fields, n, ConnectHTTPField::<S>::delete());
    law_silent_item_can_be_left_out(fields, n, ConnectHTTPField::<S>::body());
    law_silent_item_can_be_left_out(fields, n, ConnectHTTPField::<S>::headers());
}

/// A field of the `http` argument of `@connect` that has no meaning makes no difference, whatever
/// its value.
pub proof fn law_unknown_http_field_is_ignored<
    S,
    P: Fn(&String) -> Result<S, String>,
    H: Fn(&Value) -> Vec<Result<Header, String>>,
>(
    parse: P,
    from_headers_arg: H,
    values: Seq<(String, Value)>,
    n: int,
    made: Result<ConnectHTTPArguments<S>, ErrorView>,
)
    requires
        0 <= n < values.len(),
        !is_http_field(values[n].0@),
    ensures
        ConnectHTTPArguments::reads(parse, from_headers_arg, values, made)
            <==> ConnectHTTPArguments::reads(parse, from_headers_arg, without(values, n), made),
{
    let gives = ConnectHTTPField::<S>::reads(parse, from_headers_arg);
    let other: ConnectHTTPField<S> = ConnectHTTPField::Other;
    let rest = without(values, n);
    assert forall|outcome: Result<ConnectHTTPField<S>, ErrorView>| #[trigger]
        gives(values[n], outcome) <==> outcome == Ok::<ConnectHTTPField<S>, ErrorView>(other) by {
        assert(ConnectHTTPField::<S>::plain_field(values[n].0@, values[n].1) == Ok::<
            ConnectHTTPField<S>,
            ErrorView,
        >(other));
    }
    law_item_with_value_can_be_left_out(values, gives, n, other);
    if ConnectHTTPArguments::reads(parse, from_headers_arg, values, made) {
        let fields = choose|fields: Result<Seq<ConnectHTTPField<S>>, ErrorView>|
            {
                &&& #[trigger] collects(values, gives, fields)
                &&& match fields {
                    Ok(fields) => made matches Ok(arguments) && ConnectHTTPArguments::assembles(
                        fields,
                        arguments,
                    ),
                    Err(error) => made == Err::<ConnectHTTPArguments<S>, ErrorView>(error),
                }
            };
        match fields {
            Ok(found) => {
                assert(collects(values, gives, Ok::<Seq<ConnectHTTPField<S>>, ErrorView>(found)));
                lemma_other_field(found, n, made->Ok_0);
                assert(collects(
                    rest,
                    gives,
                    Ok::<Seq<ConnectHTTPField<S>>, ErrorView>(without(found, n)),
                ));
            },
            Err(error) => {
                assert(collects(values, gives, Err::<Seq<ConnectHTTPField<S>>, ErrorView>(error)));
                assert(collects(rest, gives, Err::<Seq<ConnectHTTPField<S>>, ErrorView>(error)));
            },
        }
    }
    if ConnectHTTPArguments::reads(parse, from_headers_arg, rest, made) {
        let fields = choose|fields: Result<Seq<ConnectHTTPField<S>>, ErrorView>|
            {
                &&& #[trigger] collects(rest, gives, fields)
                &&& match fields {
                    Ok(fields) => made matches Ok(arguments) && ConnectHTTPArguments::assembles(
                        fields,
                        arguments,
                    ),
                    Err(error) => made == Err::<ConnectHTTPArguments<S>, ErrorView>(error),
                }
            };
        match fields {
            Ok(found) => {
                assert(collects(rest, gives, Ok::<Seq<ConnectHTTPField<S>>, ErrorView>(found)));
                let more = found.insert(n, other);
                assert(without(more, n) == found);
                assert(more[n] == other);
                lemma_other_field(more, n, made->Ok_0);
                assert(collects(values, gives, Ok::<Seq<ConnectHTTPField<S>>, ErrorView>(more)));
            },
            Err(error) => {
                assert(collects(rest, gives, Err::<Seq<ConnectHTTPField<S>>, ErrorView>(error)));
                assert(collects(values, gives, Err::<Seq<ConnectHTTPField<S>>, ErrorView>(error)));
            },
        }
    }
}

/// Whether a field of the `http` argument of `@connect` has a meaning.
pub open spec fn is_known() -> spec_fn((String, Value)) -> bool {
    |field: (String, Value)| is_http_field(field.0@)
}

/// All fields of the `http` argument of `@connect` that have no meaning, taken together, make no
/// difference, whatever their values: neither to success, nor to the error, nor to the result.
pub proof fn law_unknown_http_fields_are_ignored<
    S,
    P: Fn(&String) -> Result<S, String>,
    H: Fn(&Value) -> Vec<Result<Header, String>>,
>(
    parse: P,
    from_headers_arg: H,
    values: Seq<(String, Value)>,
    made: Result<ConnectHTTPArguments<S>, ErrorView>,
)
    ensures
        ConnectHTTPArguments::reads(parse, from_headers_arg, values, made)
            <==> ConnectHTTPArguments::reads(
            parse,
            from_headers_arg,
            values.filter(is_known()),
            made,
        ),
    decreases values.len(),
{
    if exists|n: int| 0 <= n < values.len() && !is_http_field((#[trigger] values[n]).0@) {
        let n = choose|n: int| 0 <= n < values.len() && !is_http_field((#[trigger] values[n]).0@);
        law_unknown_http_field_is_ignored(parse, from_headers_arg, values, n, made);
        law_unknown_http_fields_are_ignored(parse, from_headers_arg, without(values, n), made);
        lemma_filtered_without(values, n, is_known());
    } else {
        lemma_all_pass(values, is_known());
    }
}

/// An application of `@connect` that can be read has no arguments but the four known ones, among
/// them a selection. Without an argument `source`, `http` or `entity` there is no source, no
/// `http` argument, and the entity is not resolved.
pub proof fn law_read_connector<
    S,
    P: Fn(&String) -> Result<S, String>,
    H: Fn(&Value) -> Vec<Result<Header, String>>,
>(
    parse: P,
    from_headers_arg: H,
    position: ObjectOrInterfaceFieldDirectivePosition,
    directive: Directive,
    made: ConnectDirectiveArguments<S>,
)
    requires
        ConnectDirectiveArguments::application_read(
            parse,
            from_headers_arg,
            position,
            directive,
            Ok(made),
        ),
    ensures
        made.position == position,
        forall|i: int|
            0 <= i < directive.arguments@.len() ==> {
                let name = (#[trigger] directive.arguments@[i]).name@;
                name == "source"@ || name == "http"@ || name == "selection"@ || name == "entity"@
            },
        has_argument(directive, "selection"@),
        made.source is Some <==> has_argument(directive, "source"@),
        made.http is Some <==> has_argument(directive, "http"@),
        !has_argument(directive, "entity"@) ==> !made.entity,
{
    let args = directive.arguments@;
    let gives = ConnectArgument::<S>::reads(parse, from_headers_arg);
    let arguments = choose|arguments: Result<Seq<ConnectArgument<S>>, ErrorView>|
        {
            &&& #[trigger] collects(args, gives, arguments)
            &&& Ok::<ConnectDirectiveArguments<S>, ErrorView>(made) == match arguments {
                Ok(arguments) => ConnectDirectiveArguments::assembled(position, arguments),
                Err(error) => Err(error),
            }
        };
    let found = arguments->Ok_0;
    reveal_strlit("source");
    reveal_strlit("http");
    reveal_strlit("selection");
    reveal_strlit("entity");
    assert("http"@.len() == 4 && "selection"@.len() == 9);
    assert("source"@[0] != "entity"@[0]);
    assert forall|i: int| 0 <= i < args.len() implies {
        let name = (#[trigger] args[i]).name@;
        &&& name == "source"@ || name == "http"@ || name == "selection"@ || name == "entity"@
        &&& found[i] is Source <==> name == "source"@
        &&& found[i] is Http <==> name == "http"@
        &&& found[i] is Selection <==> name == "selection"@
        &&& found[i] is Entity <==> name == "entity"@
    } by {
        assert(gives(args[i], Ok(found[i])));
    }
    lemma_found_by_name(directive, found, ConnectArgument::source(), "source"@);
    lemma_found_by_name(directive, found, ConnectArgument::http(), "http"@);
    lemma_found_by_name(directive, found, ConnectArgument::selection(), "selection"@);
    lemma_found_by_name(directive, found, ConnectArgument::entity(), "entity"@);
}

/// Whether a directive application has an argument of the given name.
pub open spec fn has_argument(directive: Directive, name: Seq<char>) -> bool {
    exists|i: int| 0 <= i < directive.arguments@.len() && (#[trigger] directive.arguments@[i]).name@ == name
}

/// What is picked from the arguments of one name is found exactly if there is such an argument.
pub(crate) proof fn lemma_found_by_name<A, B>(
    directive: Directive,
    found: Seq<A>,
    pick: spec_fn(A) -> Option<B>,
    name: Seq<char>,
)
    requires
        found.len() == directive.arguments@.len(),
        forall|i: int|
            0 <= i < found.len() ==> (pick(#[trigger] found[i]) is Some
                <==> directive.arguments@[i].name@ == name),
    ensures
        last_of(found, pick) is Some <==> has_argument(directive, name),
{
    law_found_in_an_item(found, pick);
    if last_of(found, pick) is Some {
        let i = choose|i: int| 0 <= i < found.len() && pick(#[trigger] found[i]) is Some;
        assert(directive.arguments@[i].name@ == name);
    }
    if has_argument(directive, name) {
        let i = choose|i: int|
            0 <= i < directive.arguments@.len() && (#[trigger] directive.arguments@[i]).name@ == name;
        assert(pick(found[i]) is Some);
    }
}

} // verus!
