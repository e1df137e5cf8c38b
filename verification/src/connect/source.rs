//! The arguments of `@source`.

use crate::ast::is_named;
use crate::ast::Argument;
use crate::ast::Directive;
use crate::ast::Value;
use crate::collecting::collects;
use crate::collecting::last_of;
use crate::collecting::lemma_first_failure;
use crate::connect::connector::has_argument;
use crate::connect::connector::lemma_found_by_name;
use crate::connect::headers::collect_headers;
use crate::connect::headers::empty_headers;
use crate::connect::headers::header_entries;
use crate::connect::headers::headers_collected;
use crate::connect::headers::Header;
use crate::connect::headers::HeaderSource;
use crate::connect::url::parse_url;
use crate::connect::url::url_of;
use crate::error::internal;
use crate::error::outcome;
use crate::error::ErrorView;
use crate::error::FederationError;
use apollo_compiler::collections::IndexMap;
use vstd::prelude::*;

verus! {

/// The `http` argument of `@source`.
#[derive(Debug)]
pub struct SourceHTTPArguments {
    /// The serialization of the base URL.
    pub base_url: String,
    /// The headers, by their names.
    pub headers: IndexMap<String, HeaderSource>,
}

/// The arguments of `@source`.
#[derive(Debug)]
pub struct SourceDirectiveArguments {
    pub name: String,
    pub http: SourceHTTPArguments,
}

/// A field of the `http` argument of `@source`.
#[derive(Debug)]
pub enum SourceHTTPField {
    BaseUrl(String),
    Headers(IndexMap<String, HeaderSource>),
}

/// An argument of `@source`.
#[derive(Debug)]
pub enum SourceArgument {
    Name(String),
    Http(SourceHTTPArguments),
}

impl SourceHTTPField {
    /// The base URL, if this is it.
    pub open spec fn base_url() -> spec_fn(SourceHTTPField) -> Option<String> {
        |field: SourceHTTPField|
            match field {
                SourceHTTPField::BaseUrl(url) => Some(url),
                _ => None,
            }
    }

    /// The headers, if these are they.
    pub open spec fn headers() -> spec_fn(SourceHTTPField) -> Option<
        IndexMap<String, HeaderSource>,
    > {
        |field: SourceHTTPField|
            match field {
                SourceHTTPField::Headers(headers) => Some(headers),
                _ => None,
            }
    }

    /// Whether `read` is what a base URL gives that was parsed as `parsed`.
    pub open spec fn base_url_parsed(
        parsed: Result<Seq<char>, Seq<char>>,
        read: Result<SourceHTTPField, ErrorView>,
    ) -> bool {
        match parsed {
            Ok(url) => read matches Ok(SourceHTTPField::BaseUrl(text)) && text@ == url,
            Err(message) => read == Err::<SourceHTTPField, ErrorView>(
                internal("Invalid base URL: "@ + message),
            ),
        }
    }

    /// Whether `read` is what `value` gives as the headers, where `from_headers_arg` parses them.
    pub open spec fn headers_read<H: Fn(&Value) -> Vec<Result<Header, String>>>(
        from_headers_arg: H,
        value: Value,
        read: Result<SourceHTTPField, ErrorView>,
    ) -> bool {
        exists|parsed: Vec<Result<Header, String>>, headers: Result<
            IndexMap<String, HeaderSource>,
            ErrorView,
        >|
            {
                &&& #[trigger] call_ensures(from_headers_arg, (&value,), parsed)
                &&& #[trigger] headers_collected(parsed@, headers)
                &&& read == match headers {
                    Ok(headers) => Ok(SourceHTTPField::Headers(headers)),
                    Err(error) => Err(error),
                }
            }
    }

    /// Whether a field of the `http` argument can be read as `read`.
    pub open spec fn reads<H: Fn(&Value) -> Vec<Result<Header, String>>>(
        from_headers_arg: H,
    ) -> spec_fn((String, Value), Result<SourceHTTPField, ErrorView>) -> bool {
        |field: (String, Value), read: Result<SourceHTTPField, ErrorView>|
            if field.0@ == "baseURL"@ {
                match field.1.text() {
                    Some(text) => Self::base_url_parsed(url_of(text@), read),
                    None => read == Err::<SourceHTTPField, ErrorView>(
                        internal(
                            "`baseURL` field in `@source` directive's `http` field is not a string"@,
                        ),
                    ),
                }
            } else if field.0@ == "headers"@ {
                Self::headers_read(from_headers_arg, field.1, read)
            } else {
                read == Err::<SourceHTTPField, ErrorView>(
                    internal(
                        "unknown argument in `@source` directive's `http` field: "@ + field.0@,
                    ),
                )
            }
    }

    /// The base URL that was parsed as `parsed`.
    pub fn from_parsed_url(parsed: Result<String, String>) -> (read: Result<
        SourceHTTPField,
        FederationError,
    >)
        ensures
            Self::base_url_parsed(
                match parsed {
                    Ok(url) => Ok(url@),
                    Err(message) => Err(message@),
                },
                outcome(read),
            ),
    {
        match parsed {
            Ok(url) => Ok(SourceHTTPField::BaseUrl(url)),
            Err(message) => Err(
                FederationError::internal_about("Invalid base URL: ", message.as_str()),
            ),
        }
    }

    /// Reads a field of the `http` argument of `@source`.
    pub fn read<H: Fn(&Value) -> Vec<Result<Header, String>>>(
        field: &(String, Value),
        from_headers_arg: &H,
    ) -> (read: Result<SourceHTTPField, FederationError>)
        requires
            forall|value: &Value| call_requires(*from_headers_arg, (value,)),
        ensures
            Self::reads(*from_headers_arg)(*field, outcome(read)),
    {
        if is_named(&field.0, "baseURL") {
            match field.1.as_str() {
                Some(text) => Self::from_parsed_url(parse_url(text)),
                None => Err(
                    FederationError::internal(
                        "`baseURL` field in `@source` directive's `http` field is not a string",
                    ),
                ),
            }
        } else if is_named(&field.0, "headers") {
            let parsed = from_headers_arg(&field.1);
            let ghost parsed_headers = parsed;
            let headers = collect_headers(parsed);
            proof {
                assert(call_ensures(*from_headers_arg, (&field.1,), parsed_headers));
                assert(headers_collected(parsed_headers@, outcome(headers)));
            }
            match headers {
                Ok(headers) => Ok(SourceHTTPField::Headers(headers)),
                Err(error) => Err(error),
            }
        } else {
            Err(
                FederationError::internal_about(
                    "unknown argument in `@source` directive's `http` field: ",
                    field.0.as_str(),
                ),
            )
        }
    }
}

/// Whether `headers` are the ones that were given, or none if none were.
pub open spec fn headers_or_none(
    given: Option<IndexMap<String, HeaderSource>>,
    headers: IndexMap<String, HeaderSource>,
) -> bool {
    match given {
        Some(found) => headers == found,
        None => header_entries(headers) == Seq::<(Seq<char>, HeaderSource)>::empty(),
    }
}

/// The headers that were given, or none if none were.
pub(crate) fn given_headers(given: Option<IndexMap<String, HeaderSource>>) -> (headers: IndexMap<
    String,
    HeaderSource,
>)
    ensures
        headers_or_none(given, headers),
{
    match given {
        Some(headers) => headers,
        None => empty_headers(),
    }
}

impl SourceHTTPArguments {
    /// Whether `made` is what the fields make: the last base URL and the last headers, where a
    /// base URL is needed and headers are not.
    pub open spec fn assembles(
        fields: Seq<SourceHTTPField>,
        made: Result<SourceHTTPArguments, ErrorView>,
    ) -> bool {
        match last_of(fields, SourceHTTPField::base_url()) {
            Some(url) => {
                &&& made matches Ok(arguments)
                &&& arguments.base_url == url
                &&& headers_or_none(last_of(fields, SourceHTTPField::headers()), arguments.headers)
            },
            None => made == Err::<SourceHTTPArguments, ErrorView>(
                internal("missing `base_url` field in `@source` directive's `http` argument"@),
            ),
        }
    }

    /// Whether the fields of an object value can be read as `made`.
    pub open spec fn reads<H: Fn(&Value) -> Vec<Result<Header, String>>>(
        from_headers_arg: H,
        values: Seq<(String, Value)>,
        made: Result<SourceHTTPArguments, ErrorView>,
    ) -> bool {
        exists|fields: Result<Seq<SourceHTTPField>, ErrorView>|
            {
                &&& #[trigger] collects(values, SourceHTTPField::reads(from_headers_arg), fields)
                &&& match fields {
                    Ok(fields) => Self::assembles(fields, made),
                    Err(error) => made == Err::<SourceHTTPArguments, ErrorView>(error),
                }
            }
    }

    /// Makes the `http` argument out of its fields.
    pub fn assemble(fields: Vec<SourceHTTPField>) -> (made: Result<
        SourceHTTPArguments,
        FederationError,
    >)
        ensures
            Self::assembles(fields@, outcome(made)),
    {
        let ghost all = fields@;
        let mut rest = fields;
        let mut base_url: Option<String> = None;
        let mut headers: Option<IndexMap<String, HeaderSource>> = None;
        while rest.len() > 0
            invariant
                last_of(all, SourceHTTPField::base_url()) == match base_url {
                    Some(url) => Some(url),
                    None => last_of(rest@, SourceHTTPField::base_url()),
                },
                last_of(all, SourceHTTPField::headers()) == match headers {
                    Some(found) => Some(found),
                    None => last_of(rest@, SourceHTTPField::headers()),
                },
            decreases rest.len(),
        {
            match rest.pop() {
                Some(SourceHTTPField::BaseUrl(url)) => {
                    if base_url.is_none() {
                        base_url = Some(url);
                    }
                },
                Some(SourceHTTPField::Headers(found)) => {
                    if headers.is_none() {
                        headers = Some(found);
                    }
                },
                None => {},
            }
        }
        match base_url {
            Some(base_url) => Ok(SourceHTTPArguments { base_url, headers: given_headers(headers) }),
            None => Err(
                FederationError::internal(
                    "missing `base_url` field in `@source` directive's `http` argument",
                ),
            ),
        }
    }

    /// Reads the `http` argument of `@source` from the fields of an object value.
    pub fn try_from<H: Fn(&Value) -> Vec<Result<Header, String>>>(
        values: &Vec<(String, Value)>,
        from_headers_arg: &H,
    ) -> (made: Result<SourceHTTPArguments, FederationError>)
        requires
            forall|value: &Value| call_requires(*from_headers_arg, (value,)),
        ensures
            Self::reads(*from_headers_arg, values@, outcome(made)),
    {
        let ghost gives = SourceHTTPField::reads(*from_headers_arg);
        let mut fields: Vec<SourceHTTPField> = Vec::new();
        let mut i: usize = 0;
        while i < values.len()
            invariant
                i <= values.len(),
                fields.len() == i,
                gives == SourceHTTPField::reads(*from_headers_arg),
                forall|value: &Value| call_requires(*from_headers_arg, (value,)),
                forall|j: int| 0 <= j < i ==> gives(#[trigger] values@[j], Ok(fields@[j])),
            decreases values.len() - i,
        {
            match SourceHTTPField::read(&values[i], from_headers_arg) {
                Ok(field) => {
                    fields.push(field);
                },
                Err(error) => {
                    proof {
                        lemma_first_failure(values@, gives, fields@, error@);
                    }
                    return Err(error);
                },
            }
            i += 1;
        }
        proof {
            assert(collects(values@, gives, Ok::<Seq<SourceHTTPField>, ErrorView>(fields@)));
        }
        Self::assemble(fields)
    }
}

impl SourceArgument {
    /// The name, if this is it.
    pub open spec fn name() -> spec_fn(SourceArgument) -> Option<String> {
        |argument: SourceArgument|
            match argument {
                SourceArgument::Name(name) => Some(name),
                _ => None,
            }
    }

    /// The `http` argument, if this is it.
    pub open spec fn http() -> spec_fn(SourceArgument) -> Option<SourceHTTPArguments> {
        |argument: SourceArgument|
            match argument {
                SourceArgument::Http(http) => Some(http),
                _ => None,
            }
    }

    /// Whether `read` is what the fields of the `http` argument give.
    pub open spec fn http_read<H: Fn(&Value) -> Vec<Result<Header, String>>>(
        from_headers_arg: H,
        values: Seq<(String, Value)>,
        read: Result<SourceArgument, ErrorView>,
    ) -> bool {
        exists|http: Result<SourceHTTPArguments, ErrorView>|
            {
                &&& #[trigger] SourceHTTPArguments::reads(from_headers_arg, values, http)
                &&& read == match http {
                    Ok(http) => Ok(SourceArgument::Http(http)),
                    Err(error) => Err(error),
                }
            }
    }

    /// Whether an argument of `@source` can be read as `read`.
    pub open spec fn reads<H: Fn(&Value) -> Vec<Result<Header, String>>>(
        from_headers_arg: H,
    ) -> spec_fn(Argument, Result<SourceArgument, ErrorView>) -> bool {
        |argument: Argument, read: Result<SourceArgument, ErrorView>|
            if argument.name@ == "name"@ {
                read == match argument.value.text() {
                    Some(name) => Ok(SourceArgument::Name(name)),
                    None => Err(
                        internal("`name` field in `@source` directive is not a string"@),
                    ),
                }
            } else if argument.name@ == "http"@ {
                match argument.value.fields() {
                    Some(values) => Self::http_read(from_headers_arg, values@, read),
                    None => read == Err::<SourceArgument, ErrorView>(
                        internal("`http` field in `@source` directive is not an object"@),
                    ),
                }
            } else {
                read == Err::<SourceArgument, ErrorView>(
                    internal("unknown argument in `@source` directive: "@ + argument.name@),
                )
            }
    }

    /// Reads an argument of `@source`.
    pub fn read<H: Fn(&Value) -> Vec<Result<Header, String>>>(
        argument: &Argument,
        from_headers_arg: &H,
    ) -> (read: Result<SourceArgument, FederationError>)
        requires
            forall|value: &Value| call_requires(*from_headers_arg, (value,)),
        ensures
            Self::reads(*from_headers_arg)(*argument, outcome(read)),
    {
        if is_named(&argument.name, "name") {
            match argument.value.as_str() {
                Some(name) => Ok(SourceArgument::Name(name.clone())),
                None => Err(
                    FederationError::internal(
                        "`name` field in `@source` directive is not a string",
                    ),
                ),
            }
        } else if is_named(&argument.name, "http") {
            match argument.value.as_object() {
                Some(values) => {
                    let http = SourceHTTPArguments::try_from(values, from_headers_arg);
                    assert(SourceHTTPArguments::reads(*from_headers_arg, values@, outcome(http)));
                    match http {
                        Ok(http) => Ok(SourceArgument::Http(http)),
                        Err(error) => Err(error),
                    }
                },
                None => Err(
                    FederationError::internal(
                        "`http` field in `@source` directive is not an object",
                    ),
                ),
            }
        } else {
            Err(
                FederationError::internal_about(
                    "unknown argument in `@source` directive: ",
                    argument.name.as_str(),
                ),
            )
        }
    }
}

impl SourceDirectiveArguments {
    /// Whether `made` is what the arguments make: the last name and the last `http` argument,
    /// both of which are needed.
    pub open spec fn assembles(
        arguments: Seq<SourceArgument>,
        made: Result<SourceDirectiveArguments, ErrorView>,
    ) -> bool {
        made == match (
            last_of(arguments, SourceArgument::name()),
            last_of(arguments, SourceArgument::http()),
        ) {
            (Some(name), Some(http)) => Ok(SourceDirectiveArguments { name, http }),
            (None, _) => Err(internal("missing `name` field in `@source` directive"@)),
            (Some(_), None) => Err(internal("missing `http` field in `@source` directive"@)),
        }
    }

    /// Whether the directive application can be read as `made`.
    pub open spec fn reads<H: Fn(&Value) -> Vec<Result<Header, String>>>(
        from_headers_arg: H,
    ) -> spec_fn(Directive, Result<SourceDirectiveArguments, ErrorView>) -> bool {
        |directive: Directive, made: Result<SourceDirectiveArguments, ErrorView>|
            exists|arguments: Result<Seq<SourceArgument>, ErrorView>|
                {
                    &&& #[trigger] collects(
                        directive.arguments@,
                        SourceArgument::reads(from_headers_arg),
                        arguments,
                    )
                    &&& match arguments {
                        Ok(arguments) => Self::assembles(arguments, made),
                        Err(error) => made == Err::<SourceDirectiveArguments, ErrorView>(error),
                    }
                }
    }

    /// Makes the arguments of `@source` out of the single ones.
    pub fn assemble(arguments: Vec<SourceArgument>) -> (made: Result<
        SourceDirectiveArguments,
        FederationError,
    >)
        ensures
            Self::assembles(arguments@, outcome(made)),
    {
        let ghost all = arguments@;
        let mut rest = arguments;
        let mut name: Option<String> = None;
        let mut http: Option<SourceHTTPArguments> = None;
        while rest.len() > 0
            invariant
                last_of(all, SourceArgument::name()) == match name {
                    Some(found) => Some(found),
                    None => last_of(rest@, SourceArgument::name()),
                },
                last_of(all, SourceArgument::http()) == match http {
                    Some(found) => Some(found),
                    None => last_of(rest@, SourceArgument::http()),
                },
            decreases rest.len(),
        {
            match rest.pop() {
                Some(SourceArgument::Name(found)) => {
                    if name.is_none() {
                        name = Some(found);
                    }
                },
                Some(SourceArgument::Http(found)) => {
                    if http.is_none() {
                        http = Some(found);
                    }
                },
                None => {},
            }
        }
        match (name, http) {
            (Some(name), Some(http)) => Ok(SourceDirectiveArguments { name, http }),
            (None, _) => Err(
                FederationError::internal("missing `name` field in `@source` directive"),
            ),
            (Some(_), None) => Err(
                FederationError::internal("missing `http` field in `@source` directive"),
            ),
        }
    }

    /// Reads the arguments of an application of `@source`.
    pub fn try_from<H: Fn(&Value) -> Vec<Result<Header, String>>>(
        directive: &Directive,
        from_headers_arg: &H,
    ) -> (made: Result<SourceDirectiveArguments, FederationError>)
        requires
            forall|value: &Value| call_requires(*from_headers_arg, (value,)),
        ensures
            Self::reads(*from_headers_arg)(*directive, outcome(made)),
    {
        let ghost gives = SourceArgument::reads(*from_headers_arg);
        let args = &directive.arguments;
        let mut arguments: Vec<SourceArgument> = Vec::new();
        let mut i: usize = 0;
        while i < args.len()
            invariant
                i <= args.len(),
                arguments.len() == i,
                gives == SourceArgument::reads(*from_headers_arg),
                args == directive.arguments,
                forall|value: &Value| call_requires(*from_headers_arg, (value,)),
                forall|j: int| 0 <= j < i ==> gives(#[trigger] args@[j], Ok(arguments@[j])),
            decreases args.len() - i,
        {
            match SourceArgument::read(&args[i], from_headers_arg) {
                Ok(argument) => {
                    arguments.push(argument);
                },
                Err(error) => {
                    proof {
                        lemma_first_failure(args@, gives, arguments@, error@);
                    }
                    return Err(error);
                },
            }
            i += 1;
        }
        proof {
            assert(collects(args@, gives, Ok::<Seq<SourceArgument>, ErrorView>(arguments@)));
        }
        Self::assemble(arguments)
    }
}

/// An application of `@source` that can be read has no arguments but `name` and `http`, and has
/// both.
pub proof fn law_read_source<H: Fn(&Value) -> Vec<Result<Header, String>>>(
    from_headers_arg: H,
    directive: Directive,
    made: SourceDirectiveArguments,
)
    requires
        SourceDirectiveArguments::reads(from_headers_arg)(directive, Ok(made)),
    ensures
        forall|i: int|
            0 <= i < directive.arguments@.len() ==> {
                let name = (#[trigger] directive.arguments@[i]).name@;
                name == "name"@ || name == "http"@
            },
        has_argument(directive, "name"@),
        has_argument(directive, "http"@),
{
    let args = directive.arguments@;
    let gives = SourceArgument::reads(from_headers_arg);
    let arguments = choose|arguments: Result<Seq<SourceArgument>, ErrorView>|
        {
            &&& #[trigger] collects(args, gives, arguments)
            &&& match arguments {
                Ok(arguments) => SourceDirectiveArguments::assembles(arguments, Ok(made)),
                Err(error) => Ok::<SourceDirectiveArguments, ErrorView>(made) == Err::<
                    SourceDirectiveArguments,
                    ErrorView,
                >(error),
            }
        };
    let found = arguments->Ok_0;
    reveal_strlit("name");
    reveal_strlit("http");
    assert("name"@[0] != "http"@[0]);
    assert forall|i: int| 0 <= i < args.len() implies {
        let name = (#[trigger] args[i]).name@;
        &&& name == "name"@ || name == "http"@
        &&& found[i] is Name <==> name == "name"@
        &&& found[i] is Http <==> name == "http"@
    } by {
        assert(gives(args[i], Ok(found[i])));
    }
    lemma_found_by_name(directive, found, SourceArgument::name(), "name"@);
    lemma_found_by_name(directive, found, SourceArgument::http(), "http"@);
}

} // verus!
