//! Reading the same twice gives the same.
//!
//! Selections and headers are read by functions that are passed in. Where those give one result for
//! each input, so do the readers of the connector directives. Header maps are compared by their
//! entries.

use crate::ast::Argument;
use crate::ast::Directive;
use crate::ast::Value;
use crate::collecting::agree;
use crate::collecting::all_alike;
use crate::collecting::collects;
use crate::collecting::determined;
use crate::collecting::fails_at;
use crate::collecting::found_alike;
use crate::collecting::has_value;
use crate::collecting::law_collecting_is_determined;
use crate::collecting::lemma_last_is_alike;
use crate::collecting::same;
use crate::connect::connector::is_known;
use crate::connect::connector::law_unknown_http_fields_are_ignored;
use crate::connect::connector::ConnectArgument;
use crate::connect::connector::ConnectDirectiveArguments;
use crate::connect::connector::ConnectHTTPArguments;
use crate::connect::connector::ConnectHTTPField;
use crate::connect::headers::headers_collected;
use crate::connect::headers::law_collected_headers_are_determined;
use crate::connect::headers::same_headers;
use crate::connect::headers::Header;
use crate::connect::headers::HeaderSource;
use crate::connect::source::SourceArgument;
use crate::connect::source::SourceDirectiveArguments;
use crate::connect::source::SourceHTTPArguments;
use crate::connect::source::SourceHTTPField;
use crate::error::ErrorView;
use crate::position::ObjectOrInterfaceFieldDirectivePosition;
use apollo_compiler::collections::IndexMap;
use vstd::prelude::*;

verus! {

/// A parsed selection, or the text of a message.
pub open spec fn selection_or_message<S>(parsed: Result<S, String>) -> Result<S, Seq<char>> {
    match parsed {
        Ok(selection) => Ok(selection),
        Err(message) => Err(message@),
    }
}

/// Whether `parse` gives one result for each text.
pub open spec fn parses_one_way<S, P: Fn(&String) -> Result<S, String>>(parse: P) -> bool {
    forall|text: String, first: Result<S, String>, second: Result<S, String>| #[trigger]
        call_ensures(parse, (&text,), first) && #[trigger] call_ensures(parse, (&text,), second)
            ==> selection_or_message(first) == selection_or_message(second)
}

/// Whether `from_headers_arg` gives one list of headers for each value.
pub open spec fn lists_one_way<H: Fn(&Value) -> Vec<Result<Header, String>>>(
    from_headers_arg: H,
) -> bool {
    forall|value: Value, first: Vec<Result<Header, String>>, second: Vec<Result<Header, String>>|
        #[trigger] call_ensures(from_headers_arg, (&value,), first) && #[trigger] call_ensures(
            from_headers_arg,
            (&value,),
            second,
        ) ==> first@ == second@
}

impl<S> ConnectHTTPField<S> {
    /// Whether two fields are the same, but for how their header maps came about.
    pub open spec fn alike() -> spec_fn(ConnectHTTPField<S>, ConnectHTTPField<S>) -> bool {
        |first: ConnectHTTPField<S>, second: ConnectHTTPField<S>|
            match (first, second) {
                (ConnectHTTPField::Headers(x), ConnectHTTPField::Headers(y)) => same_headers()(
                    x,
                    y,
                ),
                _ => first == second,
            }
    }
}

impl<S> ConnectHTTPArguments<S> {
    /// Whether two `http` arguments are the same, but for how their header maps came about.
    pub open spec fn alike() -> spec_fn(ConnectHTTPArguments<S>, ConnectHTTPArguments<S>) -> bool {
        |first: ConnectHTTPArguments<S>, second: ConnectHTTPArguments<S>|
            {
                &&& first.get == second.get
                &&& first.post == second.post
                &&& first.patch == second.patch
                &&& first.put == second.put
                &&& first.delete == second.delete
                &&& first.body == second.body
                &&& same_headers()(first.headers, second.headers)
            }
    }
}

impl<S> ConnectArgument<S> {
    /// Whether two arguments are the same, but for how their header maps came about.
    pub open spec fn alike() -> spec_fn(ConnectArgument<S>, ConnectArgument<S>) -> bool {
        |first: ConnectArgument<S>, second: ConnectArgument<S>|
            match (first, second) {
                (ConnectArgument::Http(x), ConnectArgument::Http(y)) => {
                    ConnectHTTPArguments::<S>::alike()(x, y)
                },
                _ => first == second,
            }
    }
}

impl<S> ConnectDirectiveArguments<S> {
    /// Whether two connectors are the same, but for their positions and for how their header maps
    /// came about.
    pub open spec fn read_alike() -> spec_fn(
        ConnectDirectiveArguments<S>,
        ConnectDirectiveArguments<S>,
    ) -> bool {
        |first: ConnectDirectiveArguments<S>, second: ConnectDirectiveArguments<S>|
            {
                &&& first.source == second.source
                &&& found_alike(ConnectHTTPArguments::<S>::alike(), first.http, second.http)
                &&& first.selection == second.selection
                &&& first.entity == second.entity
            }
    }

    /// Whether two connectors are the same, but for how their header maps came about.
    pub open spec fn alike() -> spec_fn(
        ConnectDirectiveArguments<S>,
        ConnectDirectiveArguments<S>,
    ) -> bool {
        |first: ConnectDirectiveArguments<S>, second: ConnectDirectiveArguments<S>|
            first.position == second.position && Self::read_alike()(first, second)
    }
}

impl SourceHTTPField {
    /// Whether two fields are the same: base URLs by their texts, header maps by their entries.
    pub open spec fn alike() -> spec_fn(SourceHTTPField, SourceHTTPField) -> bool {
        |first: SourceHTTPField, second: SourceHTTPField|
            match (first, second) {
                (SourceHTTPField::BaseUrl(x), SourceHTTPField::BaseUrl(y)) => x@ == y@,
                (SourceHTTPField::Headers(x), SourceHTTPField::Headers(y)) => same_headers()(x, y),
                _ => false,
            }
    }
}

impl SourceHTTPArguments {
    /// Whether two `http` arguments are the same: base URLs by their texts, header maps by their
    /// entries.
    pub open spec fn alike() -> spec_fn(SourceHTTPArguments, SourceHTTPArguments) -> bool {
        |first: SourceHTTPArguments, second: SourceHTTPArguments|
            {
                &&& first.base_url@ == second.base_url@
                &&& same_headers()(first.headers, second.headers)
            }
    }
}

impl SourceArgument {
    /// Whether two arguments are the same: base URLs by their texts, header maps by their entries.
    pub open spec fn alike() -> spec_fn(SourceArgument, SourceArgument) -> bool {
        |first: SourceArgument, second: SourceArgument|
            match (first, second) {
                (SourceArgument::Http(x), SourceArgument::Http(y)) => SourceHTTPArguments::alike()(
                    x,
                    y,
                ),
                _ => first == second,
            }
    }
}

impl SourceDirectiveArguments {
    /// Whether two sources are the same: base URLs by their texts, header maps by their entries.
    pub open spec fn alike() -> spec_fn(
        SourceDirectiveArguments,
        SourceDirectiveArguments,
    ) -> bool {
        |first: SourceDirectiveArguments, second: SourceDirectiveArguments|
            first.name == second.name && SourceHTTPArguments::alike()(first.http, second.http)
    }
}

/// A field of the `http` argument of `@connect` is read in one way.
pub proof fn law_http_field_is_determined<
    S,
    P: Fn(&String) -> Result<S, String>,
    H: Fn(&Value) -> Vec<Result<Header, String>>,
>(parse: P, from_headers_arg: H)
    requires
        parses_one_way::<S, P>(parse),
        lists_one_way(from_headers_arg),
    ensures
        determined(
            ConnectHTTPField::<S>::reads(parse, from_headers_arg),
            ConnectHTTPField::<S>::alike(),
        ),
{
    let gives = ConnectHTTPField::<S>::reads(parse, from_headers_arg);
    let alike = ConnectHTTPField::<S>::alike();
    assert forall|
        field: (String, Value),
        x: Result<ConnectHTTPField<S>, ErrorView>,
        y: Result<ConnectHTTPField<S>, ErrorView>,
    | #[trigger] gives(field, x) && #[trigger] gives(field, y) implies agree(alike, x, y) by {
        if field.0@ == "body"@ {
            if let Some(text) = field.1.text() {
                assert(ConnectHTTPField::<S>::body_text_read(parse, text, x));
                assert(ConnectHTTPField::<S>::body_text_read(parse, text, y));
                let first = choose|parsed: Result<S, String>| #[trigger]
                    call_ensures(parse, (&text,), parsed) && x
                        == ConnectHTTPField::<S>::parsed_body(parsed);
                let second = choose|parsed: Result<S, String>| #[trigger]
                    call_ensures(parse, (&text,), parsed) && y
                        == ConnectHTTPField::<S>::parsed_body(parsed);
                assert(selection_or_message(first) == selection_or_message(second));
            }
        } else if field.0@ == "headers"@ {
            let (first, first_map) = choose|
                parsed: Vec<Result<Header, String>>,
                headers: Result<IndexMap<String, HeaderSource>, ErrorView>,
            |
                {
                    &&& #[trigger] call_ensures(from_headers_arg, (&field.1,), parsed)
                    &&& #[trigger] headers_collected(parsed@, headers)
                    &&& x == match headers {
                        Ok(headers) => Ok(ConnectHTTPField::<S>::Headers(headers)),
                        Err(error) => Err(error),
                    }
                };
            let (second, second_map) = choose|
                parsed: Vec<Result<Header, String>>,
                headers: Result<IndexMap<String, HeaderSource>, ErrorView>,
            |
                {
                    &&& #[trigger] call_ensures(from_headers_arg, (&field.1,), parsed)
                    &&& #[trigger] headers_collected(parsed@, headers)
                    &&& y == match headers {
                        Ok(headers) => Ok(ConnectHTTPField::<S>::Headers(headers)),
                        Err(error) => Err(error),
                    }
                };
            assert(first@ == second@);
            law_collected_headers_are_determined(first@, first_map, second_map);
        }
    }
}

/// Fields that are alike make `http` arguments that are alike.
proof fn lemma_assembled_alike<S>(
    xs: Seq<ConnectHTTPField<S>>,
    ys: Seq<ConnectHTTPField<S>>,
    first: ConnectHTTPArguments<S>,
    second: ConnectHTTPArguments<S>,
)
    requires
        all_alike(ConnectHTTPField::<S>::alike())(xs, ys),
        ConnectHTTPArguments::assembles(xs, first),
        ConnectHTTPArguments::assembles(ys, second),
    ensures
        ConnectHTTPArguments::<S>::alike()(first, second),
{
    let alike = ConnectHTTPField::<S>::alike();
    lemma_last_is_alike(xs, ys, alike, ConnectHTTPField::<S>::get(), same());
    lemma_last_is_alike(xs, ys, alike, ConnectHTTPField::<S>::post(), same());
    lemma_last_is_alike(xs, ys, alike, ConnectHTTPField::<S>::patch(), same());
    lemma_last_is_alike(xs, ys, alike, ConnectHTTPField::<S>::put(), same());
    lemma_last_is_alike(xs, ys, alike, ConnectHTTPField::<S>::delete(), same());
    lemma_last_is_alike(xs, ys, alike, ConnectHTTPField::<S>::body(), same());
    lemma_last_is_alike(xs, ys, alike, ConnectHTTPField::<S>::headers(), same_headers());
}

/// The `http` argument of `@connect` is read in one way.
pub proof fn law_http_arguments_are_determined<
    S,
    P: Fn(&String) -> Result<S, String>,
    H: Fn(&Value) -> Vec<Result<Header, String>>,
>(
    parse: P,
    from_headers_arg: H,
    values: Seq<(String, Value)>,
    first: Result<ConnectHTTPArguments<S>, ErrorView>,
    second: Result<ConnectHTTPArguments<S>, ErrorView>,
)
    requires
        parses_one_way::<S, P>(parse),
        lists_one_way(from_headers_arg),
        ConnectHTTPArguments::reads(parse, from_headers_arg, values, first),
        ConnectHTTPArguments::reads(parse, from_headers_arg, values, second),
    ensures
        agree(ConnectHTTPArguments::<S>::alike(), first, second),
{
    let gives = ConnectHTTPField::<S>::reads(parse, from_headers_arg);
    law_http_field_is_determined::<S, P, H>(parse, from_headers_arg);
    let xs = choose|fields: Result<Seq<ConnectHTTPField<S>>, ErrorView>|
        {
            &&& #[trigger] collects(values, gives, fields)
            &&& match fields {
                Ok(fields) => first matches Ok(arguments) && ConnectHTTPArguments::assembles(
                    fields,
                    arguments,
                ),
                Err(error) => first == Err::<ConnectHTTPArguments<S>, ErrorView>(error),
            }
        };
    let ys = choose|fields: Result<Seq<ConnectHTTPField<S>>, ErrorView>|
        {
            &&& #[trigger] collects(values, gives, fields)
            &&& match fields {
                Ok(fields) => second matches Ok(arguments) && ConnectHTTPArguments::assembles(
                    fields,
                    arguments,
                ),
                Err(error) => second == Err::<ConnectHTTPArguments<S>, ErrorView>(error),
            }
        };
    law_collecting_is_determined(values, gives, ConnectHTTPField::<S>::alike(), xs, ys);
    if xs is Ok {
        lemma_assembled_alike(xs->Ok_0, ys->Ok_0, first->Ok_0, second->Ok_0);
    }
}

/// Leaving out all fields of the `http` argument of `@connect` that have no meaning changes neither
/// success, nor the error, nor the result.
pub proof fn law_unknown_http_fields_change_no_result<
    S,
    P: Fn(&String) -> Result<S, String>,
    H: Fn(&Value) -> Vec<Result<Header, String>>,
>(
    parse: P,
    from_headers_arg: H,
    values: Seq<(String, Value)>,
    made: Result<ConnectHTTPArguments<S>, ErrorView>,
    made_of_known: Result<ConnectHTTPArguments<S>, ErrorView>,
)
    requires
        parses_one_way::<S, P>(parse),
        lists_one_way(from_headers_arg),
        ConnectHTTPArguments::reads(parse, from_headers_arg, values, made),
        ConnectHTTPArguments::reads(
            parse,
            from_headers_arg,
            values.filter(is_known()),
            made_of_known,
        ),
    ensures
        agree(ConnectHTTPArguments::<S>::alike(), made, made_of_known),
{
    law_unknown_http_fields_are_ignored(parse, from_headers_arg, values, made_of_known);
    law_http_arguments_are_determined(parse, from_headers_arg, values, made, made_of_known);
}

/// An argument of `@connect` is read in one way.
pub proof fn law_connect_argument_is_determined<
    S,
    P: Fn(&String) -> Result<S, String>,
    H: Fn(&Value) -> Vec<Result<Header, String>>,
>(parse: P, from_headers_arg: H)
    requires
        parses_one_way::<S, P>(parse),
        lists_one_way(from_headers_arg),
    ensures
        determined(
            ConnectArgument::<S>::reads(parse, from_headers_arg),
            ConnectArgument::<S>::alike(),
        ),
{
    let gives = ConnectArgument::<S>::reads(parse, from_headers_arg);
    let alike = ConnectArgument::<S>::alike();
    assert forall|
        argument: Argument,
        x: Result<ConnectArgument<S>, ErrorView>,
        y: Result<ConnectArgument<S>, ErrorView>,
    | #[trigger] gives(argument, x) && #[trigger] gives(argument, y) implies agree(alike, x, y) by {
        if argument.name@ == "source"@ {
        } else if argument.name@ == "http"@ {
            if let Some(values) = argument.value.fields() {
                assert(ConnectArgument::<S>::http_read(parse, from_headers_arg, values@, x));
                assert(ConnectArgument::<S>::http_read(parse, from_headers_arg, values@, y));
                let first = choose|http: Result<ConnectHTTPArguments<S>, ErrorView>|
                    {
                        &&& #[trigger] ConnectHTTPArguments::reads(
                            parse,
                            from_headers_arg,
                            values@,
                            http,
                        )
                        &&& x == match http {
                            Ok(http) => Ok(ConnectArgument::Http(http)),
                            Err(error) => Err(error),
                        }
                    };
                let second = choose|http: Result<ConnectHTTPArguments<S>, ErrorView>|
                    {
                        &&& #[trigger] ConnectHTTPArguments::reads(
                            parse,
                            from_headers_arg,
                            values@,
                            http,
                        )
                        &&& y == match http {
                            Ok(http) => Ok(ConnectArgument::Http(http)),
                            Err(error) => Err(error),
                        }
                    };
                law_http_arguments_are_determined(
                    parse,
                    from_headers_arg,
                    values@,
                    first,
                    second,
                );
            }
        } else if argument.name@ == "selection"@ {
            if let Some(text) = argument.value.text() {
                assert(ConnectArgument::<S>::selection_text_read(parse, text, x));
                assert(ConnectArgument::<S>::selection_text_read(parse, text, y));
                let first = choose|parsed: Result<S, String>| #[trigger]
                    call_ensures(parse, (&text,), parsed) && x
                        == ConnectArgument::<S>::parsed_selection(parsed);
                let second = choose|parsed: Result<S, String>| #[trigger]
                    call_ensures(parse, (&text,), parsed) && y
                        == ConnectArgument::<S>::parsed_selection(parsed);
                assert(selection_or_message(first) == selection_or_message(second));
            }
        }
    }
}

/// The position is only copied, and neither it nor the name of the directive is looked at: what an
/// application can be read as, another one with the same arguments can be read as at its position.
pub proof fn law_position_is_only_copied<
    S,
    P: Fn(&String) -> Result<S, String>,
    H: Fn(&Value) -> Vec<Result<Header, String>>,
>(
    parse: P,
    from_headers_arg: H,
    position: ObjectOrInterfaceFieldDirectivePosition,
    directive: Directive,
    made: Result<ConnectDirectiveArguments<S>, ErrorView>,
    other_position: ObjectOrInterfaceFieldDirectivePosition,
    other_directive: Directive,
)
    requires
        directive.arguments@ == other_directive.arguments@,
        ConnectDirectiveArguments::application_read(
            parse,
            from_headers_arg,
            position,
            directive,
            made,
        ),
    ensures
        ConnectDirectiveArguments::application_read(
            parse,
            from_headers_arg,
            other_position,
            other_directive,
            match made {
                Ok(arguments) => Ok(
                    ConnectDirectiveArguments { position: other_position, ..arguments },
                ),
                Err(error) => Err(error),
            },
        ),
{
    let arguments = choose|arguments: Result<Seq<ConnectArgument<S>>, ErrorView>|
        {
            &&& #[trigger] collects(
                directive.arguments@,
                ConnectArgument::<S>::reads(parse, from_headers_arg),
                arguments,
            )
            &&& made == match arguments {
                Ok(arguments) => ConnectDirectiveArguments::assembled(position, arguments),
                Err(error) => Err(error),
            }
        };
    assert(collects(
        other_directive.arguments@,
        ConnectArgument::<S>::reads(parse, from_headers_arg),
        arguments,
    ));
}

/// Two applications of `@connect` with the same arguments are read as the same, but for their
/// positions: both give the same error, or both give the same source, `http` argument, selection
/// and entity, each at its own position.
pub proof fn law_only_arguments_are_read<
    S,
    P: Fn(&String) -> Result<S, String>,
    H: Fn(&Value) -> Vec<Result<Header, String>>,
>(
    parse: P,
    from_headers_arg: H,
    position: ObjectOrInterfaceFieldDirectivePosition,
    directive: Directive,
    made: Result<ConnectDirectiveArguments<S>, ErrorView>,
    other_position: ObjectOrInterfaceFieldDirectivePosition,
    other_directive: Directive,
    other_made: Result<ConnectDirectiveArguments<S>, ErrorView>,
)
    requires
        parses_one_way::<S, P>(parse),
        lists_one_way(from_headers_arg),
        directive.arguments@ == other_directive.arguments@,
        ConnectDirectiveArguments::application_read(
            parse,
            from_headers_arg,
            position,
            directive,
            made,
        ),
        ConnectDirectiveArguments::application_read(
            parse,
            from_headers_arg,
            other_position,
            other_directive,
            other_made,
        ),
    ensures
        agree(ConnectDirectiveArguments::<S>::read_alike(), made, other_made),
        made matches Ok(arguments) ==> arguments.position == position,
        other_made matches Ok(arguments) ==> arguments.position == other_position,
{
    let args = directive.arguments@;
    let gives = ConnectArgument::<S>::reads(parse, from_headers_arg);
    let alike = ConnectArgument::<S>::alike();
    law_connect_argument_is_determined::<S, P, H>(parse, from_headers_arg);
    let xs = choose|arguments: Result<Seq<ConnectArgument<S>>, ErrorView>|
        {
            &&& #[trigger] collects(args, gives, arguments)
            &&& made == match arguments {
                Ok(arguments) => ConnectDirectiveArguments::assembled(position, arguments),
                Err(error) => Err(error),
            }
        };
    let ys = choose|arguments: Result<Seq<ConnectArgument<S>>, ErrorView>|
        {
            &&& #[trigger] collects(args, gives, arguments)
            &&& other_made == match arguments {
                Ok(arguments) => ConnectDirectiveArguments::assembled(other_position, arguments),
                Err(error) => Err(error),
            }
        };
    law_collecting_is_determined(args, gives, alike, xs, ys);
    if xs is Ok {
        let (xs, ys) = (xs->Ok_0, ys->Ok_0);
        lemma_last_is_alike(xs, ys, alike, ConnectArgument::<S>::source(), same());
        lemma_last_is_alike(
            xs,
            ys,
            alike,
            ConnectArgument::<S>::http(),
            ConnectHTTPArguments::<S>::alike(),
        );
        lemma_last_is_alike(xs, ys, alike, ConnectArgument::<S>::selection(), same());
        lemma_last_is_alike(xs, ys, alike, ConnectArgument::<S>::entity(), same());
    }
}

/// The error of an `http` argument of `@connect` is passed on unchanged, whatever arguments follow:
/// if the arguments before it can be read, reading the application gives that error.
pub proof fn law_http_error_is_passed_on<
    S,
    P: Fn(&String) -> Result<S, String>,
    H: Fn(&Value) -> Vec<Result<Header, String>>,
>(
    parse: P,
    from_headers_arg: H,
    position: ObjectOrInterfaceFieldDirectivePosition,
    directive: Directive,
    k: int,
    error: ErrorView,
    made: Result<ConnectDirectiveArguments<S>, ErrorView>,
)
    requires
        parses_one_way::<S, P>(parse),
        lists_one_way(from_headers_arg),
        0 <= k < directive.arguments@.len(),
        forall|i: int|
            0 <= i < k ==> has_value(
                ConnectArgument::<S>::reads(parse, from_headers_arg),
                #[trigger] directive.arguments@[i],
            ),
        directive.arguments@[k].name@ == "http"@,
        directive.arguments@[k].value.fields() is Some,
        ConnectHTTPArguments::<S>::reads(
            parse,
            from_headers_arg,
            directive.arguments@[k].value.fields()->Some_0@,
            Err(error),
        ),
        ConnectDirectiveArguments::application_read(
            parse,
            from_headers_arg,
            position,
            directive,
            made,
        ),
    ensures
        made == Err::<ConnectDirectiveArguments<S>, ErrorView>(error),
{
    let args = directive.arguments@;
    let gives = ConnectArgument::<S>::reads(parse, from_headers_arg);
    let failure: Result<ConnectDirectiveArguments<S>, ErrorView> = Err(error);
    reveal_strlit("source");
    reveal_strlit("http");
    assert("source"@.len() != "http"@.len());
    assert(gives(args[k], Err(error))) by {
        let http: Result<ConnectHTTPArguments<S>, ErrorView> = Err(error);
        assert(ConnectHTTPArguments::reads(
            parse,
            from_headers_arg,
            args[k].value.fields()->Some_0@,
            http,
        ));
    }
    assert(fails_at(args, gives, k, error));
    assert(collects(args, gives, Err::<Seq<ConnectArgument<S>>, ErrorView>(error)));
    assert(ConnectDirectiveArguments::application_read(
        parse,
        from_headers_arg,
        position,
        directive,
        failure,
    ));
    law_only_arguments_are_read(
        parse,
        from_headers_arg,
        position,
        directive,
        made,
        position,
        directive,
        failure,
    );
}

/// An application of `@connect` at a position is read in one way.
pub proof fn law_connector_is_determined<
    S,
    P: Fn(&String) -> Result<S, String>,
    H: Fn(&Value) -> Vec<Result<Header, String>>,
>(parse: P, from_headers_arg: H)
    requires
        parses_one_way::<S, P>(parse),
        lists_one_way(from_headers_arg),
    ensures
        determined(
            ConnectDirectiveArguments::<S>::reads(parse, from_headers_arg),
            ConnectDirectiveArguments::<S>::alike(),
        ),
{
    let gives = ConnectDirectiveArguments::<S>::reads(parse, from_headers_arg);
    let alike = ConnectDirectiveArguments::<S>::alike();
    assert forall|
        application: (ObjectOrInterfaceFieldDirectivePosition, Directive),
        x: Result<ConnectDirectiveArguments<S>, ErrorView>,
        y: Result<ConnectDirectiveArguments<S>, ErrorView>,
    | #[trigger] gives(application, x) && #[trigger] gives(application, y) implies agree(
        alike,
        x,
        y,
    ) by {
        law_only_arguments_are_read(
            parse,
            from_headers_arg,
            application.0,
            application.1,
            x,
            application.0,
            application.1,
            y,
        );
    }
}

/// A field of the `http` argument of `@source` is read in one way.
pub proof fn law_source_http_field_is_determined<H: Fn(&Value) -> Vec<Result<Header, String>>>(
    from_headers_arg: H,
)
    requires
        lists_one_way(from_headers_arg),
    ensures
        determined(SourceHTTPField::reads(from_headers_arg), SourceHTTPField::alike()),
{
    let gives = SourceHTTPField::reads(from_headers_arg);
    let alike = SourceHTTPField::alike();
    assert forall|
        field: (String, Value),
        x: Result<SourceHTTPField, ErrorView>,
        y: Result<SourceHTTPField, ErrorView>,
    | #[trigger] gives(field, x) && #[trigger] gives(field, y) implies agree(alike, x, y) by {
        if field.0@ == "baseURL"@ {
        } else if field.0@ == "headers"@ {
            let (first, first_map) = choose|
                parsed: Vec<Result<Header, String>>,
                headers: Result<IndexMap<String, HeaderSource>, ErrorView>,
            |
                {
                    &&& #[trigger] call_ensures(from_headers_arg, (&field.1,), parsed)
                    &&& #[trigger] headers_collected(parsed@, headers)
                    &&& x == match headers {
                        Ok(headers) => Ok(SourceHTTPField::Headers(headers)),
                        Err(error) => Err(error),
                    }
                };
            let (second, second_map) = choose|
                parsed: Vec<Result<Header, String>>,
                headers: Result<IndexMap<String, HeaderSource>, ErrorView>,
            |
                {
                    &&& #[trigger] call_ensures(from_headers_arg, (&field.1,), parsed)
                    &&& #[trigger] headers_collected(parsed@, headers)
                    &&& y == match headers {
                        Ok(headers) => Ok(SourceHTTPField::Headers(headers)),
                        Err(error) => Err(error),
                    }
                };
            assert(first@ == second@);
            law_collected_headers_are_determined(first@, first_map, second_map);
        }
    }
}

/// The `http` argument of `@source` is read in one way.
pub proof fn law_source_http_arguments_are_determined<
    H: Fn(&Value) -> Vec<Result<Header, String>>,
>(
    from_headers_arg: H,
    values: Seq<(String, Value)>,
    first: Result<SourceHTTPArguments, ErrorView>,
    second: Result<SourceHTTPArguments, ErrorView>,
)
    requires
        lists_one_way(from_headers_arg),
        SourceHTTPArguments::reads(from_headers_arg, values, first),
        SourceHTTPArguments::reads(from_headers_arg, values, second),
    ensures
        agree(SourceHTTPArguments::alike(), first, second),
{
    let gives = SourceHTTPField::reads(from_headers_arg);
    let alike = SourceHTTPField::alike();
    law_source_http_field_is_determined(from_headers_arg);
    let xs = choose|fields: Result<Seq<SourceHTTPField>, ErrorView>|
        {
            &&& #[trigger] collects(values, gives, fields)
            &&& match fields {
                Ok(fields) => SourceHTTPArguments::assembles(fields, first),
                Err(error) => first == Err::<SourceHTTPArguments, ErrorView>(error),
            }
        };
    let ys = choose|fields: Result<Seq<SourceHTTPField>, ErrorView>|
        {
            &&& #[trigger] collects(values, gives, fields)
            &&& match fields {
                Ok(fields) => SourceHTTPArguments::assembles(fields, second),
                Err(error) => second == Err::<SourceHTTPArguments, ErrorView>(error),
            }
        };
    law_collecting_is_determined(values, gives, alike, xs, ys);
    if xs is Ok {
        let (xs, ys) = (xs->Ok_0, ys->Ok_0);
        let same_text = |x: String, y: String| x@ == y@;
        lemma_last_is_alike(xs, ys, alike, SourceHTTPField::base_url(), same_text);
        lemma_last_is_alike(xs, ys, alike, SourceHTTPField::headers(), same_headers());
    }
}

/// An argument of `@source` is read in one way.
pub proof fn law_source_argument_is_determined<H: Fn(&Value) -> Vec<Result<Header, String>>>(
    from_headers_arg: H,
)
    requires
        lists_one_way(from_headers_arg),
    ensures
        determined(SourceArgument::reads(from_headers_arg), SourceArgument::alike()),
{
    let gives = SourceArgument::reads(from_headers_arg);
    let alike = SourceArgument::alike();
    assert forall|
        argument: Argument,
        x: Result<SourceArgument, ErrorView>,
        y: Result<SourceArgument, ErrorView>,
    | #[trigger] gives(argument, x) && #[trigger] gives(argument, y) implies agree(alike, x, y) by {
        if argument.name@ == "name"@ {
        } else if argument.name@ == "http"@ {
            if let Some(values) = argument.value.fields() {
                assert(SourceArgument::http_read(from_headers_arg, values@, x));
                assert(SourceArgument::http_read(from_headers_arg, values@, y));
                let first = choose|http: Result<SourceHTTPArguments, ErrorView>|
                    {
                        &&& #[trigger] SourceHTTPArguments::reads(from_headers_arg, values@, http)
                        &&& x == match http {
                            Ok(http) => Ok(SourceArgument::Http(http)),
                            Err(error) => Err(error),
                        }
                    };
                let second = choose|http: Result<SourceHTTPArguments, ErrorView>|
                    {
                        &&& #[trigger] SourceHTTPArguments::reads(from_headers_arg, values@, http)
                        &&& y == match http {
                            Ok(http) => Ok(SourceArgument::Http(http)),
                            Err(error) => Err(error),
                        }
                    };
                law_source_http_arguments_are_determined(from_headers_arg, values@, first, second);
            }
        }
    }
}

/// An application of `@source` is read in one way.
pub proof fn law_source_is_determined<H: Fn(&Value) -> Vec<Result<Header, String>>>(
    from_headers_arg: H,
)
    requires
        lists_one_way(from_headers_arg),
    ensures
        determined(
            SourceDirectiveArguments::reads(from_headers_arg),
            SourceDirectiveArguments::alike(),
        ),
{
    let gives = SourceDirectiveArguments::reads(from_headers_arg);
    let alike = SourceDirectiveArguments::alike();
    let each = SourceArgument::reads(from_headers_arg);
    let each_alike = SourceArgument::alike();
    law_source_argument_is_determined(from_headers_arg);
    assert forall|
        directive: Directive,
        x: Result<SourceDirectiveArguments, ErrorView>,
        y: Result<SourceDirectiveArguments, ErrorView>,
    | #[trigger] gives(directive, x) && #[trigger] gives(directive, y) implies agree(alike, x, y) by {
        let args = directive.arguments@;
        let xs = choose|arguments: Result<Seq<SourceArgument>, ErrorView>|
            {
                &&& #[trigger] collects(args, each, arguments)
                &&& match arguments {
                    Ok(arguments) => SourceDirectiveArguments::assembles(arguments, x),
                    Err(error) => x == Err::<SourceDirectiveArguments, ErrorView>(error),
                }
            };
        let ys = choose|arguments: Result<Seq<SourceArgument>, ErrorView>|
            {
                &&& #[trigger] collects(args, each, arguments)
                &&& match arguments {
                    Ok(arguments) => SourceDirectiveArguments::assembles(arguments, y),
                    Err(error) => y == Err::<SourceDirectiveArguments, ErrorView>(error),
                }
            };
        law_collecting_is_determined(args, each, each_alike, xs, ys);
        if xs is Ok {
            let (xs, ys) = (xs->Ok_0, ys->Ok_0);
            lemma_last_is_alike(xs, ys, each_alike, SourceArgument::name(), same());
            lemma_last_is_alike(
                xs,
                ys,
                each_alike,
                SourceArgument::http(),
                SourceHTTPArguments::alike(),
            );
        }
    }
}

/// The error of an `http` argument of `@source` is passed on unchanged, whatever arguments follow:
/// if the arguments before it can be read, reading the application gives that error.
pub proof fn law_source_http_error_is_passed_on<H: Fn(&Value) -> Vec<Result<Header, String>>>(
    from_headers_arg: H,
    directive: Directive,
    k: int,
    error: ErrorView,
    made: Result<SourceDirectiveArguments, ErrorView>,
)
    requires
        lists_one_way(from_headers_arg),
        0 <= k < directive.arguments@.len(),
        forall|i: int|
            0 <= i < k ==> has_value(
                SourceArgument::reads(from_headers_arg),
                #[trigger] directive.arguments@[i],
            ),
        directive.arguments@[k].name@ == "http"@,
        directive.arguments@[k].value.fields() is Some,
        SourceHTTPArguments::reads(
            from_headers_arg,
            directive.arguments@[k].value.fields()->Some_0@,
            Err(error),
        ),
        SourceDirectiveArguments::reads(from_headers_arg)(directive, made),
    ensures
        made == Err::<SourceDirectiveArguments, ErrorView>(error),
{
    let args = directive.arguments@;
    let each = SourceArgument::reads(from_headers_arg);
    let gives = SourceDirectiveArguments::reads(from_headers_arg);
    let failure: Result<SourceDirectiveArguments, ErrorView> = Err(error);
    reveal_strlit("name");
    reveal_strlit("http");
    assert("name"@[0] != "http"@[0]);
    assert(each(args[k], Err(error))) by {
        let http: Result<SourceHTTPArguments, ErrorView> = Err(error);
        assert(SourceHTTPArguments::reads(
            from_headers_arg,
            args[k].value.fields()->Some_0@,
            http,
        ));
    }
    assert(fails_at(args, each, k, error));
    assert(collects(args, each, Err::<Seq<SourceArgument>, ErrorView>(error)));
    law_source_is_determined(from_headers_arg);
    assert(gives(directive, failure));
}

} // verus!
