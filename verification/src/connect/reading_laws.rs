//! What the readers of the connector directives make of what they read.
//!
//! The laws speak of the values as they were written, of what the functions that were passed in gave
//! for them, and of what was read.

use crate::ast::Argument;
use crate::ast::Directive;
use crate::ast::Value;
use crate::collecting::collects;
use crate::collecting::fails;
use crate::collecting::fails_at;
use crate::collecting::has_value;
use crate::collecting::law_found_in_an_item;
use crate::collecting::law_last_find_counts;
use crate::connect::connector::ConnectArgument;
use crate::connect::connector::ConnectDirectiveArguments;
use crate::connect::connector::ConnectHTTPArguments;
use crate::connect::connector::ConnectHTTPField;
use crate::connect::headers::header_entries;
use crate::connect::headers::headers_collected;
use crate::connect::headers::Header;
use crate::connect::headers::HeaderSource;
use crate::connect::source::SourceArgument;
use crate::connect::source::SourceDirectiveArguments;
use crate::connect::source::SourceHTTPArguments;
use crate::connect::source::SourceHTTPField;
use crate::connect::url::url_of;
use crate::error::ErrorView;
use crate::position::ObjectOrInterfaceFieldDirectivePosition;
use apollo_compiler::collections::IndexMap;
use vstd::prelude::*;

verus! {

/// The names of the fields of the `http` argument of `@connect` differ.
proof fn lemma_http_names_differ()
    ensures
        "GET"@ != "POST"@ && "GET"@ != "PATCH"@ && "GET"@ != "PUT"@ && "GET"@ != "DELETE"@,
        "GET"@ != "body"@ && "GET"@ != "headers"@,
        "POST"@ != "PATCH"@ && "POST"@ != "PUT"@ && "POST"@ != "DELETE"@,
        "POST"@ != "body"@ && "POST"@ != "headers"@,
        "PATCH"@ != "PUT"@ && "PATCH"@ != "DELETE"@,
        "PATCH"@ != "body"@ && "PATCH"@ != "headers"@,
        "PUT"@ != "DELETE"@ && "PUT"@ != "body"@ && "PUT"@ != "headers"@,
        "DELETE"@ != "body"@ && "DELETE"@ != "headers"@,
        "body"@ != "headers"@,
{
    reveal_strlit("GET");
    reveal_strlit("POST");
    reveal_strlit("PATCH");
    reveal_strlit("PUT");
    reveal_strlit("DELETE");
    reveal_strlit("body");
    reveal_strlit("headers");
    assert("GET"@.len() == 3 && "POST"@.len() == 4 && "PATCH"@.len() == 5);
    assert("PUT"@.len() == 3 && "DELETE"@.len() == 6 && "body"@.len() == 4);
    assert("headers"@.len() == 7);
    assert("GET"@[0] == 'G' && "PUT"@[0] == 'P' && "POST"@[0] == 'P' && "body"@[0] == 'b');
}

/// The names of the arguments of `@connect` differ.
proof fn lemma_connect_names_differ()
    ensures
        "source"@ != "http"@ && "source"@ != "selection"@ && "source"@ != "entity"@,
        "http"@ != "selection"@ && "http"@ != "entity"@ && "selection"@ != "entity"@,
{
    reveal_strlit("source");
    reveal_strlit("http");
    reveal_strlit("selection");
    reveal_strlit("entity");
    assert("source"@.len() == 6 && "http"@.len() == 4 && "selection"@.len() == 9);
    assert("entity"@.len() == 6);
    assert("source"@[0] == 's' && "entity"@[0] == 'e');
}

/// The names of the arguments of `@source` and of the fields of its `http` argument differ.
proof fn lemma_source_names_differ()
    ensures
        "name"@ != "http"@,
        "baseURL"@ != "headers"@,
{
    reveal_strlit("name");
    reveal_strlit("http");
    reveal_strlit("baseURL");
    reveal_strlit("headers");
    assert("name"@[0] == 'n' && "http"@[0] == 'h');
    assert("baseURL"@[0] == 'b' && "headers"@[0] == 'h');
}

/// The first failure of a list: its index, and the values of the items before it.
pub(crate) proof fn lemma_first_failure_of<A, B, E>(
    items: Seq<A>,
    gives: spec_fn(A, Result<B, E>) -> bool,
    error: E,
) -> (first: (int, Seq<B>))
    requires
        collects(items, gives, Err::<Seq<B>, E>(error)),
    ensures
        0 <= first.0 < items.len(),
        gives(items[first.0], Err(error)),
        first.1.len() == first.0,
        forall|i: int| 0 <= i < first.0 ==> gives(#[trigger] items[i], Ok(first.1[i])),
{
    let failure: Result<Seq<B>, E> = Err(error);
    assert(failure->Err_0 == error);
    assert(fails(items, gives, error));
    let k = choose|k: int| fails_at(items, gives, k, error);
    let values: Seq<B> = Seq::new(
        k as nat,
        |i: int| choose|value: B| #[trigger] gives(items[i], Ok(value)),
    );
    assert forall|i: int| 0 <= i < k implies gives(#[trigger] items[i], Ok(values[i])) by {
        assert(has_value(gives, items[i]));
        let value = choose|value: B| #[trigger] gives(items[i], Ok(value));
        assert(gives(items[i], Ok(value)));
    }
    (k, values)
}

/// What a field of the `http` argument of `@connect` is read as: a URL template is the string that it
/// is; a body is what parsing its string gave; headers are the map of what their value gave; and
/// any other field has no meaning. It can't be read exactly if a string is missing or what was parsed
/// was not understood.
pub proof fn law_http_field_is_read<
    S,
    P: Fn(&String) -> Result<S, String>,
    H: Fn(&Value) -> Vec<Result<Header, String>>,
>(
    parse: P,
    from_headers_arg: H,
    field: (String, Value),
    read: Result<ConnectHTTPField<S>, ErrorView>,
)
    requires
        ConnectHTTPField::<S>::reads(parse, from_headers_arg)(field, read),
    ensures
        match read {
            Ok(ConnectHTTPField::Get(template)) => {
                field.0@ == "GET"@ && field.1 == Value::String(template)
            },
            Ok(ConnectHTTPField::Post(template)) => {
                field.0@ == "POST"@ && field.1 == Value::String(template)
            },
            Ok(ConnectHTTPField::Patch(template)) => {
                field.0@ == "PATCH"@ && field.1 == Value::String(template)
            },
            Ok(ConnectHTTPField::Put(template)) => {
                field.0@ == "PUT"@ && field.1 == Value::String(template)
            },
            Ok(ConnectHTTPField::Delete(template)) => {
                field.0@ == "DELETE"@ && field.1 == Value::String(template)
            },
            Ok(ConnectHTTPField::Body(body)) => {
                field.0@ == "body"@ && (field.1 matches Value::String(text) && call_ensures(
                    parse,
                    (&text,),
                    Ok(body),
                ))
            },
            Ok(ConnectHTTPField::Headers(headers)) => {
                field.0@ == "headers"@ && exists|parsed: Vec<Result<Header, String>>| #[trigger]
                    call_ensures(from_headers_arg, (&field.1,), parsed) && headers_collected(
                        parsed@,
                        Ok(headers),
                    )
            },
            Ok(ConnectHTTPField::Other) => {
                &&& field.0@ != "GET"@ && field.0@ != "POST"@ && field.0@ != "PATCH"@
                &&& field.0@ != "PUT"@ && field.0@ != "DELETE"@
                &&& field.0@ != "body"@ && field.0@ != "headers"@
            },
            Err(error) => {
                ||| {
                    &&& field.0@ == "GET"@ || field.0@ == "POST"@ || field.0@ == "PATCH"@
                        || field.0@ == "PUT"@ || field.0@ == "DELETE"@
                    &&& !(field.1 is String)
                    &&& error == (ErrorView::Internal {
                        message:
                            "supplied HTTP template URL in `@connect` directive's `http` field is not a string"@,
                    })
                }
                ||| {
                    &&& field.0@ == "body"@
                    &&& !(field.1 is String)
                    &&& error == (ErrorView::Internal {
                        message:
                            "`body` field in `@connect` directive's `http` field is not a string"@,
                    })
                }
                ||| {
                    &&& field.0@ == "body"@
                    &&& field.1 matches Value::String(text) && exists|message: String| #[trigger]
                        call_ensures(parse, (&text,), Err(message)) && error == (
                        ErrorView::Internal { message: message@ })
                }
                ||| {
                    &&& field.0@ == "headers"@
                    &&& exists|parsed: Vec<Result<Header, String>>| #[trigger]
                        call_ensures(from_headers_arg, (&field.1,), parsed) && headers_collected(
                            parsed@,
                            Err(error),
                        )
                }
            },
        },
{
    if field.0@ == "body"@ {
        if let Value::String(text) = field.1 {
            assert(ConnectHTTPField::<S>::body_text_read(parse, text, read));
            let parsed = choose|parsed: Result<S, String>| #[trigger]
                call_ensures(parse, (&text,), parsed) && read
                    == ConnectHTTPField::<S>::parsed_body(parsed);
            if let Err(message) = parsed {
                assert(call_ensures(parse, (&text,), Err(message)));
            }
        }
    } else if field.0@ == "headers"@ {
        let (parsed, headers) = choose|
            parsed: Vec<Result<Header, String>>,
            headers: Result<IndexMap<String, HeaderSource>, ErrorView>,
        |
            {
                &&& #[trigger] call_ensures(from_headers_arg, (&field.1,), parsed)
                &&& #[trigger] headers_collected(parsed@, headers)
                &&& read == match headers {
                    Ok(headers) => Ok(ConnectHTTPField::<S>::Headers(headers)),
                    Err(error) => Err(error),
                }
            };
        assert(call_ensures(from_headers_arg, (&field.1,), parsed));
    }
}

/// What the `http` argument of `@connect` is made of: each part is that of the last field of its kind,
/// whatever other fields there are, and is missing exactly if there is no such field.
pub proof fn law_http_is_assembled<S>(
    fields: Seq<ConnectHTTPField<S>>,
    made: ConnectHTTPArguments<S>,
    k: int,
)
    requires
        ConnectHTTPArguments::assembles(fields, made),
    ensures
        0 <= k < fields.len() && (forall|j: int|
            k < j < fields.len() ==> !(#[trigger] fields[j] is Get)) && fields[k] is Get
            ==> made.get == Some(fields[k]->Get_0),
        (forall|j: int| 0 <= j < fields.len() ==> !(#[trigger] fields[j] is Get))
            ==> made.get is None,
        0 <= k < fields.len() && (forall|j: int|
            k < j < fields.len() ==> !(#[trigger] fields[j] is Post)) && fields[k] is Post
            ==> made.post == Some(fields[k]->Post_0),
        (forall|j: int| 0 <= j < fields.len() ==> !(#[trigger] fields[j] is Post))
            ==> made.post is None,
        0 <= k < fields.len() && (forall|j: int|
            k < j < fields.len() ==> !(#[trigger] fields[j] is Patch)) && fields[k] is Patch
            ==> made.patch == Some(fields[k]->Patch_0),
        (forall|j: int| 0 <= j < fields.len() ==> !(#[trigger] fields[j] is Patch))
            ==> made.patch is None,
        0 <= k < fields.len() && (forall|j: int|
            k < j < fields.len() ==> !(#[trigger] fields[j] is Put)) && fields[k] is Put
            ==> made.put == Some(fields[k]->Put_0),
        (forall|j: int| 0 <= j < fields.len() ==> !(#[trigger] fields[j] is Put))
            ==> made.put is None,
        0 <= k < fields.len() && (forall|j: int|
            k < j < fields.len() ==> !(#[trigger] fields[j] is Delete)) && fields[k] is Delete
            ==> made.delete == Some(fields[k]->Delete_0),
        (forall|j: int| 0 <= j < fields.len() ==> !(#[trigger] fields[j] is Delete))
            ==> made.delete is None,
        0 <= k < fields.len() && (forall|j: int|
            k < j < fields.len() ==> !(#[trigger] fields[j] is Body)) && fields[k] is Body
            ==> made.body == Some(fields[k]->Body_0),
        (forall|j: int| 0 <= j < fields.len() ==> !(#[trigger] fields[j] is Body))
            ==> made.body is None,
        0 <= k < fields.len() && (forall|j: int|
            k < j < fields.len() ==> !(#[trigger] fields[j] is Headers)) && fields[k] is Headers
            ==> header_entries(made.headers) == header_entries(fields[k]->Headers_0) && made.headers
            == fields[k]->Headers_0,
        (forall|j: int| 0 <= j < fields.len() ==> !(#[trigger] fields[j] is Headers))
            ==> header_entries(made.headers).len() == 0,
{
    law_last_find_counts(fields, ConnectHTTPField::<S>::get(), k);
    law_last_find_counts(fields, ConnectHTTPField::<S>::post(), k);
    law_last_find_counts(fields, ConnectHTTPField::<S>::patch(), k);
    law_last_find_counts(fields, ConnectHTTPField::<S>::put(), k);
    law_last_find_counts(fields, ConnectHTTPField::<S>::delete(), k);
    law_last_find_counts(fields, ConnectHTTPField::<S>::body(), k);
    law_last_find_counts(fields, ConnectHTTPField::<S>::headers(), k);
    assert(forall|j: int|
        0 <= j < fields.len() ==> (ConnectHTTPField::<S>::get()(#[trigger] fields[j]) is Some
            <==> fields[j] is Get));
    assert(forall|j: int|
        0 <= j < fields.len() ==> (ConnectHTTPField::<S>::post()(#[trigger] fields[j]) is Some
            <==> fields[j] is Post));
    assert(forall|j: int|
        0 <= j < fields.len() ==> (ConnectHTTPField::<S>::patch()(#[trigger] fields[j]) is Some
            <==> fields[j] is Patch));
    assert(forall|j: int|
        0 <= j < fields.len() ==> (ConnectHTTPField::<S>::put()(#[trigger] fields[j]) is Some
            <==> fields[j] is Put));
    assert(forall|j: int|
        0 <= j < fields.len() ==> (ConnectHTTPField::<S>::delete()(#[trigger] fields[j]) is Some
            <==> fields[j] is Delete));
    assert(forall|j: int|
        0 <= j < fields.len() ==> (ConnectHTTPField::<S>::body()(#[trigger] fields[j]) is Some
            <==> fields[j] is Body));
    assert(forall|j: int|
        0 <= j < fields.len() ==> (ConnectHTTPField::<S>::headers()(#[trigger] fields[j]) is Some
            <==> fields[j] is Headers));
}

/// The fields read for the `http` argument `made` of `@connect`.
proof fn lemma_fields_of_http<
    S,
    P: Fn(&String) -> Result<S, String>,
    H: Fn(&Value) -> Vec<Result<Header, String>>,
>(
    parse: P,
    from_headers_arg: H,
    values: Seq<(String, Value)>,
    made: ConnectHTTPArguments<S>,
) -> (fields: Seq<ConnectHTTPField<S>>)
    requires
        ConnectHTTPArguments::reads(parse, from_headers_arg, values, Ok(made)),
    ensures
        fields.len() == values.len(),
        forall|i: int|
            0 <= i < values.len() ==> ConnectHTTPField::<S>::reads(parse, from_headers_arg)(
                #[trigger] values[i],
                Ok(fields[i]),
            ),
        ConnectHTTPArguments::assembles(fields, made),
{
    let gives = ConnectHTTPField::<S>::reads(parse, from_headers_arg);
    let made_of: Result<ConnectHTTPArguments<S>, ErrorView> = Ok(made);
    let read = choose|fields: Result<Seq<ConnectHTTPField<S>>, ErrorView>|
        {
            &&& #[trigger] collects(values, gives, fields)
            &&& match fields {
                Ok(fields) => made_of matches Ok(arguments) && ConnectHTTPArguments::assembles(
                    fields,
                    arguments,
                ),
                Err(error) => made_of == Err::<ConnectHTTPArguments<S>, ErrorView>(error),
            }
        };
    read->Ok_0
}

/// The `http` argument of `@connect` is read from its fields: where the field at `k` is the last one
/// of its name, the part of that name is what the field gives, whatever other fields there are. Every
/// field can be read, as `fields` says.
pub proof fn law_http_is_read_from_its_fields<
    S,
    P: Fn(&String) -> Result<S, String>,
    H: Fn(&Value) -> Vec<Result<Header, String>>,
>(
    parse: P,
    from_headers_arg: H,
    values: Seq<(String, Value)>,
    made: ConnectHTTPArguments<S>,
    k: int,
) -> (fields: Seq<ConnectHTTPField<S>>)
    requires
        ConnectHTTPArguments::reads(parse, from_headers_arg, values, Ok(made)),
        0 <= k < values.len(),
        forall|j: int| k < j < values.len() ==> (#[trigger] values[j]).0@ != values[k].0@,
    ensures
        fields.len() == values.len(),
        forall|i: int|
            0 <= i < values.len() ==> ConnectHTTPField::<S>::reads(parse, from_headers_arg)(
                #[trigger] values[i],
                Ok(fields[i]),
            ),
        values[k].0@ == "GET"@ ==> values[k].1 is String && made.get == Some(
            values[k].1->String_0,
        ),
        values[k].0@ == "POST"@ ==> values[k].1 is String && made.post == Some(
            values[k].1->String_0,
        ),
        values[k].0@ == "PATCH"@ ==> values[k].1 is String && made.patch == Some(
            values[k].1->String_0,
        ),
        values[k].0@ == "PUT"@ ==> values[k].1 is String && made.put == Some(
            values[k].1->String_0,
        ),
        values[k].0@ == "DELETE"@ ==> values[k].1 is String && made.delete == Some(
            values[k].1->String_0,
        ),
        values[k].0@ == "body"@ ==> (values[k].1 matches Value::String(text) && (
        made.body matches Some(body) && call_ensures(parse, (&text,), Ok(body)))),
        values[k].0@ == "headers"@ ==> exists|parsed: Vec<Result<Header, String>>| #[trigger]
            call_ensures(from_headers_arg, (&values[k].1,), parsed) && headers_collected(
                parsed@,
                Ok(made.headers),
            ),
{
    let fields = lemma_fields_of_http(parse, from_headers_arg, values, made);
    lemma_http_names_differ();
    assert(ConnectHTTPField::<S>::reads(parse, from_headers_arg)(values[k], Ok(fields[k])));
    law_http_field_is_read(parse, from_headers_arg, values[k], Ok(fields[k]));
    law_http_is_assembled(fields, made, k);
    assert forall|j: int| k < j < fields.len() implies {
        &&& fields[k] is Get ==> !(#[trigger] fields[j] is Get)
        &&& fields[k] is Post ==> !(fields[j] is Post)
        &&& fields[k] is Patch ==> !(fields[j] is Patch)
        &&& fields[k] is Put ==> !(fields[j] is Put)
        &&& fields[k] is Delete ==> !(fields[j] is Delete)
        &&& fields[k] is Body ==> !(fields[j] is Body)
        &&& fields[k] is Headers ==> !(fields[j] is Headers)
    } by {
        assert(values[j].0@ != values[k].0@);
        assert(ConnectHTTPField::<S>::reads(parse, from_headers_arg)(values[j], Ok(fields[j])));
        law_http_field_is_read(parse, from_headers_arg, values[j], Ok(fields[j]));
    }
    fields
}

/// A part of the `http` argument of `@connect` is missing where no field has its name.
pub proof fn law_absent_http_fields<
    S,
    P: Fn(&String) -> Result<S, String>,
    H: Fn(&Value) -> Vec<Result<Header, String>>,
>(
    parse: P,
    from_headers_arg: H,
    values: Seq<(String, Value)>,
    made: ConnectHTTPArguments<S>,
)
    requires
        ConnectHTTPArguments::reads(parse, from_headers_arg, values, Ok(made)),
    ensures
        (forall|i: int| 0 <= i < values.len() ==> (#[trigger] values[i]).0@ != "GET"@)
            ==> made.get is None,
        (forall|i: int| 0 <= i < values.len() ==> (#[trigger] values[i]).0@ != "POST"@)
            ==> made.post is None,
        (forall|i: int| 0 <= i < values.len() ==> (#[trigger] values[i]).0@ != "PATCH"@)
            ==> made.patch is None,
        (forall|i: int| 0 <= i < values.len() ==> (#[trigger] values[i]).0@ != "PUT"@)
            ==> made.put is None,
        (forall|i: int| 0 <= i < values.len() ==> (#[trigger] values[i]).0@ != "DELETE"@)
            ==> made.delete is None,
        (forall|i: int| 0 <= i < values.len() ==> (#[trigger] values[i]).0@ != "body"@)
            ==> made.body is None,
        (forall|i: int| 0 <= i < values.len() ==> (#[trigger] values[i]).0@ != "headers"@)
            ==> header_entries(made.headers).len() == 0,
{
    let fields = lemma_fields_of_http(parse, from_headers_arg, values, made);
    law_http_is_assembled(fields, made, 0);
    assert forall|j: int| 0 <= j < fields.len() implies {
        &&& #[trigger] fields[j] is Get ==> values[j].0@ == "GET"@
        &&& fields[j] is Post ==> values[j].0@ == "POST"@
        &&& fields[j] is Patch ==> values[j].0@ == "PATCH"@
        &&& fields[j] is Put ==> values[j].0@ == "PUT"@
        &&& fields[j] is Delete ==> values[j].0@ == "DELETE"@
        &&& fields[j] is Body ==> values[j].0@ == "body"@
        &&& fields[j] is Headers ==> values[j].0@ == "headers"@
    } by {
        assert(ConnectHTTPField::<S>::reads(parse, from_headers_arg)(values[j], Ok(fields[j])));
        law_http_field_is_read(parse, from_headers_arg, values[j], Ok(fields[j]));
    }
}

/// Where the `http` argument of `@connect` can't be read, one of its fields can't: the first of them,
/// whose index is given back with what the fields before it are read as, gives the error.
pub proof fn law_http_field_fails<
    S,
    P: Fn(&String) -> Result<S, String>,
    H: Fn(&Value) -> Vec<Result<Header, String>>,
>(
    parse: P,
    from_headers_arg: H,
    values: Seq<(String, Value)>,
    error: ErrorView,
) -> (first: (int, Seq<ConnectHTTPField<S>>))
    requires
        ConnectHTTPArguments::<S>::reads(parse, from_headers_arg, values, Err(error)),
    ensures
        0 <= first.0 < values.len(),
        first.1.len() == first.0,
        ConnectHTTPField::<S>::reads(parse, from_headers_arg)(values[first.0], Err(error)),
        forall|i: int|
            0 <= i < first.0 ==> ConnectHTTPField::<S>::reads(parse, from_headers_arg)(
                #[trigger] values[i],
                Ok(first.1[i]),
            ),
{
    let gives = ConnectHTTPField::<S>::reads(parse, from_headers_arg);
    let failure: Result<ConnectHTTPArguments<S>, ErrorView> = Err(error);
    let read = choose|fields: Result<Seq<ConnectHTTPField<S>>, ErrorView>|
        {
            &&& #[trigger] collects(values, gives, fields)
            &&& match fields {
                Ok(fields) => failure matches Ok(arguments) && ConnectHTTPArguments::assembles(
                    fields,
                    arguments,
                ),
                Err(error) => failure == Err::<ConnectHTTPArguments<S>, ErrorView>(error),
            }
        };
    assert(read == Err::<Seq<ConnectHTTPField<S>>, ErrorView>(error));
    lemma_first_failure_of(values, gives, error)
}

/// What an argument of `@connect` is read as: the string of a source, what the fields of an `http`
/// argument give, what parsing the string of a selection gave, or the boolean of an entity. It can't
/// be read exactly if it has another name or its value has another form, or if what is in it can't be
/// read.
pub proof fn law_connect_argument_is_read<
    S,
    P: Fn(&String) -> Result<S, String>,
    H: Fn(&Value) -> Vec<Result<Header, String>>,
>(
    parse: P,
    from_headers_arg: H,
    argument: Argument,
    read: Result<ConnectArgument<S>, ErrorView>,
)
    requires
        ConnectArgument::<S>::reads(parse, from_headers_arg)(argument, read),
    ensures
        match read {
            Ok(ConnectArgument::Source(source)) => {
                argument.name@ == "source"@ && argument.value == Value::String(source)
            },
            Ok(ConnectArgument::Http(http)) => {
                argument.name@ == "http"@ && (argument.value matches Value::Object(fields)
                    && ConnectHTTPArguments::reads(parse, from_headers_arg, fields@, Ok(http)))
            },
            Ok(ConnectArgument::Selection(selection)) => {
                argument.name@ == "selection"@ && (argument.value matches Value::String(text)
                    && call_ensures(parse, (&text,), Ok(selection)))
            },
            Ok(ConnectArgument::Entity(entity)) => {
                argument.name@ == "entity"@ && argument.value == Value::Boolean(entity)
            },
            Err(error) => {
                ||| {
                    &&& argument.name@ == "source"@ && !(argument.value is String)
                    &&& error == (ErrorView::Internal {
                        message: "`source` field in `@source` directive is not a string"@,
                    })
                }
                ||| {
                    &&& argument.name@ == "http"@ && !(argument.value is Object)
                    &&& error == (ErrorView::Internal {
                        message: "`http` field in `@connect` directive is not an object"@,
                    })
                }
                ||| {
                    &&& argument.name@ == "http"@
                    &&& argument.value matches Value::Object(fields) && ConnectHTTPArguments::<
                        S,
                    >::reads(parse, from_headers_arg, fields@, Err(error))
                }
                ||| {
                    &&& argument.name@ == "selection"@ && !(argument.value is String)
                    &&& error == (ErrorView::Internal {
                        message: "`selection` field in `@connect` directive is not a string"@,
                    })
                }
                ||| {
                    &&& argument.name@ == "selection"@
                    &&& argument.value matches Value::String(text) && exists|message: String|
                        #[trigger] call_ensures(parse, (&text,), Err(message)) && error == (
                        ErrorView::Internal { message: message@ })
                }
                ||| {
                    &&& argument.name@ == "entity"@ && !(argument.value is Boolean)
                    &&& error == (ErrorView::Internal {
                        message: "`entity` field in `@connect` directive is not a boolean"@,
                    })
                }
                ||| {
                    &&& argument.name@ != "source"@ && argument.name@ != "http"@
                    &&& argument.name@ != "selection"@ && argument.name@ != "entity"@
                    &&& error == (ErrorView::Internal {
                        message: "unknown argument in `@connect` directive: "@ + argument.name@,
                    })
                }
            },
        },
{
    if argument.name@ == "source"@ {
    } else if argument.name@ == "http"@ {
        if let Value::Object(fields) = argument.value {
            assert(ConnectArgument::<S>::http_read(parse, from_headers_arg, fields@, read));
            let http = choose|http: Result<ConnectHTTPArguments<S>, ErrorView>|
                {
                    &&& #[trigger] ConnectHTTPArguments::reads(
                        parse,
                        from_headers_arg,
                        fields@,
                        http,
                    )
                    &&& read == match http {
                        Ok(http) => Ok(ConnectArgument::Http(http)),
                        Err(error) => Err(error),
                    }
                };
            match http {
                Ok(found) => {
                    assert(ConnectHTTPArguments::reads(
                        parse,
                        from_headers_arg,
                        fields@,
                        Ok(found),
                    ));
                },
                Err(error) => {
                    assert(ConnectHTTPArguments::<S>::reads(
                        parse,
                        from_headers_arg,
                        fields@,
                        Err(error),
                    ));
                },
            }
        }
    } else if argument.name@ == "selection"@ {
        if let Value::String(text) = argument.value {
            assert(ConnectArgument::<S>::selection_text_read(parse, text, read));
            let parsed = choose|parsed: Result<S, String>| #[trigger]
                call_ensures(parse, (&text,), parsed) && read
                    == ConnectArgument::<S>::parsed_selection(parsed);
            if let Err(message) = parsed {
                assert(call_ensures(parse, (&text,), Err(message)));
            }
        }
    }
}

/// What a connector is made of: each part is that of the last argument of its kind, whatever other
/// arguments there are. A selection is needed; without an argument for it, there is no source and no
/// `http` argument, and the entity is not resolved.
pub proof fn law_connector_is_assembled<S>(
    position: ObjectOrInterfaceFieldDirectivePosition,
    arguments: Seq<ConnectArgument<S>>,
    k: int,
)
    ensures
        match ConnectDirectiveArguments::assembled(position, arguments) {
            Ok(made) => {
                &&& made.position == position
                &&& exists|i: int| 0 <= i < arguments.len() && #[trigger] arguments[i] is Selection
                &&& 0 <= k < arguments.len() && (forall|j: int|
                    k < j < arguments.len() ==> !(#[trigger] arguments[j] is Source))
                    && arguments[k] is Source ==> made.source == Some(arguments[k]->Source_0)
                &&& (forall|j: int|
                    0 <= j < arguments.len() ==> !(#[trigger] arguments[j] is Source))
                    ==> made.source is None
                &&& 0 <= k < arguments.len() && (forall|j: int|
                    k < j < arguments.len() ==> !(#[trigger] arguments[j] is Http))
                    && arguments[k] is Http ==> made.http == Some(arguments[k]->Http_0)
                &&& (forall|j: int|
                    0 <= j < arguments.len() ==> !(#[trigger] arguments[j] is Http))
                    ==> made.http is None
                &&& 0 <= k < arguments.len() && (forall|j: int|
                    k < j < arguments.len() ==> !(#[trigger] arguments[j] is Selection))
                    && arguments[k] is Selection ==> made.selection == arguments[k]->Selection_0
                &&& 0 <= k < arguments.len() && (forall|j: int|
                    k < j < arguments.len() ==> !(#[trigger] arguments[j] is Entity))
                    && arguments[k] is Entity ==> made.entity == arguments[k]->Entity_0
                &&& (forall|j: int|
                    0 <= j < arguments.len() ==> !(#[trigger] arguments[j] is Entity))
                    ==> !made.entity
            },
            Err(error) => {
                &&& error == (ErrorView::Internal {
                    message: "`@connect` directive is missing a selection"@,
                })
                &&& forall|i: int|
                    0 <= i < arguments.len() ==> !(#[trigger] arguments[i] is Selection)
            },
        },
{
    law_last_find_counts(arguments, ConnectArgument::<S>::source(), k);
    law_last_find_counts(arguments, ConnectArgument::<S>::http(), k);
    law_last_find_counts(arguments, ConnectArgument::<S>::selection(), k);
    law_last_find_counts(arguments, ConnectArgument::<S>::entity(), k);
    law_found_in_an_item(arguments, ConnectArgument::<S>::selection());
    assert(forall|j: int|
        0 <= j < arguments.len() ==> (ConnectArgument::<S>::source()(
            #[trigger] arguments[j],
        ) is Some <==> arguments[j] is Source));
    assert(forall|j: int|
        0 <= j < arguments.len() ==> (ConnectArgument::<S>::http()(#[trigger] arguments[j]) is Some
            <==> arguments[j] is Http));
    assert(forall|j: int|
        0 <= j < arguments.len() ==> (ConnectArgument::<S>::selection()(
            #[trigger] arguments[j],
        ) is Some <==> arguments[j] is Selection));
    assert(forall|j: int|
        0 <= j < arguments.len() ==> (ConnectArgument::<S>::entity()(
            #[trigger] arguments[j],
        ) is Some <==> arguments[j] is Entity));
}

/// The arguments read for the connector `made`.
proof fn lemma_arguments_of_connector<
    S,
    P: Fn(&String) -> Result<S, String>,
    H: Fn(&Value) -> Vec<Result<Header, String>>,
>(
    parse: P,
    from_headers_arg: H,
    position: ObjectOrInterfaceFieldDirectivePosition,
    directive: Directive,
    made: ConnectDirectiveArguments<S>,
) -> (arguments: Seq<ConnectArgument<S>>)
    requires
        ConnectDirectiveArguments::application_read(
            parse,
            from_headers_arg,
            position,
            directive,
            Ok(made),
        ),
    ensures
        arguments.len() == directive.arguments@.len(),
        forall|i: int|
            0 <= i < arguments.len() ==> ConnectArgument::<S>::reads(parse, from_headers_arg)(
                #[trigger] directive.arguments@[i],
                Ok(arguments[i]),
            ),
        ConnectDirectiveArguments::assembled(position, arguments) == Ok::<
            ConnectDirectiveArguments<S>,
            ErrorView,
        >(made),
{
    let gives = ConnectArgument::<S>::reads(parse, from_headers_arg);
    let read = choose|arguments: Result<Seq<ConnectArgument<S>>, ErrorView>|
        {
            &&& #[trigger] collects(directive.arguments@, gives, arguments)
            &&& Ok::<ConnectDirectiveArguments<S>, ErrorView>(made) == match arguments {
                Ok(arguments) => ConnectDirectiveArguments::assembled(position, arguments),
                Err(error) => Err(error),
            }
        };
    read->Ok_0
}

/// A connector is read from the arguments of its directive: where the argument at `k` is the last one
/// of its name, the part of that name is what the argument gives, whatever other arguments there are.
/// Every argument can be read, as `arguments` says.
pub proof fn law_connector_is_read_from_its_arguments<
    S,
    P: Fn(&String) -> Result<S, String>,
    H: Fn(&Value) -> Vec<Result<Header, String>>,
>(
    parse: P,
    from_headers_arg: H,
    position: ObjectOrInterfaceFieldDirectivePosition,
    directive: Directive,
    made: ConnectDirectiveArguments<S>,
    k: int,
) -> (arguments: Seq<ConnectArgument<S>>)
    requires
        ConnectDirectiveArguments::application_read(
            parse,
            from_headers_arg,
            position,
            directive,
            Ok(made),
        ),
        0 <= k < directive.arguments@.len(),
        forall|j: int|
            k < j < directive.arguments@.len() ==> (#[trigger] directive.arguments@[j]).name@
                != directive.arguments@[k].name@,
    ensures
        made.position == position,
        arguments.len() == directive.arguments@.len(),
        forall|i: int|
            0 <= i < arguments.len() ==> ConnectArgument::<S>::reads(parse, from_headers_arg)(
                #[trigger] directive.arguments@[i],
                Ok(arguments[i]),
            ),
        directive.arguments@[k].name@ == "source"@ ==> directive.arguments@[k].value is String
            && made.source == Some(directive.arguments@[k].value->String_0),
        directive.arguments@[k].name@ == "http"@ ==> (
        directive.arguments@[k].value matches Value::Object(fields) && (
        made.http matches Some(http) && ConnectHTTPArguments::reads(
            parse,
            from_headers_arg,
            fields@,
            Ok(http),
        ))),
        directive.arguments@[k].name@ == "selection"@ ==> (
        directive.arguments@[k].value matches Value::String(text) && call_ensures(
            parse,
            (&text,),
            Ok(made.selection),
        )),
        directive.arguments@[k].name@ == "entity"@ ==> directive.arguments@[k].value
            == Value::Boolean(made.entity),
{
    let args = directive.arguments@;
    let arguments = lemma_arguments_of_connector(
        parse,
        from_headers_arg,
        position,
        directive,
        made,
    );
    assert(ConnectArgument::<S>::reads(parse, from_headers_arg)(args[k], Ok(arguments[k])));
    lemma_connect_names_differ();
    law_connect_argument_is_read(parse, from_headers_arg, args[k], Ok(arguments[k]));
    law_connector_is_assembled(position, arguments, k);
    assert forall|j: int| k < j < arguments.len() implies {
        &&& arguments[k] is Source ==> !(#[trigger] arguments[j] is Source)
        &&& arguments[k] is Http ==> !(arguments[j] is Http)
        &&& arguments[k] is Selection ==> !(arguments[j] is Selection)
        &&& arguments[k] is Entity ==> !(arguments[j] is Entity)
    } by {
        assert(args[j].name@ != args[k].name@);
        assert(ConnectArgument::<S>::reads(parse, from_headers_arg)(args[j], Ok(arguments[j])));
        law_connect_argument_is_read(parse, from_headers_arg, args[j], Ok(arguments[j]));
    }
    arguments
}

/// A connector has no source and no `http` argument, and does not resolve the entity, where its
/// directive has no argument of that name; and its directive has a selection.
pub proof fn law_absent_connect_arguments<
    S,
    P: Fn(&String) -> Result<S, String>,
    H: Fn(&Value) -> Vec<Result<Header, String>>,
>(
    parse: P,
    from_headers_arg: H,
    position: ObjectOrInterfaceFieldDirectivePosition,
    directive: Directive,
    made: ConnectDirectiveArguments<S>,
)
    requires
        ConnectDirectiveArguments::application_read(
            parse,
            from_headers_arg,
            position,
            directive,
            Ok(made),
        ),
    ensures
        made.position == position,
        (forall|i: int|
            0 <= i < directive.arguments@.len() ==> (#[trigger] directive.arguments@[i]).name@
                != "source"@) ==> made.source is None,
        (forall|i: int|
            0 <= i < directive.arguments@.len() ==> (#[trigger] directive.arguments@[i]).name@
                != "http"@) ==> made.http is None,
        (forall|i: int|
            0 <= i < directive.arguments@.len() ==> (#[trigger] directive.arguments@[i]).name@
                != "entity"@) ==> !made.entity,
        exists|i: int|
            0 <= i < directive.arguments@.len() && (#[trigger] directive.arguments@[i]).name@
                == "selection"@,
{
    let args = directive.arguments@;
    let arguments = lemma_arguments_of_connector(
        parse,
        from_headers_arg,
        position,
        directive,
        made,
    );
    law_connector_is_assembled(position, arguments, 0);
    assert forall|j: int| 0 <= j < arguments.len() implies {
        &&& #[trigger] arguments[j] is Source ==> args[j].name@ == "source"@
        &&& arguments[j] is Http ==> args[j].name@ == "http"@
        &&& arguments[j] is Selection ==> args[j].name@ == "selection"@
        &&& arguments[j] is Entity ==> args[j].name@ == "entity"@
    } by {
        assert(ConnectArgument::<S>::reads(parse, from_headers_arg)(args[j], Ok(arguments[j])));
        law_connect_argument_is_read(parse, from_headers_arg, args[j], Ok(arguments[j]));
    }
    let i = choose|i: int| 0 <= i < arguments.len() && #[trigger] arguments[i] is Selection;
    assert(args[i].name@ == "selection"@);
}

/// Where a connector can't be read, the first argument that can't be read gives the error; its index
/// is given back with what the arguments before it are read as. If there is no such argument, there
/// is no selection.
pub proof fn law_connect_argument_fails<
    S,
    P: Fn(&String) -> Result<S, String>,
    H: Fn(&Value) -> Vec<Result<Header, String>>,
>(
    parse: P,
    from_headers_arg: H,
    position: ObjectOrInterfaceFieldDirectivePosition,
    directive: Directive,
    error: ErrorView,
) -> (first: (int, Seq<ConnectArgument<S>>))
    requires
        ConnectDirectiveArguments::<S>::application_read(
            parse,
            from_headers_arg,
            position,
            directive,
            Err(error),
        ),
    ensures
        0 <= first.0 <= directive.arguments@.len(),
        first.1.len() == first.0,
        forall|i: int|
            0 <= i < first.0 ==> ConnectArgument::<S>::reads(parse, from_headers_arg)(
                #[trigger] directive.arguments@[i],
                Ok(first.1[i]),
            ),
        first.0 < directive.arguments@.len() ==> ConnectArgument::<S>::reads(
            parse,
            from_headers_arg,
        )(directive.arguments@[first.0], Err(error)),
        first.0 == directive.arguments@.len() ==> {
            &&& error == (ErrorView::Internal {
                message: "`@connect` directive is missing a selection"@,
            })
            &&& forall|i: int|
                0 <= i < directive.arguments@.len() ==> (#[trigger] directive.arguments@[i]).name@
                    != "selection"@
        },
{
    let args = directive.arguments@;
    let gives = ConnectArgument::<S>::reads(parse, from_headers_arg);
    let failure: Result<ConnectDirectiveArguments<S>, ErrorView> = Err(error);
    let read = choose|arguments: Result<Seq<ConnectArgument<S>>, ErrorView>|
        {
            &&& #[trigger] collects(args, gives, arguments)
            &&& failure == match arguments {
                Ok(arguments) => ConnectDirectiveArguments::assembled(position, arguments),
                Err(error) => Err(error),
            }
        };
    match read {
        Ok(arguments) => {
            law_connector_is_assembled(position, arguments, 0);
            assert forall|i: int| 0 <= i < args.len() implies (#[trigger] args[i]).name@
                != "selection"@ by {
                assert(gives(args[i], Ok(arguments[i])));
                law_connect_argument_is_read(parse, from_headers_arg, args[i], Ok(arguments[i]));
                assert(!(arguments[i] is Selection));
                lemma_connect_names_differ();
            }
            (args.len() as int, arguments)
        },
        Err(_) => lemma_first_failure_of(args, gives, error),
    }
}

/// What a field of the `http` argument of `@source` is read as: a base URL is what its string is parsed
/// as, and headers are the map of what their value gave. It can't be read exactly if it has another
/// name, if a string is missing, or if what was parsed was not understood.
pub proof fn law_source_http_field_is_read<H: Fn(&Value) -> Vec<Result<Header, String>>>(
    from_headers_arg: H,
    field: (String, Value),
    read: Result<SourceHTTPField, ErrorView>,
)
    requires
        SourceHTTPField::reads(from_headers_arg)(field, read),
    ensures
        match read {
            Ok(SourceHTTPField::BaseUrl(url)) => {
                field.0@ == "baseURL"@ && (field.1 matches Value::String(text) && url_of(text@)
                    == Ok::<Seq<char>, Seq<char>>(url@))
            },
            Ok(SourceHTTPField::Headers(headers)) => {
                field.0@ == "headers"@ && exists|parsed: Vec<Result<Header, String>>| #[trigger]
                    call_ensures(from_headers_arg, (&field.1,), parsed) && headers_collected(
                        parsed@,
                        Ok(headers),
                    )
            },
            Err(error) => {
                ||| {
                    &&& field.0@ == "baseURL"@ && !(field.1 is String)
                    &&& error == (ErrorView::Internal {
                        message:
                            "`baseURL` field in `@source` directive's `http` field is not a string"@,
                    })
                }
                ||| {
                    &&& field.0@ == "baseURL"@
                    &&& field.1 matches Value::String(text) && (url_of(text@) matches Err(message)
                        && error == (ErrorView::Internal {
                        message: "Invalid base URL: "@ + message,
                    }))
                }
                ||| {
                    &&& field.0@ == "headers"@
                    &&& exists|parsed: Vec<Result<Header, String>>| #[trigger]
                        call_ensures(from_headers_arg, (&field.1,), parsed) && headers_collected(
                            parsed@,
                            Err(error),
                        )
                }
                ||| {
                    &&& field.0@ != "baseURL"@ && field.0@ != "headers"@
                    &&& error == (ErrorView::Internal {
                        message: "unknown argument in `@source` directive's `http` field: "@
                            + field.0@,
                    })
                }
            },
        },
{
    if field.0@ == "baseURL"@ {
    } else if field.0@ == "headers"@ {
        let (parsed, headers) = choose|
            parsed: Vec<Result<Header, String>>,
            headers: Result<IndexMap<String, HeaderSource>, ErrorView>,
        |
            {
                &&& #[trigger] call_ensures(from_headers_arg, (&field.1,), parsed)
                &&& #[trigger] headers_collected(parsed@, headers)
                &&& read == match headers {
                    Ok(headers) => Ok(SourceHTTPField::Headers(headers)),
                    Err(error) => Err(error),
                }
            };
        assert(call_ensures(from_headers_arg, (&field.1,), parsed));
    }
}

/// What the `http` argument of `@source` is made of: the last base URL, which is needed, and the last
/// headers, or none where there are none.
pub proof fn law_source_http_is_assembled(
    fields: Seq<SourceHTTPField>,
    made: Result<SourceHTTPArguments, ErrorView>,
    k: int,
)
    requires
        SourceHTTPArguments::assembles(fields, made),
    ensures
        match made {
            Ok(made) => {
                &&& exists|i: int| 0 <= i < fields.len() && #[trigger] fields[i] is BaseUrl
                &&& 0 <= k < fields.len() && (forall|j: int|
                    k < j < fields.len() ==> !(#[trigger] fields[j] is BaseUrl))
                    && fields[k] is BaseUrl ==> made.base_url == fields[k]->BaseUrl_0
                &&& 0 <= k < fields.len() && (forall|j: int|
                    k < j < fields.len() ==> !(#[trigger] fields[j] is Headers))
                    && fields[k] is Headers ==> made.headers == fields[k]->Headers_0
                &&& (forall|j: int| 0 <= j < fields.len() ==> !(#[trigger] fields[j] is Headers))
                    ==> header_entries(made.headers).len() == 0
            },
            Err(error) => {
                &&& error == (ErrorView::Internal {
                    message:
                        "missing `base_url` field in `@source` directive's `http` argument"@,
                })
                &&& forall|i: int| 0 <= i < fields.len() ==> !(#[trigger] fields[i] is BaseUrl)
            },
        },
{
    law_last_find_counts(fields, SourceHTTPField::base_url(), k);
    law_last_find_counts(fields, SourceHTTPField::headers(), k);
    law_found_in_an_item(fields, SourceHTTPField::base_url());
    assert(forall|j: int|
        0 <= j < fields.len() ==> (SourceHTTPField::base_url()(#[trigger] fields[j]) is Some
            <==> fields[j] is BaseUrl));
    assert(forall|j: int|
        0 <= j < fields.len() ==> (SourceHTTPField::headers()(#[trigger] fields[j]) is Some
            <==> fields[j] is Headers));
}

/// What the fields of the `http` argument of `@source` were read as when `made` came out.
proof fn lemma_fields_of_source_http<H: Fn(&Value) -> Vec<Result<Header, String>>>(
    from_headers_arg: H,
    values: Seq<(String, Value)>,
    made: Result<SourceHTTPArguments, ErrorView>,
) -> (read: Result<Seq<SourceHTTPField>, ErrorView>)
    requires
        SourceHTTPArguments::reads(from_headers_arg, values, made),
    ensures
        collects(values, SourceHTTPField::reads(from_headers_arg), read),
        read matches Ok(fields) ==> SourceHTTPArguments::assembles(fields, made),
        read matches Err(error) ==> made == Err::<SourceHTTPArguments, ErrorView>(error),
{
    choose|fields: Result<Seq<SourceHTTPField>, ErrorView>|
        {
            &&& #[trigger] collects(values, SourceHTTPField::reads(from_headers_arg), fields)
            &&& match fields {
                Ok(fields) => SourceHTTPArguments::assembles(fields, made),
                Err(error) => made == Err::<SourceHTTPArguments, ErrorView>(error),
            }
        }
}

/// The `http` argument of `@source` is read from its fields: where the field at `k` is the last one of
/// its name, the part of that name is what the field gives, whatever other fields there are. Every
/// field can be read, as `fields` says.
pub proof fn law_source_http_is_read_from_its_fields<H: Fn(&Value) -> Vec<Result<Header, String>>>(
    from_headers_arg: H,
    values: Seq<(String, Value)>,
    made: SourceHTTPArguments,
    k: int,
) -> (fields: Seq<SourceHTTPField>)
    requires
        SourceHTTPArguments::reads(from_headers_arg, values, Ok(made)),
        0 <= k < values.len(),
        forall|j: int| k < j < values.len() ==> (#[trigger] values[j]).0@ != values[k].0@,
    ensures
        fields.len() == values.len(),
        forall|i: int|
            0 <= i < values.len() ==> SourceHTTPField::reads(from_headers_arg)(
                #[trigger] values[i],
                Ok(fields[i]),
            ),
        values[k].0@ == "baseURL"@ ==> (values[k].1 matches Value::String(text) && url_of(text@)
            == Ok::<Seq<char>, Seq<char>>(made.base_url@)),
        values[k].0@ == "headers"@ ==> exists|parsed: Vec<Result<Header, String>>| #[trigger]
            call_ensures(from_headers_arg, (&values[k].1,), parsed) && headers_collected(
                parsed@,
                Ok(made.headers),
            ),
{
    let gives = SourceHTTPField::reads(from_headers_arg);
    let read = lemma_fields_of_source_http(from_headers_arg, values, Ok(made));
    let fields = read->Ok_0;
    assert(gives(values[k], Ok(fields[k])));
    lemma_source_names_differ();
    law_source_http_field_is_read(from_headers_arg, values[k], Ok(fields[k]));
    law_source_http_is_assembled(fields, Ok(made), k);
    assert forall|j: int| k < j < fields.len() implies {
        &&& fields[k] is BaseUrl ==> !(#[trigger] fields[j] is BaseUrl)
        &&& fields[k] is Headers ==> !(fields[j] is Headers)
    } by {
        assert(values[j].0@ != values[k].0@);
        assert(gives(values[j], Ok(fields[j])));
        law_source_http_field_is_read(from_headers_arg, values[j], Ok(fields[j]));
    }
    fields
}

/// The `http` argument of `@source` has no headers where no field has that name; and a field has the
/// base URL.
pub proof fn law_absent_source_http_fields<H: Fn(&Value) -> Vec<Result<Header, String>>>(
    from_headers_arg: H,
    values: Seq<(String, Value)>,
    made: SourceHTTPArguments,
)
    requires
        SourceHTTPArguments::reads(from_headers_arg, values, Ok(made)),
    ensures
        exists|i: int| 0 <= i < values.len() && (#[trigger] values[i]).0@ == "baseURL"@,
        (forall|i: int| 0 <= i < values.len() ==> (#[trigger] values[i]).0@ != "headers"@)
            ==> header_entries(made.headers).len() == 0,
{
    let gives = SourceHTTPField::reads(from_headers_arg);
    let read = lemma_fields_of_source_http(from_headers_arg, values, Ok(made));
    let fields = read->Ok_0;
    law_source_http_is_assembled(fields, Ok(made), 0);
    assert forall|j: int| 0 <= j < fields.len() implies {
        &&& #[trigger] fields[j] is BaseUrl ==> values[j].0@ == "baseURL"@
        &&& fields[j] is Headers ==> values[j].0@ == "headers"@
    } by {
        assert(gives(values[j], Ok(fields[j])));
        law_source_http_field_is_read(from_headers_arg, values[j], Ok(fields[j]));
    }
    let i = choose|i: int| 0 <= i < fields.len() && #[trigger] fields[i] is BaseUrl;
    assert(values[i].0@ == "baseURL"@);
}

/// Where the `http` argument of `@source` can't be read, the first field that can't be read gives the
/// error; its index is given back with what the fields before it are read as. If there is no such
/// field, there is no base URL.
pub proof fn law_source_http_field_fails<H: Fn(&Value) -> Vec<Result<Header, String>>>(
    from_headers_arg: H,
    values: Seq<(String, Value)>,
    error: ErrorView,
) -> (first: (int, Seq<SourceHTTPField>))
    requires
        SourceHTTPArguments::reads(from_headers_arg, values, Err(error)),
    ensures
        0 <= first.0 <= values.len(),
        first.1.len() == first.0,
        forall|i: int|
            0 <= i < first.0 ==> SourceHTTPField::reads(from_headers_arg)(
                #[trigger] values[i],
                Ok(first.1[i]),
            ),
        first.0 < values.len() ==> SourceHTTPField::reads(from_headers_arg)(
            values[first.0],
            Err(error),
        ),
        first.0 == values.len() ==> {
            &&& error == (ErrorView::Internal {
                message: "missing `base_url` field in `@source` directive's `http` argument"@,
            })
            &&& forall|i: int| 0 <= i < values.len() ==> (#[trigger] values[i]).0@ != "baseURL"@
        },
{
    let gives = SourceHTTPField::reads(from_headers_arg);
    let read = lemma_fields_of_source_http(from_headers_arg, values, Err(error));
    match read {
        Ok(fields) => {
            law_source_http_is_assembled(fields, Err(error), 0);
            assert forall|i: int| 0 <= i < values.len() implies (#[trigger] values[i]).0@
                != "baseURL"@ by {
                assert(gives(values[i], Ok(fields[i])));
                law_source_http_field_is_read(from_headers_arg, values[i], Ok(fields[i]));
                assert(!(fields[i] is BaseUrl));
                lemma_source_names_differ();
            }
            (values.len() as int, fields)
        },
        Err(_) => lemma_first_failure_of(values, gives, error),
    }
}

/// What an argument of `@source` is read as: the string of a name, or what the fields of an `http`
/// argument give. It can't be read exactly if it has another name or its value has another form, or
/// if what is in it can't be read.
pub proof fn law_source_argument_is_read<H: Fn(&Value) -> Vec<Result<Header, String>>>(
    from_headers_arg: H,
    argument: Argument,
    read: Result<SourceArgument, ErrorView>,
)
    requires
        SourceArgument::reads(from_headers_arg)(argument, read),
    ensures
        match read {
            Ok(SourceArgument::Name(name)) => {
                argument.name@ == "name"@ && argument.value == Value::String(name)
            },
            Ok(SourceArgument::Http(http)) => {
                argument.name@ == "http"@ && (argument.value matches Value::Object(fields)
                    && SourceHTTPArguments::reads(from_headers_arg, fields@, Ok(http)))
            },
            Err(error) => {
                ||| {
                    &&& argument.name@ == "name"@ && !(argument.value is String)
                    &&& error == (ErrorView::Internal {
                        message: "`name` field in `@source` directive is not a string"@,
                    })
                }
                ||| {
                    &&& argument.name@ == "http"@ && !(argument.value is Object)
                    &&& error == (ErrorView::Internal {
                        message: "`http` field in `@source` directive is not an object"@,
                    })
                }
                ||| {
                    &&& argument.name@ == "http"@
                    &&& argument.value matches Value::Object(fields) && SourceHTTPArguments::reads(
                        from_headers_arg,
                        fields@,
                        Err(error),
                    )
                }
                ||| {
                    &&& argument.name@ != "name"@ && argument.name@ != "http"@
                    &&& error == (ErrorView::Internal {
                        message: "unknown argument in `@source` directive: "@ + argument.name@,
                    })
                }
            },
        },
{
    if argument.name@ == "name"@ {
    } else if argument.name@ == "http"@ {
        if let Value::Object(fields) = argument.value {
            assert(SourceArgument::http_read(from_headers_arg, fields@, read));
            let http = choose|http: Result<SourceHTTPArguments, ErrorView>|
                {
                    &&& #[trigger] SourceHTTPArguments::reads(from_headers_arg, fields@, http)
                    &&& read == match http {
                        Ok(http) => Ok(SourceArgument::Http(http)),
                        Err(error) => Err(error),
                    }
                };
            match http {
                Ok(found) => {
                    assert(SourceHTTPArguments::reads(from_headers_arg, fields@, Ok(found)));
                },
                Err(error) => {
                    assert(SourceHTTPArguments::reads(from_headers_arg, fields@, Err(error)));
                },
            }
        }
    }
}

/// What a source is made of: the last name and the last `http` argument, both of which are needed; a
/// missing name is told first.
pub proof fn law_source_is_assembled(
    arguments: Seq<SourceArgument>,
    made: Result<SourceDirectiveArguments, ErrorView>,
    k: int,
)
    requires
        SourceDirectiveArguments::assembles(arguments, made),
    ensures
        match made {
            Ok(made) => {
                &&& exists|i: int| 0 <= i < arguments.len() && #[trigger] arguments[i] is Name
                &&& exists|i: int| 0 <= i < arguments.len() && #[trigger] arguments[i] is Http
                &&& 0 <= k < arguments.len() && (forall|j: int|
                    k < j < arguments.len() ==> !(#[trigger] arguments[j] is Name))
                    && arguments[k] is Name ==> made.name == arguments[k]->Name_0
                &&& 0 <= k < arguments.len() && (forall|j: int|
                    k < j < arguments.len() ==> !(#[trigger] arguments[j] is Http))
                    && arguments[k] is Http ==> made.http == arguments[k]->Http_0
            },
            Err(error) => {
                ||| {
                    &&& error == (ErrorView::Internal {
                        message: "missing `name` field in `@source` directive"@,
                    })
                    &&& forall|i: int|
                        0 <= i < arguments.len() ==> !(#[trigger] arguments[i] is Name)
                }
                ||| {
                    &&& error == (ErrorView::Internal {
                        message: "missing `http` field in `@source` directive"@,
                    })
                    &&& exists|i: int| 0 <= i < arguments.len() && #[trigger] arguments[i] is Name
                    &&& forall|i: int|
                        0 <= i < arguments.len() ==> !(#[trigger] arguments[i] is Http)
                }
            },
        },
{
    law_last_find_counts(arguments, SourceArgument::name(), k);
    law_last_find_counts(arguments, SourceArgument::http(), k);
    law_found_in_an_item(arguments, SourceArgument::name());
    law_found_in_an_item(arguments, SourceArgument::http());
    assert(forall|j: int|
        0 <= j < arguments.len() ==> (SourceArgument::name()(#[trigger] arguments[j]) is Some
            <==> arguments[j] is Name));
    assert(forall|j: int|
        0 <= j < arguments.len() ==> (SourceArgument::http()(#[trigger] arguments[j]) is Some
            <==> arguments[j] is Http));
}

/// What the arguments of `@source` were read as when `made` came out.
proof fn lemma_arguments_of_source<H: Fn(&Value) -> Vec<Result<Header, String>>>(
    from_headers_arg: H,
    directive: Directive,
    made: Result<SourceDirectiveArguments, ErrorView>,
) -> (read: Result<Seq<SourceArgument>, ErrorView>)
    requires
        SourceDirectiveArguments::reads(from_headers_arg)(directive, made),
    ensures
        collects(directive.arguments@, SourceArgument::reads(from_headers_arg), read),
        read matches Ok(arguments) ==> SourceDirectiveArguments::assembles(arguments, made),
        read matches Err(error) ==> made == Err::<SourceDirectiveArguments, ErrorView>(error),
{
    choose|arguments: Result<Seq<SourceArgument>, ErrorView>|
        {
            &&& #[trigger] collects(
                directive.arguments@,
                SourceArgument::reads(from_headers_arg),
                arguments,
            )
            &&& match arguments {
                Ok(arguments) => SourceDirectiveArguments::assembles(arguments, made),
                Err(error) => made == Err::<SourceDirectiveArguments, ErrorView>(error),
            }
        }
}

/// A source is read from the arguments of its directive: where the argument at `k` is the last one of
/// its name, the part of that name is what the argument gives, whatever other arguments there are.
/// Every argument can be read, as `arguments` says, and both names occur.
pub proof fn law_source_is_read_from_its_arguments<H: Fn(&Value) -> Vec<Result<Header, String>>>(
    from_headers_arg: H,
    directive: Directive,
    made: SourceDirectiveArguments,
    k: int,
) -> (arguments: Seq<SourceArgument>)
    requires
        SourceDirectiveArguments::reads(from_headers_arg)(directive, Ok(made)),
        0 <= k < directive.arguments@.len(),
        forall|j: int|
            k < j < directive.arguments@.len() ==> (#[trigger] directive.arguments@[j]).name@
                != directive.arguments@[k].name@,
    ensures
        arguments.len() == directive.arguments@.len(),
        forall|i: int|
            0 <= i < arguments.len() ==> SourceArgument::reads(from_headers_arg)(
                #[trigger] directive.arguments@[i],
                Ok(arguments[i]),
            ),
        directive.arguments@[k].name@ == "name"@ ==> directive.arguments@[k].value
            == Value::String(made.name),
        directive.arguments@[k].name@ == "http"@ ==> (
        directive.arguments@[k].value matches Value::Object(fields) && SourceHTTPArguments::reads(
            from_headers_arg,
            fields@,
            Ok(made.http),
        )),
        exists|i: int|
            0 <= i < directive.arguments@.len() && (#[trigger] directive.arguments@[i]).name@
                == "name"@,
        exists|i: int|
            0 <= i < directive.arguments@.len() && (#[trigger] directive.arguments@[i]).name@
                == "http"@,
{
    let args = directive.arguments@;
    let gives = SourceArgument::reads(from_headers_arg);
    let read = lemma_arguments_of_source(from_headers_arg, directive, Ok(made));
    let arguments = read->Ok_0;
    lemma_source_names_differ();
    law_source_is_assembled(arguments, Ok(made), k);
    assert forall|j: int| 0 <= j < arguments.len() implies {
        &&& #[trigger] arguments[j] is Name ==> args[j].name@ == "name"@ && args[j].value
            == Value::String(arguments[j]->Name_0)
        &&& arguments[j] is Http ==> args[j].name@ == "http"@
    } by {
        assert(gives(args[j], Ok(arguments[j])));
        law_source_argument_is_read(from_headers_arg, args[j], Ok(arguments[j]));
    }
    assert(gives(args[k], Ok(arguments[k])));
    law_source_argument_is_read(from_headers_arg, args[k], Ok(arguments[k]));
    assert forall|j: int| k < j < arguments.len() implies {
        &&& arguments[k] is Name ==> !(#[trigger] arguments[j] is Name)
        &&& arguments[k] is Http ==> !(arguments[j] is Http)
    } by {
        assert(args[j].name@ != args[k].name@);
    }
    let i = choose|i: int| 0 <= i < arguments.len() && #[trigger] arguments[i] is Name;
    assert(args[i].name@ == "name"@);
    let i = choose|i: int| 0 <= i < arguments.len() && #[trigger] arguments[i] is Http;
    assert(args[i].name@ == "http"@);
    arguments
}

/// Where a source can't be read, the first argument that can't be read gives the error; its index is
/// given back with what the arguments before it are read as. If there is no such argument, there is
/// no name, or a name and no `http` argument. A directive without arguments has no name.
pub proof fn law_source_argument_fails<H: Fn(&Value) -> Vec<Result<Header, String>>>(
    from_headers_arg: H,
    directive: Directive,
    error: ErrorView,
) -> (first: (int, Seq<SourceArgument>))
    requires
        SourceDirectiveArguments::reads(from_headers_arg)(directive, Err(error)),
    ensures
        0 <= first.0 <= directive.arguments@.len(),
        first.1.len() == first.0,
        forall|i: int|
            0 <= i < first.0 ==> SourceArgument::reads(from_headers_arg)(
                #[trigger] directive.arguments@[i],
                Ok(first.1[i]),
            ),
        first.0 < directive.arguments@.len() ==> SourceArgument::reads(from_headers_arg)(
            directive.arguments@[first.0],
            Err(error),
        ),
        first.0 == directive.arguments@.len() ==> {
            ||| {
                &&& error == (ErrorView::Internal {
                    message: "missing `name` field in `@source` directive"@,
                })
                &&& forall|i: int|
                    0 <= i < directive.arguments@.len() ==> (
                    #[trigger] directive.arguments@[i]).name@ != "name"@
            }
            ||| {
                &&& error == (ErrorView::Internal {
                    message: "missing `http` field in `@source` directive"@,
                })
                &&& exists|i: int|
                    0 <= i < directive.arguments@.len() && (
                    #[trigger] directive.arguments@[i]).name@ == "name"@
                &&& forall|i: int|
                    0 <= i < directive.arguments@.len() ==> (
                    #[trigger] directive.arguments@[i]).name@ != "http"@
            }
        },
{
    let args = directive.arguments@;
    let gives = SourceArgument::reads(from_headers_arg);
    let read = lemma_arguments_of_source(from_headers_arg, directive, Err(error));
    match read {
        Ok(arguments) => {
            law_source_is_assembled(arguments, Err(error), 0);
            lemma_source_names_differ();
            assert forall|i: int| 0 <= i < args.len() implies {
                &&& (#[trigger] args[i]).name@ == "name"@ <==> arguments[i] is Name
                &&& args[i].name@ == "http"@ <==> arguments[i] is Http
            } by {
                assert(gives(args[i], Ok(arguments[i])));
                law_source_argument_is_read(from_headers_arg, args[i], Ok(arguments[i]));
            }
            if exists|i: int| 0 <= i < arguments.len() && #[trigger] arguments[i] is Name {
                let i = choose|i: int| 0 <= i < arguments.len() && #[trigger] arguments[i] is Name;
                assert(args[i].name@ == "name"@);
            }
            (args.len() as int, arguments)
        },
        Err(_) => lemma_first_failure_of(args, gives, error),
    }
}

/// What was parsed is taken as it is: a body, a selection or a base URL is what the parser gave, and
/// the message of a failure is kept.
pub proof fn law_parsed_parts<S>(
    parsed: Result<S, String>,
    url: Result<String, String>,
    read: Result<SourceHTTPField, ErrorView>,
)
    ensures
        parsed matches Ok(selection) ==> ConnectHTTPField::parsed_body(parsed) == Ok::<
            ConnectHTTPField<S>,
            ErrorView,
        >(ConnectHTTPField::Body(selection)) && ConnectArgument::parsed_selection(parsed) == Ok::<
            ConnectArgument<S>,
            ErrorView,
        >(ConnectArgument::Selection(selection)),
        parsed matches Err(message) ==> ConnectHTTPField::parsed_body(parsed) == Err::<
            ConnectHTTPField<S>,
            ErrorView,
        >(ErrorView::Internal { message: message@ }) && ConnectArgument::parsed_selection(parsed)
            == Err::<ConnectArgument<S>, ErrorView>(ErrorView::Internal { message: message@ }),
        url matches Ok(text) ==> SourceHTTPField::base_url_parsed(Ok(text@), read) ==> (
        read matches Ok(SourceHTTPField::BaseUrl(kept)) && kept@ == text@),
        url matches Err(message) ==> SourceHTTPField::base_url_parsed(Err(message@), read) ==> read
            == Err::<SourceHTTPField, ErrorView>(
            ErrorView::Internal { message: "Invalid base URL: "@ + message@ },
        ),
{
}

} // verus!
