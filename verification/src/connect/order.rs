//! The order of fields and arguments makes no difference where no name is used twice.

use crate::ast::Argument;
use crate::ast::Directive;
use crate::ast::Value;
use crate::collecting::agree;
use crate::collecting::collects;
use crate::collecting::law_collecting_in_another_order;
use crate::collecting::law_found_in_another_order;
use crate::collecting::lemma_reordered;
use crate::collecting::moved;
use crate::collecting::reordered;
use crate::collecting::told_apart;
use crate::connect::agreement::law_connector_is_determined;
use crate::connect::agreement::law_http_arguments_are_determined;
use crate::connect::agreement::law_source_http_arguments_are_determined;
use crate::connect::agreement::law_source_is_determined;
use crate::connect::agreement::lists_one_way;
use crate::connect::agreement::parses_one_way;
use crate::connect::connector::ConnectArgument;
use crate::connect::connector::ConnectDirectiveArguments;
use crate::connect::connector::ConnectHTTPArguments;
use crate::connect::connector::ConnectHTTPField;
use crate::connect::headers::Header;
use crate::connect::source::SourceArgument;
use crate::connect::source::SourceDirectiveArguments;
use crate::connect::source::SourceHTTPArguments;
use crate::connect::source::SourceHTTPField;
use crate::error::ErrorView;
use crate::position::ObjectOrInterfaceFieldDirectivePosition;
use vstd::prelude::*;

verus! {

/// The name of a field of an object value.
pub open spec fn field_name() -> spec_fn((String, Value)) -> Seq<char> {
    |field: (String, Value)| field.0@
}

/// The name of an argument.
pub open spec fn argument_name() -> spec_fn(Argument) -> Seq<char> {
    |argument: Argument| argument.name@
}

/// What was read from a field of the `http` argument of `@connect` tells the field's name.
proof fn lemma_http_field_name<
    S,
    P: Fn(&String) -> Result<S, String>,
    H: Fn(&Value) -> Vec<Result<Header, String>>,
>(parse: P, from_headers_arg: H, field: (String, Value), read: ConnectHTTPField<S>)
    requires
        ConnectHTTPField::<S>::reads(parse, from_headers_arg)(field, Ok(read)),
    ensures
        read is Get ==> field.0@ == "GET"@,
        read is Post ==> field.0@ == "POST"@,
        read is Patch ==> field.0@ == "PATCH"@,
        read is Put ==> field.0@ == "PUT"@,
        read is Delete ==> field.0@ == "DELETE"@,
        read is Body ==> field.0@ == "body"@,
        read is Headers ==> field.0@ == "headers"@,
{
}

/// Whether the `http` argument of `@connect` can be read as `made` does not depend on the order of
/// its fields, where no name is used twice.
pub proof fn law_http_fields_in_another_order<
    S,
    P: Fn(&String) -> Result<S, String>,
    H: Fn(&Value) -> Vec<Result<Header, String>>,
>(
    parse: P,
    from_headers_arg: H,
    values: Seq<(String, Value)>,
    other: Seq<(String, Value)>,
    made: ConnectHTTPArguments<S>,
)
    requires
        told_apart(values, field_name()),
        reordered(values, other),
        ConnectHTTPArguments::reads(parse, from_headers_arg, values, Ok(made)),
    ensures
        ConnectHTTPArguments::reads(parse, from_headers_arg, other, Ok(made)),
{
    let gives = ConnectHTTPField::<S>::reads(parse, from_headers_arg);
    let read = choose|fields: Result<Seq<ConnectHTTPField<S>>, ErrorView>|
        {
            &&& #[trigger] collects(values, gives, fields)
            &&& match fields {
                Ok(fields) => ConnectHTTPArguments::assembles(fields, made),
                Err(error) => false,
            }
        };
    let fields = read->Ok_0;
    assert forall|i: int| 0 <= i < fields.len() implies {
        let field = #[trigger] fields[i];
        &&& field is Get ==> values[i].0@ == "GET"@
        &&& field is Post ==> values[i].0@ == "POST"@
        &&& field is Patch ==> values[i].0@ == "PATCH"@
        &&& field is Put ==> values[i].0@ == "PUT"@
        &&& field is Delete ==> values[i].0@ == "DELETE"@
        &&& field is Body ==> values[i].0@ == "body"@
        &&& field is Headers ==> values[i].0@ == "headers"@
    } by {
        assert(gives(values[i], Ok(fields[i])));
        lemma_http_field_name(parse, from_headers_arg, values[i], fields[i]);
    }
    let name = field_name();
    law_collecting_in_another_order(values, gives, fields, other, name);
    law_found_in_another_order(
        values,
        fields,
        other,
        name,
        "GET"@,
        ConnectHTTPField::<S>::get(),
    );
    law_found_in_another_order(
        values,
        fields,
        other,
        name,
        "POST"@,
        ConnectHTTPField::<S>::post(),
    );
    law_found_in_another_order(
        values,
        fields,
        other,
        name,
        "PATCH"@,
        ConnectHTTPField::<S>::patch(),
    );
    law_found_in_another_order(
        values,
        fields,
        other,
        name,
        "PUT"@,
        ConnectHTTPField::<S>::put(),
    );
    law_found_in_another_order(
        values,
        fields,
        other,
        name,
        "DELETE"@,
        ConnectHTTPField::<S>::delete(),
    );
    law_found_in_another_order(
        values,
        fields,
        other,
        name,
        "body"@,
        ConnectHTTPField::<S>::body(),
    );
    law_found_in_another_order(
        values,
        fields,
        other,
        name,
        "headers"@,
        ConnectHTTPField::<S>::headers(),
    );
    let there: Result<Seq<ConnectHTTPField<S>>, ErrorView> = Ok(moved(values, fields, other));
    assert(collects(other, gives, there));
}

/// The order of the fields of the `http` argument of `@connect` makes no difference, where no name
/// is used twice: neither to success nor to the result.
pub proof fn law_http_field_order_makes_no_difference<
    S,
    P: Fn(&String) -> Result<S, String>,
    H: Fn(&Value) -> Vec<Result<Header, String>>,
>(
    parse: P,
    from_headers_arg: H,
    values: Seq<(String, Value)>,
    made: Result<ConnectHTTPArguments<S>, ErrorView>,
    other: Seq<(String, Value)>,
    other_made: Result<ConnectHTTPArguments<S>, ErrorView>,
)
    requires
        parses_one_way::<S, P>(parse),
        lists_one_way(from_headers_arg),
        told_apart(values, field_name()),
        reordered(values, other),
        ConnectHTTPArguments::reads(parse, from_headers_arg, values, made),
        ConnectHTTPArguments::reads(parse, from_headers_arg, other, other_made),
    ensures
        made is Ok <==> other_made is Ok,
        made is Ok ==> agree(ConnectHTTPArguments::<S>::alike(), made, other_made),
{
    lemma_reordered(values, other, field_name());
    if let Ok(arguments) = made {
        law_http_fields_in_another_order(parse, from_headers_arg, values, other, arguments);
        law_http_arguments_are_determined(parse, from_headers_arg, other, made, other_made);
    }
    if let Ok(arguments) = other_made {
        law_http_fields_in_another_order(parse, from_headers_arg, other, values, arguments);
        law_http_arguments_are_determined(parse, from_headers_arg, values, made, other_made);
    }
}

/// Whether the application of `@connect` can be read as `made` does not depend on the order of its
/// arguments, where no name is used twice.
pub proof fn law_connect_arguments_in_another_order<
    S,
    P: Fn(&String) -> Result<S, String>,
    H: Fn(&Value) -> Vec<Result<Header, String>>,
>(
    parse: P,
    from_headers_arg: H,
    position: ObjectOrInterfaceFieldDirectivePosition,
    directive: Directive,
    other: Directive,
    made: ConnectDirectiveArguments<S>,
)
    requires
        told_apart(directive.arguments@, argument_name()),
        reordered(directive.arguments@, other.arguments@),
        ConnectDirectiveArguments::application_read(
            parse,
            from_headers_arg,
            position,
            directive,
            Ok(made),
        ),
    ensures
        ConnectDirectiveArguments::application_read(
            parse,
            from_headers_arg,
            position,
            other,
            Ok(made),
        ),
{
    let gives = ConnectArgument::<S>::reads(parse, from_headers_arg);
    let args = directive.arguments@;
    let other_args = other.arguments@;
    let name = argument_name();
    let read = choose|arguments: Result<Seq<ConnectArgument<S>>, ErrorView>|
        {
            &&& #[trigger] collects(args, gives, arguments)
            &&& Ok::<ConnectDirectiveArguments<S>, ErrorView>(made) == match arguments {
                Ok(arguments) => ConnectDirectiveArguments::assembled(position, arguments),
                Err(error) => Err(error),
            }
        };
    let found = read->Ok_0;
    assert forall|i: int| 0 <= i < found.len() implies {
        let argument = #[trigger] found[i];
        &&& argument is Source ==> args[i].name@ == "source"@
        &&& argument is Http ==> args[i].name@ == "http"@
        &&& argument is Selection ==> args[i].name@ == "selection"@
        &&& argument is Entity ==> args[i].name@ == "entity"@
    } by {
        assert(gives(args[i], Ok(found[i])));
    }
    law_collecting_in_another_order(args, gives, found, other_args, name);
    law_found_in_another_order(
        args,
        found,
        other_args,
        name,
        "source"@,
        ConnectArgument::<S>::source(),
    );
    law_found_in_another_order(
        args,
        found,
        other_args,
        name,
        "http"@,
        ConnectArgument::<S>::http(),
    );
    law_found_in_another_order(
        args,
        found,
        other_args,
        name,
        "selection"@,
        ConnectArgument::<S>::selection(),
    );
    law_found_in_another_order(
        args,
        found,
        other_args,
        name,
        "entity"@,
        ConnectArgument::<S>::entity(),
    );
    let there: Result<Seq<ConnectArgument<S>>, ErrorView> = Ok(moved(args, found, other_args));
    assert(collects(other_args, gives, there));
}

/// The order of the arguments of `@connect` makes no difference, where no name is used twice:
/// neither to success nor to the result.
pub proof fn law_connect_argument_order_makes_no_difference<
    S,
    P: Fn(&String) -> Result<S, String>,
    H: Fn(&Value) -> Vec<Result<Header, String>>,
>(
    parse: P,
    from_headers_arg: H,
    position: ObjectOrInterfaceFieldDirectivePosition,
    directive: Directive,
    made: Result<ConnectDirectiveArguments<S>, ErrorView>,
    other: Directive,
    other_made: Result<ConnectDirectiveArguments<S>, ErrorView>,
)
    requires
        parses_one_way::<S, P>(parse),
        lists_one_way(from_headers_arg),
        told_apart(directive.arguments@, argument_name()),
        reordered(directive.arguments@, other.arguments@),
        ConnectDirectiveArguments::application_read(
            parse,
            from_headers_arg,
            position,
            directive,
            made,
        ),
        ConnectDirectiveArguments::application_read(
            parse,
            from_headers_arg,
            position,
            other,
            other_made,
        ),
    ensures
        made is Ok <==> other_made is Ok,
        made is Ok ==> agree(ConnectDirectiveArguments::<S>::alike(), made, other_made),
{
    let gives = ConnectDirectiveArguments::<S>::reads(parse, from_headers_arg);
    lemma_reordered(directive.arguments@, other.arguments@, argument_name());
    law_connector_is_determined::<S, P, H>(parse, from_headers_arg);
    assert(gives((position, directive), made));
    assert(gives((position, other), other_made));
    if let Ok(arguments) = made {
        law_connect_arguments_in_another_order(
            parse,
            from_headers_arg,
            position,
            directive,
            other,
            arguments,
        );
        assert(gives((position, other), made));
    }
    if let Ok(arguments) = other_made {
        law_connect_arguments_in_another_order(
            parse,
            from_headers_arg,
            position,
            other,
            directive,
            arguments,
        );
        assert(gives((position, directive), other_made));
    }
}

/// Whether the `http` argument of `@source` can be read as `made` does not depend on the order of
/// its fields, where no name is used twice.
pub proof fn law_source_http_fields_in_another_order<
    H: Fn(&Value) -> Vec<Result<Header, String>>,
>(
    from_headers_arg: H,
    values: Seq<(String, Value)>,
    other: Seq<(String, Value)>,
    made: SourceHTTPArguments,
)
    requires
        told_apart(values, field_name()),
        reordered(values, other),
        SourceHTTPArguments::reads(from_headers_arg, values, Ok(made)),
    ensures
        SourceHTTPArguments::reads(from_headers_arg, other, Ok(made)),
{
    let gives = SourceHTTPField::reads(from_headers_arg);
    let name = field_name();
    let read = choose|fields: Result<Seq<SourceHTTPField>, ErrorView>|
        {
            &&& #[trigger] collects(values, gives, fields)
            &&& match fields {
                Ok(fields) => SourceHTTPArguments::assembles(fields, Ok(made)),
                Err(error) => false,
            }
        };
    let fields = read->Ok_0;
    assert forall|i: int| 0 <= i < fields.len() implies {
        let field = #[trigger] fields[i];
        &&& field is BaseUrl ==> values[i].0@ == "baseURL"@
        &&& field is Headers ==> values[i].0@ == "headers"@
    } by {
        assert(gives(values[i], Ok(fields[i])));
    }
    law_collecting_in_another_order(values, gives, fields, other, name);
    law_found_in_another_order(
        values,
        fields,
        other,
        name,
        "baseURL"@,
        SourceHTTPField::base_url(),
    );
    law_found_in_another_order(values, fields, other, name, "headers"@, SourceHTTPField::headers());
    let there: Result<Seq<SourceHTTPField>, ErrorView> = Ok(moved(values, fields, other));
    assert(collects(other, gives, there));
}

/// The order of the fields of the `http` argument of `@source` makes no difference, where no name
/// is used twice: neither to success nor to the result.
pub proof fn law_source_http_field_order_makes_no_difference<
    H: Fn(&Value) -> Vec<Result<Header, String>>,
>(
    from_headers_arg: H,
    values: Seq<(String, Value)>,
    made: Result<SourceHTTPArguments, ErrorView>,
    other: Seq<(String, Value)>,
    other_made: Result<SourceHTTPArguments, ErrorView>,
)
    requires
        lists_one_way(from_headers_arg),
        told_apart(values, field_name()),
        reordered(values, other),
        SourceHTTPArguments::reads(from_headers_arg, values, made),
        SourceHTTPArguments::reads(from_headers_arg, other, other_made),
    ensures
        made is Ok <==> other_made is Ok,
        made is Ok ==> agree(SourceHTTPArguments::alike(), made, other_made),
{
    lemma_reordered(values, other, field_name());
    if let Ok(arguments) = made {
        law_source_http_fields_in_another_order(from_headers_arg, values, other, arguments);
        law_source_http_arguments_are_determined(from_headers_arg, other, made, other_made);
    }
    if let Ok(arguments) = other_made {
        law_source_http_fields_in_another_order(from_headers_arg, other, values, arguments);
        law_source_http_arguments_are_determined(from_headers_arg, values, made, other_made);
    }
}

/// Whether the application of `@source` can be read as `made` does not depend on the order of its
/// arguments, where no name is used twice.
pub proof fn law_source_arguments_in_another_order<H: Fn(&Value) -> Vec<Result<Header, String>>>(
    from_headers_arg: H,
    directive: Directive,
    other: Directive,
    made: SourceDirectiveArguments,
)
    requires
        told_apart(directive.arguments@, argument_name()),
        reordered(directive.arguments@, other.arguments@),
        SourceDirectiveArguments::reads(from_headers_arg)(directive, Ok(made)),
    ensures
        SourceDirectiveArguments::reads(from_headers_arg)(other, Ok(made)),
{
    let gives = SourceArgument::reads(from_headers_arg);
    let args = directive.arguments@;
    let other_args = other.arguments@;
    let name = argument_name();
    let read = choose|arguments: Result<Seq<SourceArgument>, ErrorView>|
        {
            &&& #[trigger] collects(args, gives, arguments)
            &&& match arguments {
                Ok(arguments) => SourceDirectiveArguments::assembles(arguments, Ok(made)),
                Err(error) => false,
            }
        };
    let found = read->Ok_0;
    assert forall|i: int| 0 <= i < found.len() implies {
        let argument = #[trigger] found[i];
        &&& argument is Name ==> args[i].name@ == "name"@
        &&& argument is Http ==> args[i].name@ == "http"@
    } by {
        assert(gives(args[i], Ok(found[i])));
    }
    law_collecting_in_another_order(args, gives, found, other_args, name);
    law_found_in_another_order(args, found, other_args, name, "name"@, SourceArgument::name());
    law_found_in_another_order(args, found, other_args, name, "http"@, SourceArgument::http());
    let there: Result<Seq<SourceArgument>, ErrorView> = Ok(moved(args, found, other_args));
    assert(collects(other_args, gives, there));
}

/// The order of the arguments of `@source` makes no difference, where no name is used twice:
/// neither to success nor to the result.
pub proof fn law_source_argument_order_makes_no_difference<
    H: Fn(&Value) -> Vec<Result<Header, String>>,
>(
    from_headers_arg: H,
    directive: Directive,
    made: Result<SourceDirectiveArguments, ErrorView>,
    other: Directive,
    other_made: Result<SourceDirectiveArguments, ErrorView>,
)
    requires
        lists_one_way(from_headers_arg),
        told_apart(directive.arguments@, argument_name()),
        reordered(directive.arguments@, other.arguments@),
        SourceDirectiveArguments::reads(from_headers_arg)(directive, made),
        SourceDirectiveArguments::reads(from_headers_arg)(other, other_made),
    ensures
        made is Ok <==> other_made is Ok,
        made is Ok ==> agree(SourceDirectiveArguments::alike(), made, other_made),
{
    let gives = SourceDirectiveArguments::reads(from_headers_arg);
    lemma_reordered(directive.arguments@, other.arguments@, argument_name());
    law_source_is_determined(from_headers_arg);
    if let Ok(arguments) = made {
        law_source_arguments_in_another_order(from_headers_arg, directive, other, arguments);
        assert(gives(other, made));
    }
    if let Ok(arguments) = other_made {
        law_source_arguments_in_another_order(from_headers_arg, other, directive, arguments);
        assert(gives(directive, other_made));
    }
}

} // verus!
