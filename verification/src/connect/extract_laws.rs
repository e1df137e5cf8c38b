//! What follows about all connector directives of a schema.

use crate::ast::distinct_names;
use crate::ast::fields_of;
use crate::ast::law_applications_in_order;
use crate::ast::Directive;
use crate::ast::ExtendedType;
use crate::ast::FieldDefinition;
use crate::ast::FieldsType;
use crate::ast::Schema;
use crate::ast::Value;
use crate::collecting::agree;
use crate::collecting::all_alike;
use crate::collecting::collects;
use crate::collecting::law_collecting_agrees_with_each;
use crate::collecting::law_collecting_is_determined;
use crate::collecting::lemma_told_apart_in_two_lists;
use crate::collecting::told_apart;
use crate::connect::agreement::law_connector_is_determined;
use crate::connect::agreement::law_source_is_determined;
use crate::connect::agreement::lists_one_way;
use crate::connect::agreement::parses_one_way;
use crate::connect::connector::ConnectDirectiveArguments;
use crate::connect::extract::application_position;
use crate::connect::extract::applications;
use crate::connect::extract::connect_applications;
use crate::connect::extract::directive_at;
use crate::connect::extract::field_applications;
use crate::connect::extract::field_position;
use crate::connect::extract::is_interface;
use crate::connect::extract::law_extracted_at_the_applications;
use crate::connect::extract::law_position_leads_to_application;
use crate::connect::extract::list_outcome;
use crate::connect::extract::source_applications;
use crate::connect::extract::type_applications;
use crate::connect::headers::Header;
use crate::connect::reading_laws::law_absent_connect_arguments;
use crate::connect::reading_laws::lemma_first_failure_of;
use crate::connect::source::SourceDirectiveArguments;
use crate::error::ErrorView;
use crate::error::FederationError;
use crate::position::FieldKey;
use crate::position::InterfaceFieldDefinitionPosition;
use crate::position::ObjectFieldDefinitionPosition;
use crate::position::ObjectOrInterfaceFieldDefinitionPosition;
use crate::position::ObjectOrInterfaceFieldDirectivePosition;
use vstd::prelude::*;

verus! {

/// The place of an application.
pub open spec fn application_place() -> spec_fn(
    (ObjectOrInterfaceFieldDirectivePosition, Directive),
) -> (FieldKey, int) {
    |application: (ObjectOrInterfaceFieldDirectivePosition, Directive)| application.0.place()
}

/// The applications on a field have different places, all on that field.
proof fn lemma_places_on_field(
    field: ObjectOrInterfaceFieldDefinitionPosition,
    directives: Seq<Directive>,
    name: Seq<char>,
)
    requires
        directives.len() <= usize::MAX,
    ensures
        told_apart(field_applications(field, directives, name), application_place()),
        forall|i: int|
            0 <= i < field_applications(field, directives, name).len() ==> {
                let position = (#[trigger] field_applications(field, directives, name)[i]).0;
                position.field == field && position.directive_index < directives.len()
            },
    decreases directives.len(),
{
    if directives.len() > 0 {
        lemma_places_on_field(field, directives.drop_last(), name);
    }
}

/// The name of one of the fields.
spec fn names_a_field(fields: Seq<(String, FieldDefinition)>, field_name: Seq<char>) -> bool {
    exists|f: int| 0 <= f < fields.len() && (#[trigger] fields[f]).0@ == field_name
}

/// The applications on the fields of a type have different places, all on fields of that type.
proof fn lemma_places_on_type(
    is_interface: bool,
    named_type: String,
    fields: Seq<(String, FieldDefinition)>,
    name: Seq<char>,
)
    requires
        distinct_names(fields),
    ensures
        told_apart(
            type_applications(is_interface, named_type, fields, name),
            application_place(),
        ),
        forall|i: int|
            0 <= i < type_applications(is_interface, named_type, fields, name).len() ==> {
                let key = (#[trigger] type_applications(
                    is_interface,
                    named_type,
                    fields,
                    name,
                )[i]).0.place().0;
                key.1 == named_type@ && names_a_field(fields, key.2)
            },
    decreases fields.len(),
{
    if fields.len() > 0 {
        let before = fields.drop_last();
        let last = fields.last();
        let position = field_position(is_interface, named_type, last.0);
        let first = type_applications(is_interface, named_type, before, name);
        let second = field_applications(position, last.1.directives@, name);
        let place = application_place();
        assert forall|i: int, j: int|
            #![trigger before[i], before[j]]
            0 <= i < j < before.len() implies before[i].0@ != before[j].0@ by {
            assert(fields[i].0@ != fields[j].0@);
        }
        assert(last.1.directives@.len() <= usize::MAX) by {
            assert(last.1.directives.len() == last.1.directives@.len());
        }
        lemma_places_on_type(is_interface, named_type, before, name);
        lemma_places_on_field(position, last.1.directives@, name);
        assert forall|i: int, j: int|
            #![trigger first[i], second[j]]
            0 <= i < first.len() && 0 <= j < second.len() implies place(first[i]) != place(
            second[j],
        ) by {
            let field_name = first[i].0.place().0.2;
            assert(names_a_field(before, field_name));
            let f = choose|f: int| 0 <= f < before.len() && (#[trigger] before[f]).0@ == field_name;
            assert(fields[f].0@ != fields[fields.len() - 1].0@);
            assert(second[j].0.field == position);
        }
        lemma_told_apart_in_two_lists(first, second, place);
        let all = first + second;
        assert forall|i: int| 0 <= i < all.len() implies {
            let key = (#[trigger] all[i]).0.place().0;
            key.1 == named_type@ && names_a_field(fields, key.2)
        } by {
            if i < first.len() {
                let field_name = first[i].0.place().0.2;
                assert(names_a_field(before, field_name));
                let f = choose|f: int|
                    0 <= f < before.len() && (#[trigger] before[f]).0@ == field_name;
                assert(fields[f].0@ == field_name);
            } else {
                assert(second[i - first.len()].0.field == position);
                assert(fields[fields.len() - 1].0@ == last.0@);
            }
        }
    }
}

/// The name of one of the types.
spec fn names_a_type(types: Seq<(String, ExtendedType)>, named_type: Seq<char>) -> bool {
    exists|t: int| 0 <= t < types.len() && (#[trigger] types[t]).0@ == named_type
}

/// The applications on the fields of types have different places, all on those types.
proof fn lemma_places_on_types(types: Seq<(String, ExtendedType)>, name: Seq<char>)
    requires
        distinct_names(types),
        forall|t: int| 0 <= t < types.len() ==> distinct_names(fields_of((#[trigger] types[t]).1)),
    ensures
        told_apart(connect_applications(types, name), application_place()),
        forall|i: int|
            0 <= i < connect_applications(types, name).len() ==> names_a_type(
                types,
                (#[trigger] connect_applications(types, name)[i]).0.place().0.1,
            ),
    decreases types.len(),
{
    if types.len() > 0 {
        let before = types.drop_last();
        let last = types.last();
        let first = connect_applications(before, name);
        let second = type_applications(is_interface(last.1), last.0, fields_of(last.1), name);
        let place = application_place();
        assert forall|i: int, j: int|
            #![trigger before[i], before[j]]
            0 <= i < j < before.len() implies before[i].0@ != before[j].0@ by {
            assert(types[i].0@ != types[j].0@);
        }
        assert forall|t: int| 0 <= t < before.len() implies distinct_names(
            fields_of((#[trigger] before[t]).1),
        ) by {
            assert(distinct_names(fields_of(types[t].1)));
        }
        assert(distinct_names(fields_of(types[types.len() - 1].1)));
        lemma_places_on_types(before, name);
        lemma_places_on_type(is_interface(last.1), last.0, fields_of(last.1), name);
        assert forall|i: int, j: int|
            #![trigger first[i], second[j]]
            0 <= i < first.len() && 0 <= j < second.len() implies place(first[i]) != place(
            second[j],
        ) by {
            let named_type = first[i].0.place().0.1;
            assert(names_a_type(before, named_type));
            let t = choose|t: int| 0 <= t < before.len() && (#[trigger] before[t]).0@ == named_type;
            assert(types[t].0@ != types[types.len() - 1].0@);
            assert(second[j].0.place().0.1 == last.0@);
        }
        lemma_told_apart_in_two_lists(first, second, place);
        let all = first + second;
        assert forall|i: int| 0 <= i < all.len() implies names_a_type(
            types,
            (#[trigger] all[i]).0.place().0.1,
        ) by {
            if i < first.len() {
                let named_type = first[i].0.place().0.1;
                assert(names_a_type(before, named_type));
                let t = choose|t: int|
                    0 <= t < before.len() && (#[trigger] before[t]).0@ == named_type;
                assert(types[t].0@ == named_type);
            } else {
                assert(second[i - first.len()].0.place().0.1 == last.0@);
                assert(types[types.len() - 1].0@ == last.0@);
            }
        }
    }
}

/// In a well-formed schema, no two applications are found at the same place.
pub proof fn law_applications_have_different_places(schema: Schema, name: Seq<char>)
    requires
        schema.well_formed(),
    ensures
        told_apart(connect_applications(schema.types@, name), application_place()),
{
    lemma_places_on_types(schema.types@, name);
}

/// In a well-formed schema, no two connectors that are extracted have the same position.
pub proof fn law_extracted_positions_differ<
    S,
    P: Fn(&String) -> Result<S, String>,
    H: Fn(&Value) -> Vec<Result<Header, String>>,
>(
    parse: P,
    from_headers_arg: H,
    schema: Schema,
    name: Seq<char>,
    extracted: Seq<ConnectDirectiveArguments<S>>,
)
    requires
        schema.well_formed(),
        collects(
            connect_applications(schema.types@, name),
            ConnectDirectiveArguments::<S>::reads(parse, from_headers_arg),
            Ok::<Seq<ConnectDirectiveArguments<S>>, ErrorView>(extracted),
        ),
    ensures
        forall|i: int, j: int|
            #![trigger extracted[i], extracted[j]]
            0 <= i < j < extracted.len() ==> extracted[i].position.place()
                != extracted[j].position.place(),
{
    let applications = connect_applications(schema.types@, name);
    let place = application_place();
    law_applications_have_different_places(schema, name);
    law_extracted_at_the_applications(parse, from_headers_arg, schema, name, extracted);
    assert forall|i: int, j: int|
        #![trigger extracted[i], extracted[j]]
        0 <= i < j < extracted.len() implies extracted[i].position.place()
        != extracted[j].position.place() by {
        assert(place(applications[i]) != place(applications[j]));
    }
}

/// In a well-formed schema, the position of a connector that is extracted leads back to an
/// application of the directive, and reading that application again gives the same connector.
pub proof fn law_connector_can_be_read_again<
    S,
    P: Fn(&String) -> Result<S, String>,
    H: Fn(&Value) -> Vec<Result<Header, String>>,
>(
    parse: P,
    from_headers_arg: H,
    schema: Schema,
    name: Seq<char>,
    extracted: Seq<ConnectDirectiveArguments<S>>,
    i: int,
)
    requires
        parses_one_way::<S, P>(parse),
        lists_one_way(from_headers_arg),
        schema.well_formed(),
        collects(
            connect_applications(schema.types@, name),
            ConnectDirectiveArguments::<S>::reads(parse, from_headers_arg),
            Ok::<Seq<ConnectDirectiveArguments<S>>, ErrorView>(extracted),
        ),
        0 <= i < extracted.len(),
    ensures
        directive_at(schema, extracted[i].position) matches Some(directive) && {
            &&& directive.name@ == name
            &&& extracted[i].position.directive_name@ == name
            &&& forall|again: Result<ConnectDirectiveArguments<S>, ErrorView>| #[trigger]
                ConnectDirectiveArguments::application_read(
                    parse,
                    from_headers_arg,
                    extracted[i].position,
                    directive,
                    again,
                ) ==> agree(
                    ConnectDirectiveArguments::<S>::alike(),
                    again,
                    Ok::<ConnectDirectiveArguments<S>, ErrorView>(extracted[i]),
                )
        },
{
    let applications = connect_applications(schema.types@, name);
    let application = applications[i];
    let gives = ConnectDirectiveArguments::<S>::reads(parse, from_headers_arg);
    law_extracted_at_the_applications(parse, from_headers_arg, schema, name, extracted);
    assert(extracted[i].position == application.0);
    assert(applications.contains(application));
    law_position_leads_to_application(schema, name, application);
    law_connector_is_determined::<S, P, H>(parse, from_headers_arg);
    assert(gives(application, Ok(extracted[i])));
    assert forall|again: Result<ConnectDirectiveArguments<S>, ErrorView>| #[trigger]
        ConnectDirectiveArguments::application_read(
            parse,
            from_headers_arg,
            extracted[i].position,
            application.1,
            again,
        ) implies agree(
        ConnectDirectiveArguments::<S>::alike(),
        again,
        Ok::<ConnectDirectiveArguments<S>, ErrorView>(extracted[i]),
    ) by {
        assert(gives(application, again));
    }
}

/// The connectors of a schema are extracted in one way.
pub proof fn law_extracted_connectors_are_determined<
    S,
    P: Fn(&String) -> Result<S, String>,
    H: Fn(&Value) -> Vec<Result<Header, String>>,
>(
    parse: P,
    from_headers_arg: H,
    schema: Schema,
    name: Seq<char>,
    first: Result<Seq<ConnectDirectiveArguments<S>>, ErrorView>,
    second: Result<Seq<ConnectDirectiveArguments<S>>, ErrorView>,
)
    requires
        parses_one_way::<S, P>(parse),
        lists_one_way(from_headers_arg),
        collects(
            connect_applications(schema.types@, name),
            ConnectDirectiveArguments::<S>::reads(parse, from_headers_arg),
            first,
        ),
        collects(
            connect_applications(schema.types@, name),
            ConnectDirectiveArguments::<S>::reads(parse, from_headers_arg),
            second,
        ),
    ensures
        agree(all_alike(ConnectDirectiveArguments::<S>::alike()), first, second),
{
    law_connector_is_determined::<S, P, H>(parse, from_headers_arg);
    law_collecting_is_determined(
        connect_applications(schema.types@, name),
        ConnectDirectiveArguments::<S>::reads(parse, from_headers_arg),
        ConnectDirectiveArguments::<S>::alike(),
        first,
        second,
    );
}

/// The list of connectors agrees with reading each application by itself, `singles[i]` being what
/// the application at `i` is read as: it has the connectors of all applications, in order, or no
/// connector and the error of the first application that can't be read.
pub proof fn law_connectors_agree_with_single_reads<
    S,
    P: Fn(&String) -> Result<S, String>,
    H: Fn(&Value) -> Vec<Result<Header, String>>,
>(
    parse: P,
    from_headers_arg: H,
    schema: Schema,
    name: Seq<char>,
    singles: Seq<Result<ConnectDirectiveArguments<S>, ErrorView>>,
    extracted: Result<Seq<ConnectDirectiveArguments<S>>, ErrorView>,
)
    requires
        parses_one_way::<S, P>(parse),
        lists_one_way(from_headers_arg),
        singles.len() == connect_applications(schema.types@, name).len(),
        forall|i: int|
            0 <= i < singles.len() ==> ConnectDirectiveArguments::application_read(
                parse,
                from_headers_arg,
                connect_applications(schema.types@, name)[i].0,
                connect_applications(schema.types@, name)[i].1,
                #[trigger] singles[i],
            ),
        collects(
            connect_applications(schema.types@, name),
            ConnectDirectiveArguments::<S>::reads(parse, from_headers_arg),
            extracted,
        ),
    ensures
        extracted is Ok <==> forall|i: int| 0 <= i < singles.len() ==> #[trigger] singles[i] is Ok,
        extracted matches Ok(connectors) ==> {
            &&& connectors.len() == singles.len()
            &&& forall|i: int|
                0 <= i < connectors.len() ==> agree(
                    ConnectDirectiveArguments::<S>::alike(),
                    Ok::<ConnectDirectiveArguments<S>, ErrorView>(#[trigger] connectors[i]),
                    singles[i],
                )
        },
        extracted matches Err(error) ==> exists|k: int|
            {
                &&& 0 <= k < singles.len()
                &&& #[trigger] singles[k] == Err::<ConnectDirectiveArguments<S>, ErrorView>(error)
                &&& forall|i: int| 0 <= i < k ==> #[trigger] singles[i] is Ok
            },
{
    let applications = connect_applications(schema.types@, name);
    let gives = ConnectDirectiveArguments::<S>::reads(parse, from_headers_arg);
    law_connector_is_determined::<S, P, H>(parse, from_headers_arg);
    assert forall|i: int| 0 <= i < applications.len() implies gives(
        applications[i],
        #[trigger] singles[i],
    ) by {}
    law_collecting_agrees_with_each(
        applications,
        gives,
        ConnectDirectiveArguments::<S>::alike(),
        singles,
        extracted,
    );
}

/// The sources of a schema are extracted in one way.
pub proof fn law_extracted_sources_are_determined<H: Fn(&Value) -> Vec<Result<Header, String>>>(
    from_headers_arg: H,
    schema: Schema,
    name: Seq<char>,
    first: Result<Seq<SourceDirectiveArguments>, ErrorView>,
    second: Result<Seq<SourceDirectiveArguments>, ErrorView>,
)
    requires
        lists_one_way(from_headers_arg),
        collects(
            source_applications(schema, name),
            SourceDirectiveArguments::reads(from_headers_arg),
            first,
        ),
        collects(
            source_applications(schema, name),
            SourceDirectiveArguments::reads(from_headers_arg),
            second,
        ),
    ensures
        agree(all_alike(SourceDirectiveArguments::alike()), first, second),
{
    law_source_is_determined(from_headers_arg);
    law_collecting_is_determined(
        source_applications(schema, name),
        SourceDirectiveArguments::reads(from_headers_arg),
        SourceDirectiveArguments::alike(),
        first,
        second,
    );
}

/// The list of sources agrees with reading each application by itself, `singles[i]` being what the
/// application at `i` is read as: it has the sources of all applications, in order, also where
/// their names are equal, or no source and the error of the first application that can't be read.
pub proof fn law_sources_agree_with_single_reads<H: Fn(&Value) -> Vec<Result<Header, String>>>(
    from_headers_arg: H,
    schema: Schema,
    name: Seq<char>,
    singles: Seq<Result<SourceDirectiveArguments, ErrorView>>,
    extracted: Result<Seq<SourceDirectiveArguments>, ErrorView>,
)
    requires
        lists_one_way(from_headers_arg),
        singles.len() == source_applications(schema, name).len(),
        forall|i: int|
            0 <= i < singles.len() ==> SourceDirectiveArguments::reads(from_headers_arg)(
                source_applications(schema, name)[i],
                #[trigger] singles[i],
            ),
        collects(
            source_applications(schema, name),
            SourceDirectiveArguments::reads(from_headers_arg),
            extracted,
        ),
    ensures
        extracted is Ok <==> forall|i: int| 0 <= i < singles.len() ==> #[trigger] singles[i] is Ok,
        extracted matches Ok(sources) ==> {
            &&& sources.len() == singles.len()
            &&& forall|i: int|
                0 <= i < sources.len() ==> agree(
                    SourceDirectiveArguments::alike(),
                    Ok::<SourceDirectiveArguments, ErrorView>(#[trigger] sources[i]),
                    singles[i],
                )
        },
        extracted matches Err(error) ==> exists|k: int|
            {
                &&& 0 <= k < singles.len()
                &&& #[trigger] singles[k] == Err::<SourceDirectiveArguments, ErrorView>(error)
                &&& forall|i: int| 0 <= i < k ==> #[trigger] singles[i] is Ok
            },
{
    law_source_is_determined(from_headers_arg);
    law_collecting_agrees_with_each(
        source_applications(schema, name),
        SourceDirectiveArguments::reads(from_headers_arg),
        SourceDirectiveArguments::alike(),
        singles,
        extracted,
    );
}

/// The applications on a field in order: the one at `n` is that of the directive at `places[n]`.
proof fn lemma_order_on_field(
    field: ObjectOrInterfaceFieldDefinitionPosition,
    directives: Seq<Directive>,
    name: Seq<char>,
) -> (places: Seq<int>)
    ensures
        places.len() == field_applications(field, directives, name).len(),
        forall|n: int|
            0 <= n < places.len() ==> {
                &&& 0 <= #[trigger] places[n] < directives.len()
                &&& directives[places[n]].name@ == name
                &&& field_applications(field, directives, name)[n] == (
                    application_position(field, directives[places[n]], places[n]),
                    directives[places[n]],
                )
            },
        forall|d: int|
            0 <= d < directives.len() && directives[d].name@ == name
                ==> #[trigger] places.contains(d),
        forall|n: int, m: int|
            #![trigger places[n], places[m]]
            0 <= n < m < places.len() ==> places[n] < places[m],
    decreases directives.len(),
{
    if directives.len() == 0 {
        Seq::empty()
    } else {
        let last = directives.len() - 1;
        let before = directives.drop_last();
        let places = lemma_order_on_field(field, before, name);
        let all = if directives[last].name@ == name {
            places.push(last)
        } else {
            places
        };
        assert(directives.last() == directives[last]);
        assert forall|n: int| 0 <= n < places.len() implies {
            &&& 0 <= #[trigger] places[n] < last
            &&& directives[places[n]] == before[places[n]]
        } by {}
        assert forall|d: int|
            0 <= d < directives.len() && directives[d].name@
                == name implies #[trigger] all.contains(d) by {
            if d < last {
                assert(before[d] == directives[d]);
                assert(places.contains(d));
                let n = choose|n: int| 0 <= n < places.len() && places[n] == d;
                assert(all[n] == d);
            } else {
                assert(all[all.len() - 1] == d);
            }
        }
        all
    }
}

/// The applications on the fields of a type in order: the one at `n` is that of the directive at
/// `places[n].1` on the field at `places[n].0`.
proof fn lemma_order_on_type(
    is_interface: bool,
    named_type: String,
    fields: Seq<(String, FieldDefinition)>,
    name: Seq<char>,
) -> (places: Seq<(int, int)>)
    ensures
        places.len() == type_applications(is_interface, named_type, fields, name).len(),
        forall|n: int|
            0 <= n < places.len() ==> {
                let (f, d) = #[trigger] places[n];
                &&& 0 <= f < fields.len()
                &&& 0 <= d < fields[f].1.directives@.len()
                &&& fields[f].1.directives@[d].name@ == name
                &&& type_applications(is_interface, named_type, fields, name)[n] == (
                    application_position(
                        field_position(is_interface, named_type, fields[f].0),
                        fields[f].1.directives@[d],
                        d,
                    ),
                    fields[f].1.directives@[d],
                )
            },
        forall|f: int, d: int|
            0 <= f < fields.len() && 0 <= d < fields[f].1.directives@.len()
                && fields[f].1.directives@[d].name@ == name ==> #[trigger] places.contains((f, d)),
        forall|n: int, m: int|
            #![trigger places[n], places[m]]
            0 <= n < m < places.len() ==> places[n].0 < places[m].0 || (places[n].0 == places[m].0
                && places[n].1 < places[m].1),
    decreases fields.len(),
{
    if fields.len() == 0 {
        Seq::empty()
    } else {
        let last = fields.len() - 1;
        let before = fields.drop_last();
        let position = field_position(is_interface, named_type, fields[last].0);
        let directives = fields[last].1.directives@;
        let first = lemma_order_on_type(is_interface, named_type, before, name);
        let ds = lemma_order_on_field(position, directives, name);
        let second = Seq::new(ds.len(), |n: int| (last, ds[n]));
        let places = first + second;
        let start = type_applications(is_interface, named_type, before, name);
        let all = type_applications(is_interface, named_type, fields, name);
        assert(fields.last() == fields[last]);
        assert(all == start + field_applications(position, directives, name));
        assert forall|n: int| 0 <= n < places.len() implies {
            let (f, d) = #[trigger] places[n];
            &&& 0 <= f < fields.len()
            &&& 0 <= d < fields[f].1.directives@.len()
            &&& fields[f].1.directives@[d].name@ == name
            &&& all[n] == (
                application_position(
                    field_position(is_interface, named_type, fields[f].0),
                    fields[f].1.directives@[d],
                    d,
                ),
                fields[f].1.directives@[d],
            )
        } by {
            if n < first.len() {
                assert(places[n] == first[n]);
                assert(before[first[n].0] == fields[first[n].0]);
                assert(all[n] == start[n]);
            } else {
                let m = n - first.len();
                assert(places[n] == second[m]);
                assert(0 <= ds[m] < directives.len());
                assert(all[n] == field_applications(position, directives, name)[m]);
            }
        }
        assert forall|f: int, d: int|
            0 <= f < fields.len() && 0 <= d < fields[f].1.directives@.len()
                && fields[f].1.directives@[d].name@
                == name implies #[trigger] places.contains((f, d)) by {
            if f < last {
                assert(before[f] == fields[f]);
                assert(first.contains((f, d)));
                let n = choose|n: int| 0 <= n < first.len() && first[n] == (f, d);
                assert(places[n] == (f, d));
            } else {
                assert(ds.contains(d));
                let n = choose|n: int| 0 <= n < ds.len() && ds[n] == d;
                assert(second[n] == (f, d));
                assert(places[first.len() + n] == (f, d));
            }
        }
        assert forall|n: int, m: int|
            #![trigger places[n], places[m]]
            0 <= n < m < places.len() implies places[n].0 < places[m].0 || (places[n].0
            == places[m].0 && places[n].1 < places[m].1) by {
            if m < first.len() {
                assert(places[n] == first[n] && places[m] == first[m]);
            } else if n < first.len() {
                assert(places[n] == first[n] && places[m] == second[m - first.len()]);
            } else {
                assert(places[n] == second[n - first.len()]);
                assert(places[m] == second[m - first.len()]);
                assert(ds[n - first.len()] < ds[m - first.len()]);
            }
        }
        places
    }
}

/// The applications on the fields of types in order: the one at `n` is that of the directive at
/// `places[n].2` on the field at `places[n].1` of the type at `places[n].0`.
proof fn lemma_order_on_types(types: Seq<(String, ExtendedType)>, name: Seq<char>) -> (places: Seq<
    (int, int, int),
>)
    ensures
        places.len() == connect_applications(types, name).len(),
        forall|n: int|
            0 <= n < places.len() ==> {
                let (t, f, d) = #[trigger] places[n];
                let fields = fields_of(types[t].1);
                &&& 0 <= t < types.len()
                &&& 0 <= f < fields.len()
                &&& 0 <= d < fields[f].1.directives@.len()
                &&& fields[f].1.directives@[d].name@ == name
                &&& connect_applications(types, name)[n] == (
                    application_position(
                        field_position(is_interface(types[t].1), types[t].0, fields[f].0),
                        fields[f].1.directives@[d],
                        d,
                    ),
                    fields[f].1.directives@[d],
                )
            },
        forall|t: int, f: int, d: int|
            0 <= t < types.len() && 0 <= f < fields_of(types[t].1).len() && 0 <= d < fields_of(
                types[t].1,
            )[f].1.directives@.len() && fields_of(types[t].1)[f].1.directives@[d].name@ == name
                ==> #[trigger] places.contains((t, f, d)),
        forall|n: int, m: int|
            #![trigger places[n], places[m]]
            0 <= n < m < places.len() ==> {
                ||| places[n].0 < places[m].0
                ||| places[n].0 == places[m].0 && places[n].1 < places[m].1
                ||| places[n].0 == places[m].0 && places[n].1 == places[m].1 && places[n].2
                    < places[m].2
            },
    decreases types.len(),
{
    if types.len() == 0 {
        Seq::empty()
    } else {
        let last = types.len() - 1;
        let before = types.drop_last();
        let fields = fields_of(types[last].1);
        let interface = is_interface(types[last].1);
        let first = lemma_order_on_types(before, name);
        let fds = lemma_order_on_type(interface, types[last].0, fields, name);
        let second = Seq::new(fds.len(), |n: int| (last, fds[n].0, fds[n].1));
        let places = first + second;
        let start = connect_applications(before, name);
        let rest = type_applications(interface, types[last].0, fields, name);
        let all = connect_applications(types, name);
        assert(types.last() == types[last]);
        assert(all == start + rest);
        assert forall|n: int| 0 <= n < places.len() implies {
            let (t, f, d) = #[trigger] places[n];
            let fields = fields_of(types[t].1);
            &&& 0 <= t < types.len()
            &&& 0 <= f < fields.len()
            &&& 0 <= d < fields[f].1.directives@.len()
            &&& fields[f].1.directives@[d].name@ == name
            &&& all[n] == (
                application_position(
                    field_position(is_interface(types[t].1), types[t].0, fields[f].0),
                    fields[f].1.directives@[d],
                    d,
                ),
                fields[f].1.directives@[d],
            )
        } by {
            if n < first.len() {
                assert(places[n] == first[n]);
                assert(before[first[n].0] == types[first[n].0]);
                assert(all[n] == start[n]);
            } else {
                let m = n - first.len();
                assert(places[n] == second[m]);
                assert(0 <= fds[m].0 < fields.len());
                assert(all[n] == rest[m]);
            }
        }
        assert forall|t: int, f: int, d: int|
            0 <= t < types.len() && 0 <= f < fields_of(types[t].1).len() && 0 <= d < fields_of(
                types[t].1,
            )[f].1.directives@.len() && fields_of(types[t].1)[f].1.directives@[d].name@
                == name implies #[trigger] places.contains((t, f, d)) by {
            if t < last {
                assert(before[t] == types[t]);
                assert(first.contains((t, f, d)));
                let n = choose|n: int| 0 <= n < first.len() && first[n] == (t, f, d);
                assert(places[n] == (t, f, d));
            } else {
                assert(fds.contains((f, d)));
                let n = choose|n: int| 0 <= n < fds.len() && fds[n] == (f, d);
                assert(second[n] == (t, f, d));
                assert(places[first.len() + n] == (t, f, d));
            }
        }
        assert forall|n: int, m: int|
            #![trigger places[n], places[m]]
            0 <= n < m < places.len() implies {
            ||| places[n].0 < places[m].0
            ||| places[n].0 == places[m].0 && places[n].1 < places[m].1
            ||| places[n].0 == places[m].0 && places[n].1 == places[m].1 && places[n].2
                < places[m].2
        } by {
            if m < first.len() {
                assert(places[n] == first[n] && places[m] == first[m]);
            } else if n < first.len() {
                assert(places[n] == first[n] && places[m] == second[m - first.len()]);
            } else {
                let (i, j) = (n - first.len(), m - first.len());
                assert(places[n] == second[i] && places[m] == second[j]);
                assert(fds[i].0 < fds[j].0 || (fds[i].0 == fds[j].0 && fds[i].1 < fds[j].1));
            }
        }
        places
    }
}

/// The applications of a directive on the fields of the object and interface types, in the order in
/// which the schema has them: the one at `n` is that of the directive at `places[n].2` on the field at
/// `places[n].1` of the type at `places[n].0`, and its position names that type, that field and that
/// index. Every application of the name is there once, whatever else the types and fields have.
pub proof fn law_applications_in_schema_order(
    types: Seq<(String, ExtendedType)>,
    name: Seq<char>,
) -> (places: Seq<(int, int, int)>)
    ensures
        places.len() == connect_applications(types, name).len(),
        forall|n: int|
            0 <= n < places.len() ==> {
                let (t, f, d) = #[trigger] places[n];
                let application = connect_applications(types, name)[n];
                &&& 0 <= t < types.len()
                &&& match types[t].1 {
                    ExtendedType::Object(node) => {
                        &&& 0 <= f < node.fields@.len()
                        &&& 0 <= d < node.fields@[f].1.directives@.len()
                        &&& node.fields@[f].1.directives@[d].name@ == name
                        &&& application.1 == node.fields@[f].1.directives@[d]
                        &&& application.0.directive_name == node.fields@[f].1.directives@[d].name
                        &&& application.0.directive_index == d
                        &&& application.0.field == ObjectOrInterfaceFieldDefinitionPosition::Object(
                            ObjectFieldDefinitionPosition {
                                named_type: types[t].0,
                                field_name: node.fields@[f].0,
                            },
                        )
                    },
                    ExtendedType::Interface(node) => {
                        &&& 0 <= f < node.fields@.len()
                        &&& 0 <= d < node.fields@[f].1.directives@.len()
                        &&& node.fields@[f].1.directives@[d].name@ == name
                        &&& application.1 == node.fields@[f].1.directives@[d]
                        &&& application.0.directive_name == node.fields@[f].1.directives@[d].name
                        &&& application.0.directive_index == d
                        &&& application.0.field == ObjectOrInterfaceFieldDefinitionPosition::Interface(
                            InterfaceFieldDefinitionPosition {
                                named_type: types[t].0,
                                field_name: node.fields@[f].0,
                            },
                        )
                    },
                    _ => false,
                }
            },
        forall|t: int, f: int, d: int|
            0 <= t < types.len() && (match types[t].1 {
                ExtendedType::Object(node) => 0 <= f < node.fields@.len() && 0 <= d
                    < node.fields@[f].1.directives@.len()
                    && node.fields@[f].1.directives@[d].name@ == name,
                ExtendedType::Interface(node) => 0 <= f < node.fields@.len() && 0 <= d
                    < node.fields@[f].1.directives@.len()
                    && node.fields@[f].1.directives@[d].name@ == name,
                _ => false,
            }) ==> #[trigger] places.contains((t, f, d)),
        forall|n: int, m: int|
            #![trigger places[n], places[m]]
            0 <= n < m < places.len() ==> {
                ||| places[n].0 < places[m].0
                ||| places[n].0 == places[m].0 && places[n].1 < places[m].1
                ||| places[n].0 == places[m].0 && places[n].1 == places[m].1 && places[n].2
                    < places[m].2
            },
{
    let places = lemma_order_on_types(types, name);
    assert forall|n: int| 0 <= n < places.len() implies {
        let (t, f, d) = #[trigger] places[n];
        let application = connect_applications(types, name)[n];
        &&& 0 <= t < types.len()
        &&& match types[t].1 {
            ExtendedType::Object(node) => {
                &&& 0 <= f < node.fields@.len()
                &&& 0 <= d < node.fields@[f].1.directives@.len()
                &&& node.fields@[f].1.directives@[d].name@ == name
                &&& application.1 == node.fields@[f].1.directives@[d]
                &&& application.0.directive_name == node.fields@[f].1.directives@[d].name
                &&& application.0.directive_index == d
                &&& application.0.field == ObjectOrInterfaceFieldDefinitionPosition::Object(
                    ObjectFieldDefinitionPosition {
                        named_type: types[t].0,
                        field_name: node.fields@[f].0,
                    },
                )
            },
            ExtendedType::Interface(node) => {
                &&& 0 <= f < node.fields@.len()
                &&& 0 <= d < node.fields@[f].1.directives@.len()
                &&& node.fields@[f].1.directives@[d].name@ == name
                &&& application.1 == node.fields@[f].1.directives@[d]
                &&& application.0.directive_name == node.fields@[f].1.directives@[d].name
                &&& application.0.directive_index == d
                &&& application.0.field == ObjectOrInterfaceFieldDefinitionPosition::Interface(
                    InterfaceFieldDefinitionPosition {
                        named_type: types[t].0,
                        field_name: node.fields@[f].0,
                    },
                )
            },
            _ => false,
        }
    } by {
        let (t, f, d) = places[n];
        let directives = fields_of(types[t].1)[f].1.directives;
        assert(directives.len() == directives@.len());
    }
    places
}

/// The application at `d` on the field at `f` of the object or interface type at `t` is found, at its
/// position, whatever directives the type and the field have besides.
pub proof fn law_application_is_found(
    types: Seq<(String, ExtendedType)>,
    name: Seq<char>,
    t: int,
    node: FieldsType,
    f: int,
    d: int,
) -> (n: int)
    requires
        0 <= t < types.len(),
        types[t].1 == ExtendedType::Object(node) || types[t].1 == ExtendedType::Interface(node),
        0 <= f < node.fields@.len(),
        0 <= d < node.fields@[f].1.directives@.len(),
        node.fields@[f].1.directives@[d].name@ == name,
    ensures
        0 <= n < connect_applications(types, name).len(),
        ({
            let application = connect_applications(types, name)[n];
            &&& application.1 == node.fields@[f].1.directives@[d]
            &&& application.0.directive_name@ == name
            &&& application.0.directive_index == d
            &&& types[t].1 is Object ==> (
            application.0.field matches ObjectOrInterfaceFieldDefinitionPosition::Object(field)
                && field.named_type == types[t].0 && field.field_name == node.fields@[f].0)
            &&& types[t].1 is Interface ==> (
            application.0.field matches ObjectOrInterfaceFieldDefinitionPosition::Interface(field)
                && field.named_type == types[t].0 && field.field_name == node.fields@[f].0)
        }),
{
    let places = law_applications_in_schema_order(types, name);
    assert(places.contains((t, f, d)));
    let n = choose|n: int| 0 <= n < places.len() && places[n] == (t, f, d);
    assert(places[n] == (t, f, d));
    n
}

/// The connectors that are extracted, in the order in which the schema has them: the one at `n` is
/// what the directive at `places[n].2` on the field at `places[n].1` of the type at `places[n].0` is
/// read as, and its position names that type, that field and that index. Every application of the
/// name has its connector.
pub proof fn law_connectors_in_schema_order<
    S,
    P: Fn(&String) -> Result<S, String>,
    H: Fn(&Value) -> Vec<Result<Header, String>>,
>(
    parse: P,
    from_headers_arg: H,
    types: Seq<(String, ExtendedType)>,
    name: Seq<char>,
    extracted: Seq<ConnectDirectiveArguments<S>>,
) -> (places: Seq<(int, int, int)>)
    requires
        collects(
            connect_applications(types, name),
            ConnectDirectiveArguments::<S>::reads(parse, from_headers_arg),
            Ok::<Seq<ConnectDirectiveArguments<S>>, ErrorView>(extracted),
        ),
    ensures
        places.len() == extracted.len(),
        forall|n: int|
            0 <= n < places.len() ==> {
                let (t, f, d) = #[trigger] places[n];
                let position = extracted[n].position;
                &&& 0 <= t < types.len()
                &&& match types[t].1 {
                    ExtendedType::Object(node) => {
                        &&& 0 <= f < node.fields@.len()
                        &&& 0 <= d < node.fields@[f].1.directives@.len()
                        &&& node.fields@[f].1.directives@[d].name@ == name
                        &&& position.directive_name@ == name
                        &&& position.directive_index == d
                        &&& position.field == ObjectOrInterfaceFieldDefinitionPosition::Object(
                            ObjectFieldDefinitionPosition {
                                named_type: types[t].0,
                                field_name: node.fields@[f].0,
                            },
                        )
                        &&& ConnectDirectiveArguments::application_read(
                            parse,
                            from_headers_arg,
                            position,
                            node.fields@[f].1.directives@[d],
                            Ok(extracted[n]),
                        )
                    },
                    ExtendedType::Interface(node) => {
                        &&& 0 <= f < node.fields@.len()
                        &&& 0 <= d < node.fields@[f].1.directives@.len()
                        &&& node.fields@[f].1.directives@[d].name@ == name
                        &&& position.directive_name@ == name
                        &&& position.directive_index == d
                        &&& position.field == ObjectOrInterfaceFieldDefinitionPosition::Interface(
                            InterfaceFieldDefinitionPosition {
                                named_type: types[t].0,
                                field_name: node.fields@[f].0,
                            },
                        )
                        &&& ConnectDirectiveArguments::application_read(
                            parse,
                            from_headers_arg,
                            position,
                            node.fields@[f].1.directives@[d],
                            Ok(extracted[n]),
                        )
                    },
                    _ => false,
                }
            },
        forall|t: int, f: int, d: int|
            0 <= t < types.len() && (match types[t].1 {
                ExtendedType::Object(node) => 0 <= f < node.fields@.len() && 0 <= d
                    < node.fields@[f].1.directives@.len()
                    && node.fields@[f].1.directives@[d].name@ == name,
                ExtendedType::Interface(node) => 0 <= f < node.fields@.len() && 0 <= d
                    < node.fields@[f].1.directives@.len()
                    && node.fields@[f].1.directives@[d].name@ == name,
                _ => false,
            }) ==> #[trigger] places.contains((t, f, d)),
        forall|n: int, m: int|
            #![trigger places[n], places[m]]
            0 <= n < m < places.len() ==> {
                ||| places[n].0 < places[m].0
                ||| places[n].0 == places[m].0 && places[n].1 < places[m].1
                ||| places[n].0 == places[m].0 && places[n].1 == places[m].1 && places[n].2
                    < places[m].2
            },
{
    let applications = connect_applications(types, name);
    let gives = ConnectDirectiveArguments::<S>::reads(parse, from_headers_arg);
    let places = law_applications_in_schema_order(types, name);
    assert forall|n: int| 0 <= n < places.len() implies {
        &&& extracted[n].position == applications[n].0
        &&& ConnectDirectiveArguments::application_read(
            parse,
            from_headers_arg,
            applications[n].0,
            applications[n].1,
            Ok(extracted[n]),
        )
        &&& #[trigger] places[n] == places[n]
    } by {
        assert(gives(applications[n], Ok(extracted[n])));
        law_absent_connect_arguments(
            parse,
            from_headers_arg,
            applications[n].0,
            applications[n].1,
            extracted[n],
        );
    }
    places
}

/// Where connectors can't be extracted, an application of the name can't be read: the first of them,
/// at `first.0`, gives the error, and those before it are read as `first.1` says.
pub proof fn law_connector_fails<
    S,
    P: Fn(&String) -> Result<S, String>,
    H: Fn(&Value) -> Vec<Result<Header, String>>,
>(
    parse: P,
    from_headers_arg: H,
    types: Seq<(String, ExtendedType)>,
    name: Seq<char>,
    error: ErrorView,
) -> (first: (int, Seq<ConnectDirectiveArguments<S>>))
    requires
        collects(
            connect_applications(types, name),
            ConnectDirectiveArguments::<S>::reads(parse, from_headers_arg),
            Err::<Seq<ConnectDirectiveArguments<S>>, ErrorView>(error),
        ),
    ensures
        0 <= first.0 < connect_applications(types, name).len(),
        first.1.len() == first.0,
        ConnectDirectiveArguments::<S>::application_read(
            parse,
            from_headers_arg,
            connect_applications(types, name)[first.0].0,
            connect_applications(types, name)[first.0].1,
            Err(error),
        ),
        forall|i: int|
            0 <= i < first.0 ==> ConnectDirectiveArguments::<S>::application_read(
                parse,
                from_headers_arg,
                connect_applications(types, name)[i].0,
                connect_applications(types, name)[i].1,
                Ok(#[trigger] first.1[i]),
            ),
{
    let applications = connect_applications(types, name);
    let gives = ConnectDirectiveArguments::<S>::reads(parse, from_headers_arg);
    let first = lemma_first_failure_of(applications, gives, error);
    assert forall|i: int|
        0 <= i < first.0 implies ConnectDirectiveArguments::<S>::application_read(
        parse,
        from_headers_arg,
        applications[i].0,
        applications[i].1,
        Ok(#[trigger] first.1[i]),
    ) by {
        assert(gives(applications[i], Ok(first.1[i])));
    }
    first
}

/// The sources that are extracted, in the order in which the schema definition has them: the one at
/// `n` is what the directive at `places[n]` is read as. Every application of the name has its source.
pub proof fn law_sources_in_schema_order<H: Fn(&Value) -> Vec<Result<Header, String>>>(
    from_headers_arg: H,
    schema: Schema,
    name: Seq<char>,
    extracted: Seq<SourceDirectiveArguments>,
) -> (places: Seq<int>)
    requires
        collects(
            source_applications(schema, name),
            SourceDirectiveArguments::reads(from_headers_arg),
            Ok::<Seq<SourceDirectiveArguments>, ErrorView>(extracted),
        ),
    ensures
        places.len() == extracted.len(),
        forall|n: int|
            0 <= n < places.len() ==> {
                &&& 0 <= #[trigger] places[n] < schema.schema_definition.directives@.len()
                &&& schema.schema_definition.directives@[places[n]].directive.name@ == name
                &&& SourceDirectiveArguments::reads(from_headers_arg)(
                    schema.schema_definition.directives@[places[n]].directive,
                    Ok(extracted[n]),
                )
            },
        forall|i: int|
            0 <= i < schema.schema_definition.directives@.len()
                && schema.schema_definition.directives@[i].directive.name@ == name
                ==> #[trigger] places.contains(i),
        forall|n: int, m: int|
            #![trigger places[n], places[m]]
            0 <= n < m < places.len() ==> places[n] < places[m],
{
    let applications = source_applications(schema, name);
    let gives = SourceDirectiveArguments::reads(from_headers_arg);
    let places = law_applications_in_order(schema.schema_definition.directives@, name);
    assert forall|n: int| 0 <= n < places.len() implies gives(
        schema.schema_definition.directives@[#[trigger] places[n]].directive,
        Ok(extracted[n]),
    ) by {
        assert(gives(applications[n], Ok(extracted[n])));
    }
    places
}

/// Where sources can't be extracted, an application of the name can't be read: the first of them, the
/// directive at `first.0` of the schema definition, gives the error. The applications of the name
/// before it can be read.
pub proof fn law_source_fails<H: Fn(&Value) -> Vec<Result<Header, String>>>(
    from_headers_arg: H,
    schema: Schema,
    name: Seq<char>,
    error: ErrorView,
) -> (first: (int, Seq<SourceDirectiveArguments>))
    requires
        collects(
            source_applications(schema, name),
            SourceDirectiveArguments::reads(from_headers_arg),
            Err::<Seq<SourceDirectiveArguments>, ErrorView>(error),
        ),
    ensures
        0 <= first.0 < schema.schema_definition.directives@.len(),
        schema.schema_definition.directives@[first.0].directive.name@ == name,
        SourceDirectiveArguments::reads(from_headers_arg)(
            schema.schema_definition.directives@[first.0].directive,
            Err(error),
        ),
        first.1.len() == first.0,
        forall|i: int|
            0 <= i < first.0 && schema.schema_definition.directives@[i].directive.name@ == name
                ==> SourceDirectiveArguments::reads(from_headers_arg)(
                schema.schema_definition.directives@[i].directive,
                Ok(#[trigger] first.1[i]),
            ),
{
    let directives = schema.schema_definition.directives@;
    let applications = source_applications(schema, name);
    let gives = SourceDirectiveArguments::reads(from_headers_arg);
    let (k, read) = lemma_first_failure_of(applications, gives, error);
    let places = law_applications_in_order(directives, name);
    assert(0 <= places[k] < directives.len());
    assert(applications[k] == directives[places[k]].directive);
    let found: Seq<SourceDirectiveArguments> = Seq::new(
        places[k] as nat,
        |i: int| read[places.index_of(i)],
    );
    assert forall|i: int|
        0 <= i < places[k] && directives[i].directive.name@ == name implies gives(
        directives[i].directive,
        Ok(#[trigger] found[i]),
    ) by {
        assert(places.contains(i));
        let n = places.index_of(i);
        assert(0 <= n < places.len() && places[n] == i);
        if n >= k {
            assert(n == k || places[k] < places[n]);
        }
        assert(applications[n] == directives[places[n]].directive);
        assert(gives(applications[n], Ok(read[n])));
    }
    (places[k], found)
}

/// Taking a list of results by its view keeps success with its values, and failure with the view of
/// its error.
pub proof fn law_outcome_of_a_list<A>(result: Result<Vec<A>, FederationError>)
    ensures
        result matches Ok(values) ==> list_outcome(result) == Ok::<Seq<A>, ErrorView>(values@),
        result matches Err(error) ==> list_outcome(result) == Err::<Seq<A>, ErrorView>(error@),
{
}

/// References to applications are about the applications that they refer to, in order.
pub proof fn law_referred_applications(
    found: Seq<(ObjectOrInterfaceFieldDirectivePosition, &Directive)>,
    i: int,
)
    requires
        0 <= i < found.len(),
    ensures
        applications(found).len() == found.len(),
        applications(found)[i] == (found[i].0, *found[i].1),
{
}

} // verus!
