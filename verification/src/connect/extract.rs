//! Reading all connector directives of a schema.

use crate::ast::applications_of;
use crate::ast::fields_of;
use crate::ast::get_all;
use crate::ast::law_entry_is_found;
use crate::ast::lookup;
use crate::ast::Component;
use crate::ast::Directive;
use crate::ast::ExtendedType;
use crate::ast::FieldDefinition;
use crate::ast::FieldsType;
use crate::ast::Schema;
use crate::ast::Value;
use crate::collecting::collects;
use crate::collecting::lemma_first_failure;
use crate::connect::connector::ConnectDirectiveArguments;
use crate::connect::headers::Header;
use crate::connect::source::SourceDirectiveArguments;
use crate::error::ErrorView;
use crate::error::FederationError;
use crate::position::InterfaceFieldDefinitionPosition;
use crate::position::ObjectFieldDefinitionPosition;
use crate::position::ObjectOrInterfaceFieldDefinitionPosition;
use crate::position::ObjectOrInterfaceFieldDirectivePosition;
use vstd::prelude::*;

verus! {

/// A list of results whose error is taken by its view.
pub open spec fn list_outcome<A>(result: Result<Vec<A>, FederationError>) -> Result<
    Seq<A>,
    ErrorView,
> {
    match result {
        Ok(values) => Ok(values@),
        Err(error) => Err(error@),
    }
}

/// The applications of the directive `name` on the schema definition, in order.
pub open spec fn source_applications(schema: Schema, name: Seq<char>) -> Seq<Directive> {
    applications_of(schema.schema_definition.directives@, name).map_values(
        |component: Component| component.directive,
    )
}

/// Reads the arguments of all applications of the directive `name` on the schema definition.
pub fn extract_source_directive_arguments<H: Fn(&Value) -> Vec<Result<Header, String>>>(
    schema: &Schema,
    name: &String,
    from_headers_arg: &H,
) -> (extracted: Result<Vec<SourceDirectiveArguments>, FederationError>)
    requires
        forall|value: &Value| call_requires(*from_headers_arg, (value,)),
    ensures
        collects(
            source_applications(*schema, name@),
            SourceDirectiveArguments::reads(*from_headers_arg),
            list_outcome(extracted),
        ),
{
    let ghost gives = SourceDirectiveArguments::reads(*from_headers_arg);
    let ghost all = source_applications(*schema, name@);
    let applications = get_all(&schema.schema_definition.directives, name);
    let mut extracted: Vec<SourceDirectiveArguments> = Vec::new();
    let mut i: usize = 0;
    while i < applications.len()
        invariant
            i <= applications.len(),
            extracted.len() == i,
            all == source_applications(*schema, name@),
            all.len() == applications.len(),
            forall|j: int|
                0 <= j < all.len() ==> #[trigger] all[j] == applications@[j].directive,
            gives == SourceDirectiveArguments::reads(*from_headers_arg),
            forall|value: &Value| call_requires(*from_headers_arg, (value,)),
            forall|j: int| 0 <= j < i ==> gives(#[trigger] all[j], Ok(extracted@[j])),
        decreases applications.len() - i,
    {
        assert(all[i as int] == applications@[i as int].directive);
        match SourceDirectiveArguments::try_from(&applications[i].directive, from_headers_arg) {
            Ok(arguments) => {
                extracted.push(arguments);
            },
            Err(error) => {
                proof {
                    lemma_first_failure(all, gives, extracted@, error@);
                }
                return Err(error);
            },
        }
        i += 1;
    }
    Ok(extracted)
}

/// The field `field_name` of an interface type, or of an object type.
pub open spec fn field_position(
    is_interface: bool,
    named_type: String,
    field_name: String,
) -> ObjectOrInterfaceFieldDefinitionPosition {
    if is_interface {
        ObjectOrInterfaceFieldDefinitionPosition::Interface(
            InterfaceFieldDefinitionPosition { named_type, field_name },
        )
    } else {
        ObjectOrInterfaceFieldDefinitionPosition::Object(
            ObjectFieldDefinitionPosition { named_type, field_name },
        )
    }
}

/// The position of the application `directive`, the one at `index` on the field.
pub open spec fn application_position(
    field: ObjectOrInterfaceFieldDefinitionPosition,
    directive: Directive,
    index: int,
) -> ObjectOrInterfaceFieldDirectivePosition {
    ObjectOrInterfaceFieldDirectivePosition {
        field,
        directive_name: directive.name,
        directive_index: index as usize,
    }
}

/// The applications of the directive `name` on a field, in order, with their positions.
pub open spec fn field_applications(
    field: ObjectOrInterfaceFieldDefinitionPosition,
    directives: Seq<Directive>,
    name: Seq<char>,
) -> Seq<(ObjectOrInterfaceFieldDirectivePosition, Directive)>
    decreases directives.len(),
{
    if directives.len() == 0 {
        Seq::empty()
    } else {
        let before = field_applications(field, directives.drop_last(), name);
        if directives.last().name@ == name {
            before.push(
                (
                    application_position(field, directives.last(), directives.len() - 1),
                    directives.last(),
                ),
            )
        } else {
            before
        }
    }
}

/// The applications of the directive `name` on the fields of a type, in order, with their
/// positions.
pub open spec fn type_applications(
    is_interface: bool,
    named_type: String,
    fields: Seq<(String, FieldDefinition)>,
    name: Seq<char>,
) -> Seq<(ObjectOrInterfaceFieldDirectivePosition, Directive)>
    decreases fields.len(),
{
    if fields.len() == 0 {
        Seq::empty()
    } else {
        type_applications(is_interface, named_type, fields.drop_last(), name) + field_applications(
            field_position(is_interface, named_type, fields.last().0),
            fields.last().1.directives@,
            name,
        )
    }
}

/// Whether a named type is an interface type.
pub open spec fn is_interface(ty: ExtendedType) -> bool {
    ty is Interface
}

/// The applications of the directive `name` on the fields of the object and interface types, in
/// order, with their positions.
pub open spec fn connect_applications(
    types: Seq<(String, ExtendedType)>,
    name: Seq<char>,
) -> Seq<(ObjectOrInterfaceFieldDirectivePosition, Directive)>
    decreases types.len(),
{
    if types.len() == 0 {
        Seq::empty()
    } else {
        connect_applications(types.drop_last(), name) + type_applications(
            is_interface(types.last().1),
            types.last().0,
            fields_of(types.last().1),
            name,
        )
    }
}

/// The applications that a list of references is about.
pub open spec fn applications(
    found: Seq<(ObjectOrInterfaceFieldDirectivePosition, &Directive)>,
) -> Seq<(ObjectOrInterfaceFieldDirectivePosition, Directive)> {
    found.map_values(
        |application: (ObjectOrInterfaceFieldDirectivePosition, &Directive)|
            (application.0, *application.1),
    )
}

/// The field `field_name` of an interface type, or of an object type.
fn make_field_position(is_interface: bool, named_type: &String, field_name: &String) -> (position:
    ObjectOrInterfaceFieldDefinitionPosition)
    ensures
        position == field_position(is_interface, *named_type, *field_name),
{
    if is_interface {
        ObjectOrInterfaceFieldDefinitionPosition::Interface(
            InterfaceFieldDefinitionPosition {
                named_type: named_type.clone(),
                field_name: field_name.clone(),
            },
        )
    } else {
        ObjectOrInterfaceFieldDefinitionPosition::Object(
            ObjectFieldDefinitionPosition {
                named_type: named_type.clone(),
                field_name: field_name.clone(),
            },
        )
    }
}

/// Adds the applications of the directive `name` on a field.
fn find_on_field<'a>(
    is_interface: bool,
    named_type: &String,
    field: &'a (String, FieldDefinition),
    name: &String,
    found: &mut Vec<(ObjectOrInterfaceFieldDirectivePosition, &'a Directive)>,
)
    ensures
        applications(final(found)@) == applications(old(found)@) + field_applications(
            field_position(is_interface, *named_type, field.0),
            field.1.directives@,
            name@,
        ),
{
    let directives = &field.1.directives;
    let ghost before = applications(found@);
    let ghost position = field_position(is_interface, *named_type, field.0);
    let mut i: usize = 0;
    proof {
        assert(directives@.take(0) =~= Seq::<Directive>::empty());
        assert(before + field_applications(position, directives@.take(0), name@) =~= before);
    }
    while i < directives.len()
        invariant
            i <= directives.len(),
            directives == field.1.directives,
            position == field_position(is_interface, *named_type, field.0),
            applications(found@) == before + field_applications(
                position,
                directives@.take(i as int),
                name@,
            ),
        decreases directives.len() - i,
    {
        let ghost so_far = found@;
        proof {
            assert(directives@.take(i + 1).drop_last() =~= directives@.take(i as int));
            assert(directives@.take(i + 1).last() == directives@[i as int]);
        }
        if directives[i].name == *name {
            found.push(
                (
                    ObjectOrInterfaceFieldDirectivePosition {
                        field: make_field_position(is_interface, named_type, &field.0),
                        directive_name: directives[i].name.clone(),
                        directive_index: i,
                    },
                    &directives[i],
                ),
            );
            proof {
                assert(applications(found@) =~= applications(so_far).push(
                    (application_position(position, directives@[i as int], i as int),
                        directives@[i as int]),
                ));
                assert(applications(found@) =~= before + field_applications(
                    position,
                    directives@.take(i + 1),
                    name@,
                ));
            }
        }
        i += 1;
    }
    assert(directives@.take(i as int) =~= directives@);
}

/// Adds the applications of the directive `name` on the fields of a type.
fn find_on_type<'a>(
    is_interface: bool,
    named_type: &String,
    node: &'a FieldsType,
    name: &String,
    found: &mut Vec<(ObjectOrInterfaceFieldDirectivePosition, &'a Directive)>,
)
    ensures
        applications(final(found)@) == applications(old(found)@) + type_applications(
            is_interface,
            *named_type,
            node.fields@,
            name@,
        ),
{
    let fields = &node.fields;
    let ghost before = applications(found@);
    let mut i: usize = 0;
    proof {
        assert(fields@.take(0) =~= Seq::<(String, FieldDefinition)>::empty());
        assert(before + type_applications(is_interface, *named_type, fields@.take(0), name@)
            =~= before);
    }
    while i < fields.len()
        invariant
            i <= fields.len(),
            fields == node.fields,
            applications(found@) == before + type_applications(
                is_interface,
                *named_type,
                fields@.take(i as int),
                name@,
            ),
        decreases fields.len() - i,
    {
        proof {
            assert(fields@.take(i + 1).drop_last() =~= fields@.take(i as int));
            assert(fields@.take(i + 1).last() == fields@[i as int]);
        }
        find_on_field(is_interface, named_type, &fields[i], name, found);
        proof {
            assert(applications(found@) =~= before + type_applications(
                is_interface,
                *named_type,
                fields@.take(i + 1),
                name@,
            ));
        }
        i += 1;
    }
    assert(fields@.take(i as int) =~= fields@);
}

/// Finds the applications of the directive `name` on the fields of the object and interface
/// types, in order.
pub fn find_connect_applications<'a>(schema: &'a Schema, name: &String) -> (found: Vec<
    (ObjectOrInterfaceFieldDirectivePosition, &'a Directive),
>)
    ensures
        applications(found@) == connect_applications(schema.types@, name@),
{
    let types = &schema.types;
    let mut found: Vec<(ObjectOrInterfaceFieldDirectivePosition, &'a Directive)> = Vec::new();
    let mut i: usize = 0;
    proof {
        assert(types@.take(0) =~= Seq::<(String, ExtendedType)>::empty());
        assert(applications(found@) =~= connect_applications(types@.take(0), name@));
    }
    while i < types.len()
        invariant
            i <= types.len(),
            types == schema.types,
            applications(found@) == connect_applications(types@.take(i as int), name@),
        decreases types.len() - i,
    {
        let ghost before = applications(found@);
        proof {
            assert(types@.take(i + 1).drop_last() =~= types@.take(i as int));
            assert(types@.take(i + 1).last() == types@[i as int]);
        }
        match &types[i].1 {
            ExtendedType::Object(node) => {
                find_on_type(false, &types[i].0, node, name, &mut found);
            },
            ExtendedType::Interface(node) => {
                find_on_type(true, &types[i].0, node, name, &mut found);
            },
            _ => {},
        }
        proof {
            assert(applications(found@) =~= connect_applications(types@.take(i + 1), name@));
        }
        i += 1;
    }
    assert(types@.take(i as int) =~= types@);
    found
}

/// Reads the arguments of all applications of the directive `name` on the fields of the object
/// and interface types.
pub fn extract_connect_directive_arguments<
    S,
    P: Fn(&String) -> Result<S, String>,
    H: Fn(&Value) -> Vec<Result<Header, String>>,
>(schema: &Schema, name: &String, parse: &P, from_headers_arg: &H) -> (extracted: Result<
    Vec<ConnectDirectiveArguments<S>>,
    FederationError,
>)
    requires
        forall|text: &String| call_requires(*parse, (text,)),
        forall|value: &Value| call_requires(*from_headers_arg, (value,)),
    ensures
        collects(
            connect_applications(schema.types@, name@),
            ConnectDirectiveArguments::<S>::reads(*parse, *from_headers_arg),
            list_outcome(extracted),
        ),
{
    let ghost gives = ConnectDirectiveArguments::<S>::reads(*parse, *from_headers_arg);
    let ghost all = connect_applications(schema.types@, name@);
    let mut extracted: Vec<ConnectDirectiveArguments<S>> = Vec::new();
    let found = find_connect_applications(schema, name);
    for application in iter: found.into_iter()
        invariant
            iter.seq() == found@,
            all == connect_applications(schema.types@, name@),
            all == applications(found@),
            extracted.len() == iter.index(),
            gives == ConnectDirectiveArguments::<S>::reads(*parse, *from_headers_arg),
            forall|text: &String| call_requires(*parse, (text,)),
            forall|value: &Value| call_requires(*from_headers_arg, (value,)),
            forall|j: int|
                0 <= j < iter.index() ==> gives(#[trigger] all[j], Ok(extracted@[j])),
    {
        assert(all[iter.index() as int] == (application.0, *application.1));
        match ConnectDirectiveArguments::from_position_and_directive(
            application.0,
            application.1,
            parse,
            from_headers_arg,
        ) {
            Ok(arguments) => {
                extracted.push(arguments);
            },
            Err(error) => {
                proof {
                    lemma_first_failure(all, gives, extracted@, error@);
                }
                return Err(error);
            },
        }
    }
    Ok(extracted)
}

/// The directive application at a position of the schema.
pub open spec fn directive_at(
    schema: Schema,
    position: ObjectOrInterfaceFieldDirectivePosition,
) -> Option<Directive> {
    let (node, field_name) = match position.field {
        ObjectOrInterfaceFieldDefinitionPosition::Object(field) => (
            schema.object_type(field.named_type@),
            field.field_name,
        ),
        ObjectOrInterfaceFieldDefinitionPosition::Interface(field) => (
            schema.interface_type(field.named_type@),
            field.field_name,
        ),
    };
    match node {
        Ok(node) => match lookup(node.fields@, field_name@) {
            Some(definition) => if position.directive_index < definition.directives@.len() {
                Some(definition.directives@[position.directive_index as int])
            } else {
                None
            },
            None => None,
        },
        Err(_) => None,
    }
}

/// The application at `d` on the field at `f` of the type at `t`, with its position.
pub open spec fn application_at(
    types: Seq<(String, ExtendedType)>,
    t: int,
    f: int,
    d: int,
) -> (ObjectOrInterfaceFieldDirectivePosition, Directive) {
    let field = fields_of(types[t].1)[f];
    let directive = field.1.directives@[d];
    (
        application_position(
            field_position(is_interface(types[t].1), types[t].0, field.0),
            directive,
            d,
        ),
        directive,
    )
}

/// Whether there is an application of the directive `name` at `d` on the field at `f` of the type
/// at `t`.
pub open spec fn applied_at(
    types: Seq<(String, ExtendedType)>,
    name: Seq<char>,
    t: int,
    f: int,
    d: int,
) -> bool {
    &&& 0 <= t < types.len()
    &&& 0 <= f < fields_of(types[t].1).len()
    &&& 0 <= d < fields_of(types[t].1)[f].1.directives@.len()
    &&& fields_of(types[t].1)[f].1.directives@[d].name@ == name
}

/// The applications on a field are those of its directives that have the name.
proof fn lemma_field_applications(
    field: ObjectOrInterfaceFieldDefinitionPosition,
    directives: Seq<Directive>,
    name: Seq<char>,
    application: (ObjectOrInterfaceFieldDirectivePosition, Directive),
)
    ensures
        field_applications(field, directives, name).contains(application) <==> exists|d: int|
            0 <= d < directives.len() && (#[trigger] directives[d]).name@ == name && application
                == (application_position(field, directives[d], d), directives[d]),
    decreases directives.len(),
{
    if directives.len() > 0 {
        let before = directives.drop_last();
        let last = directives.len() - 1;
        let found = field_applications(field, before, name);
        let all = field_applications(field, directives, name);
        lemma_field_applications(field, before, name, application);
        if found.contains(application) {
            let k = choose|k: int| 0 <= k < found.len() && found[k] == application;
            assert(all[k] == application);
            let d = choose|d: int|
                0 <= d < before.len() && (#[trigger] before[d]).name@ == name && application == (
                    application_position(field, before[d], d),
                    before[d],
                );
            assert(directives[d] == before[d]);
        }
        if all.contains(application) && !found.contains(application) {
            let k = choose|k: int| 0 <= k < all.len() && all[k] == application;
            if k < found.len() {
                assert(found[k] == application);
            }
            assert(directives[last].name@ == name);
        }
        if exists|d: int|
            0 <= d < directives.len() && (#[trigger] directives[d]).name@ == name && application
                == (application_position(field, directives[d], d), directives[d]) {
            let d = choose|d: int|
                0 <= d < directives.len() && (#[trigger] directives[d]).name@ == name && application
                    == (application_position(field, directives[d], d), directives[d]);
            if d < last {
                assert(before[d] == directives[d]);
                assert(found.contains(application));
            } else {
                assert(all[all.len() - 1] == application);
            }
        }
    }
}

/// A sequence of two parts has the members of both.
proof fn lemma_two_parts<A>(first: Seq<A>, second: Seq<A>, member: A)
    ensures
        (first + second).contains(member) <==> first.contains(member) || second.contains(member),
{
    let all = first + second;
    if first.contains(member) {
        let k = choose|k: int| 0 <= k < first.len() && first[k] == member;
        assert(all[k] == member);
    }
    if second.contains(member) {
        let k = choose|k: int| 0 <= k < second.len() && second[k] == member;
        assert(all[first.len() + k] == member);
    }
    if all.contains(member) {
        let k = choose|k: int| 0 <= k < all.len() && all[k] == member;
        if k < first.len() {
            assert(first[k] == member);
        } else {
            assert(second[k - first.len()] == member);
        }
    }
}

/// Whether `application` is one of the applications of `name` on the field at `f`.
spec fn on_field(
    is_interface: bool,
    named_type: String,
    fields: Seq<(String, FieldDefinition)>,
    name: Seq<char>,
    application: (ObjectOrInterfaceFieldDirectivePosition, Directive),
    f: int,
) -> bool {
    field_applications(
        field_position(is_interface, named_type, fields[f].0),
        fields[f].1.directives@,
        name,
    ).contains(application)
}

/// The applications on a type are those on its fields.
proof fn lemma_type_applications(
    is_interface: bool,
    named_type: String,
    fields: Seq<(String, FieldDefinition)>,
    name: Seq<char>,
    application: (ObjectOrInterfaceFieldDirectivePosition, Directive),
)
    ensures
        type_applications(is_interface, named_type, fields, name).contains(application)
            <==> exists|f: int|
            0 <= f < fields.len() && on_field(
                is_interface,
                named_type,
                fields,
                name,
                application,
                f,
            ),
    decreases fields.len(),
{
    if fields.len() > 0 {
        let before = fields.drop_last();
        let last = fields.len() - 1;
        lemma_type_applications(is_interface, named_type, before, name, application);
        lemma_two_parts(
            type_applications(is_interface, named_type, before, name),
            field_applications(
                field_position(is_interface, named_type, fields.last().0),
                fields.last().1.directives@,
                name,
            ),
            application,
        );
        assert forall|f: int| 0 <= f < last implies on_field(
            is_interface,
            named_type,
            before,
            name,
            application,
            f,
        ) == on_field(is_interface, named_type, fields, name, application, f) by {
            assert(before[f] == fields[f]);
        }
        assert(on_field(is_interface, named_type, fields, name, application, last)
            == field_applications(
            field_position(is_interface, named_type, fields.last().0),
            fields.last().1.directives@,
            name,
        ).contains(application));
    }
}

/// Whether `application` is one of the applications of `name` on the type at `t`.
spec fn on_type(
    types: Seq<(String, ExtendedType)>,
    name: Seq<char>,
    application: (ObjectOrInterfaceFieldDirectivePosition, Directive),
    t: int,
) -> bool {
    type_applications(
        is_interface(types[t].1),
        types[t].0,
        fields_of(types[t].1),
        name,
    ).contains(application)
}

/// The applications in a schema are those on its types.
proof fn lemma_connect_applications(
    types: Seq<(String, ExtendedType)>,
    name: Seq<char>,
    application: (ObjectOrInterfaceFieldDirectivePosition, Directive),
)
    ensures
        connect_applications(types, name).contains(application) <==> exists|t: int|
            0 <= t < types.len() && on_type(types, name, application, t),
    decreases types.len(),
{
    if types.len() > 0 {
        let before = types.drop_last();
        let last = types.len() - 1;
        lemma_connect_applications(before, name, application);
        lemma_two_parts(
            connect_applications(before, name),
            type_applications(
                is_interface(types.last().1),
                types.last().0,
                fields_of(types.last().1),
                name,
            ),
            application,
        );
        assert forall|t: int| 0 <= t < last implies on_type(before, name, application, t)
            == on_type(types, name, application, t) by {
            assert(before[t] == types[t]);
        }
        assert(on_type(types, name, application, last) == type_applications(
            is_interface(types.last().1),
            types.last().0,
            fields_of(types.last().1),
            name,
        ).contains(application));
    }
}

/// All applications of the directive on fields of object and interface types are found, and
/// nothing else.
pub proof fn law_all_applications_are_found(
    types: Seq<(String, ExtendedType)>,
    name: Seq<char>,
    application: (ObjectOrInterfaceFieldDirectivePosition, Directive),
)
    ensures
        connect_applications(types, name).contains(application) <==> exists|t: int, f: int, d: int|
            #[trigger] applied_at(types, name, t, f, d) && application == application_at(
                types,
                t,
                f,
                d,
            ),
{
    lemma_connect_applications(types, name, application);
    if connect_applications(types, name).contains(application) {
        let t = choose|t: int| 0 <= t < types.len() && on_type(types, name, application, t);
        let fields = fields_of(types[t].1);
        lemma_type_applications(
            is_interface(types[t].1),
            types[t].0,
            fields,
            name,
            application,
        );
        let f = choose|f: int|
            0 <= f < fields.len() && on_field(
                is_interface(types[t].1),
                types[t].0,
                fields,
                name,
                application,
                f,
            );
        let field = field_position(is_interface(types[t].1), types[t].0, fields[f].0);
        let directives = fields[f].1.directives@;
        lemma_field_applications(field, directives, name, application);
        let d = choose|d: int|
            0 <= d < directives.len() && (#[trigger] directives[d]).name@ == name && application
                == (application_position(field, directives[d], d), directives[d]);
        assert(applied_at(types, name, t, f, d));
    }
    if exists|t: int, f: int, d: int|
        #[trigger] applied_at(types, name, t, f, d) && application == application_at(
            types,
            t,
            f,
            d,
        ) {
        let (t, f, d) = choose|t: int, f: int, d: int|
            #[trigger] applied_at(types, name, t, f, d) && application == application_at(
                types,
                t,
                f,
                d,
            );
        let fields = fields_of(types[t].1);
        let field = field_position(is_interface(types[t].1), types[t].0, fields[f].0);
        let directives = fields[f].1.directives@;
        lemma_field_applications(field, directives, name, application);
        assert(directives[d].name@ == name);
        lemma_type_applications(
            is_interface(types[t].1),
            types[t].0,
            fields,
            name,
            application,
        );
        assert(on_field(
            is_interface(types[t].1),
            types[t].0,
            fields,
            name,
            application,
            f,
        ));
        assert(on_type(types, name, application, t));
    }
}

/// The position with which an application is found leads back to it, and has the name of its
/// directive.
pub proof fn law_position_leads_to_application(
    schema: Schema,
    name: Seq<char>,
    application: (ObjectOrInterfaceFieldDirectivePosition, Directive),
)
    requires
        schema.well_formed(),
        connect_applications(schema.types@, name).contains(application),
    ensures
        directive_at(schema, application.0) == Some(application.1),
        application.0.directive_name@ == name,
        application.1.name@ == name,
{
    let types = schema.types@;
    law_all_applications_are_found(types, name, application);
    let (t, f, d) = choose|t: int, f: int, d: int|
        #[trigger] applied_at(types, name, t, f, d) && application == application_at(
            types,
            t,
            f,
            d,
        );
    let fields = fields_of(types[t].1);
    law_entry_is_found(types, t);
    law_entry_is_found(fields, f);
    assert(fields[f].1.directives.len() == fields[f].1.directives@.len());
}

/// What is extracted is at the positions of the applications, one for each, in order.
pub proof fn law_extracted_at_the_applications<
    S,
    P: Fn(&String) -> Result<S, String>,
    H: Fn(&Value) -> Vec<Result<Header, String>>,
>(
    parse: P,
    from_headers_arg: H,
    schema: Schema,
    name: Seq<char>,
    extracted: Seq<ConnectDirectiveArguments<S>>,
)
    requires
        collects(
            connect_applications(schema.types@, name),
            ConnectDirectiveArguments::<S>::reads(parse, from_headers_arg),
            Ok::<Seq<ConnectDirectiveArguments<S>>, ErrorView>(extracted),
        ),
    ensures
        extracted.len() == connect_applications(schema.types@, name).len(),
        forall|i: int|
            0 <= i < extracted.len() ==> (#[trigger] extracted[i]).position
                == connect_applications(schema.types@, name)[i].0,
{
    let applications = connect_applications(schema.types@, name);
    let gives = ConnectDirectiveArguments::<S>::reads(parse, from_headers_arg);
    assert forall|i: int| 0 <= i < extracted.len() implies (#[trigger] extracted[i]).position
        == applications[i].0 by {
        assert(gives(applications[i], Ok(extracted[i])));
    }
}

/// The applications of a directive are those of its name, and nothing else.
proof fn lemma_applications_of(directives: Seq<Component>, name: Seq<char>, component: Component)
    ensures
        applications_of(directives, name).contains(component) <==> directives.contains(component)
            && component.directive.name@ == name,
    decreases directives.len(),
{
    reveal(Seq::filter);
    if directives.len() > 0 {
        let before = directives.drop_last();
        let last = directives.last();
        lemma_applications_of(before, name, component);
        lemma_two_parts(before, seq![last], component);
        assert(before + seq![last] =~= directives);
        assert(seq![last].contains(component) <==> component == last) by {
            assert(seq![last][0] == last);
        }
        if last.directive.name@ == name {
            lemma_two_parts(applications_of(before, name), seq![last], component);
            assert(applications_of(before, name) + seq![last] =~= applications_of(
                directives,
                name,
            ));
        }
    }
}

/// All applications of the directive on the schema definition are found, and nothing else.
pub proof fn law_all_sources_are_found(schema: Schema, name: Seq<char>, directive: Directive)
    ensures
        source_applications(schema, name).contains(directive) <==> directive.name@ == name
            && exists|i: int|
            0 <= i < schema.schema_definition.directives@.len() && (
            #[trigger] schema.schema_definition.directives@[i]).directive == directive,
{
    let directives = schema.schema_definition.directives@;
    let components = applications_of(directives, name);
    let found = source_applications(schema, name);
    if found.contains(directive) {
        let k = choose|k: int| 0 <= k < found.len() && found[k] == directive;
        lemma_applications_of(directives, name, components[k]);
        let i = choose|i: int| 0 <= i < directives.len() && directives[i] == components[k];
        assert(directives[i].directive == directive);
    }
    if directive.name@ == name && exists|i: int|
        0 <= i < directives.len() && (#[trigger] directives[i]).directive == directive {
        let i = choose|i: int|
            0 <= i < directives.len() && (#[trigger] directives[i]).directive == directive;
        lemma_applications_of(directives, name, directives[i]);
        let k = choose|k: int| 0 <= k < components.len() && components[k] == directives[i];
        assert(found[k] == directive);
    }
}

/// What is extracted are the arguments of the applications, one for each, in order.
pub proof fn law_extracted_sources<H: Fn(&Value) -> Vec<Result<Header, String>>>(
    from_headers_arg: H,
    schema: Schema,
    name: Seq<char>,
    extracted: Seq<SourceDirectiveArguments>,
)
    requires
        collects(
            source_applications(schema, name),
            SourceDirectiveArguments::reads(from_headers_arg),
            Ok::<Seq<SourceDirectiveArguments>, ErrorView>(extracted),
        ),
    ensures
        extracted.len() == applications_of(schema.schema_definition.directives@, name).len(),
        forall|i: int|
            0 <= i < extracted.len() ==> SourceDirectiveArguments::reads(from_headers_arg)(
                applications_of(schema.schema_definition.directives@, name)[i].directive,
                Ok(#[trigger] extracted[i]),
            ),
{
    let applications = source_applications(schema, name);
    let gives = SourceDirectiveArguments::reads(from_headers_arg);
    assert forall|i: int| 0 <= i < extracted.len() implies gives(
        applications_of(schema.schema_definition.directives@, name)[i].directive,
        Ok(#[trigger] extracted[i]),
    ) by {
        assert(gives(applications[i], Ok(extracted[i])));
    }
}

} // verus!
