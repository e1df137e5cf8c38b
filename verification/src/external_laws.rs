//! What follows about external fields from the directives of a schema.

use crate::ast::law_named_entry_is_found;
use crate::ast::lookup;
use crate::ast::Component;
use crate::ast::Directive;
use crate::ast::FieldDefinition;
use crate::ast::Schema;
use crate::collecting::agree;
use crate::collecting::collects;
use crate::collecting::determined;
use crate::collecting::fails;
use crate::collecting::fails_at;
use crate::collecting::law_collecting_is_determined;
use crate::collecting::lemma_same_outcomes;
use crate::collecting::same;
use crate::collections::law_filled_set;
use crate::error::outcome;
use crate::error::ErrorView;
use crate::error::FederationError;
use crate::external::extension_keys;
use crate::external::external_fields;
use crate::external::external_metadata;
use crate::external::external_referencers;
use crate::external::fake_externals;
use crate::external::fed2;
use crate::external::field_set_targets;
use crate::external::fields_on_external_types;
use crate::external::filled;
use crate::external::filled_with_marked;
use crate::external::gives_fields;
use crate::external::gives_key_targets;
use crate::external::gives_type_targets;
use crate::external::joined_outcome;
use crate::external::key_targets;
use crate::external::keys_target;
use crate::external::law_fake_externals_are_in_keys;
use crate::external::law_fields_on_external_types;
use crate::external::law_key_fields_are_fake_externals;
use crate::external::law_what_is_external;
use crate::external::marked;
use crate::external::object_fields;
use crate::external::on_type;
use crate::external::position_keys;
use crate::external::types_with;
use crate::external::ExternalMetadataView;
use crate::federation::fields_with;
use crate::federation::texts;
use crate::federation::FederationSchema;
use crate::federation::FederationSpecDefinition;
use crate::federation::KeyDirectiveArguments;
use crate::position::FieldDefinitionPosition;
use crate::position::FieldKey;
use crate::position::ObjectOrInterfaceTypeDefinitionPosition;
use crate::position::INTERFACE_FIELD;
use crate::position::OBJECT_FIELD;
use vstd::prelude::*;

verus! {

/// The fields of an object type are those that are defined in it.
proof fn lemma_object_fields(
    named_type: Seq<char>,
    fields: Seq<(String, FieldDefinition)>,
    key: FieldKey,
)
    ensures
        object_fields(named_type, fields).contains(key) <==> {
            &&& key.0 == OBJECT_FIELD
            &&& key.1 == named_type
            &&& lookup(fields, key.2) is Some
        },
{
    let keys = object_fields(named_type, fields);
    law_named_entry_is_found(fields, key.2);
    if keys.contains(key) {
        let i = choose|i: int| 0 <= i < keys.len() && keys[i] == key;
        assert(fields[i].0@ == key.2);
    }
    if key.0 == OBJECT_FIELD && key.1 == named_type && lookup(fields, key.2) is Some {
        let i = choose|i: int| 0 <= i < fields.len() && (#[trigger] fields[i]).0@ == key.2;
        assert(keys[i] == key);
    }
}

/// In a well-formed schema, a field belongs to a recorded object type exactly if its parent type
/// has the directive.
proof fn lemma_on_type(schema: FederationSchema, name: Seq<char>, key: FieldKey)
    requires
        schema.well_formed(),
        schema.referencers.of(name) is Ok,
    ensures
        on_type(schema.schema, schema.referencers.of(name)->Ok_0.object_types@, key)
            <==> schema.schema.parent_has(key, name),
{
    let object_types = schema.referencers.of(name)->Ok_0.object_types@;
    assert(schema.refers(name));
    assert(texts(object_types).contains(key.1) <==> schema.schema.object_has(key.1, name));
    if on_type(schema.schema, object_types, key) {
        let i = choose|i: int|
            0 <= i < object_types.len() && (schema.schema.object_type(
                (#[trigger] object_types[i])@,
            ) matches Ok(node) && object_fields(object_types[i]@, node.fields@).contains(key));
        let node = schema.schema.object_type(object_types[i]@)->Ok_0;
        lemma_object_fields(object_types[i]@, node.fields@, key);
        assert(texts(object_types)[i] == key.1);
    }
    if schema.schema.parent_has(key, name) {
        let i = choose|i: int|
            0 <= i < texts(object_types).len() && texts(object_types)[i] == key.1;
        assert(object_types[i]@ == key.1);
        let node = schema.schema.object_type(key.1)->Ok_0;
        lemma_object_fields(key.1, node.fields@, key);
    }
}

/// In a well-formed schema, the fields collected as external are those with an `@external`
/// directive.
pub proof fn law_external_fields_have_the_directive(
    schema: FederationSchema,
    fields: Seq<FieldKey>,
    key: FieldKey,
)
    requires
        schema.well_formed(),
        external_fields(schema) == Ok::<Seq<FieldKey>, ErrorView>(fields),
    ensures
        fields.contains(key) <==> schema.schema.field_has(
            key,
            schema.definition("external"@)->Ok_0@,
        ),
{
    assert(schema.refers(schema.definition("external"@)->Ok_0@));
    law_filled_set(Seq::empty(), fields_with(external_referencers(schema)->Ok_0));
}

/// In a well-formed schema, the fields collected from external types are those whose parent type
/// is an object type with an `@external` directive.
pub proof fn law_parents_of_collected_fields_have_the_directive(
    schema: FederationSchema,
    fields: Seq<FieldKey>,
    key: FieldKey,
)
    requires
        schema.well_formed(),
        fields_on_external_types(schema, Ok(fields)),
    ensures
        fields.contains(key) <==> schema.schema.parent_has(
            key,
            schema.definition("external"@)->Ok_0@,
        ),
{
    law_fields_on_external_types(schema, fields, key);
    lemma_on_type(schema, schema.definition("external"@)->Ok_0@, key);
}

/// In a well-formed schema, every field that can't be external has an `@external` directive.
pub proof fn law_fake_externals_have_the_directive<
    A: Fn(&Directive) -> Result<KeyDirectiveArguments, FederationError>,
    T: Fn(&Schema, &String, &String) -> Result<Vec<FieldDefinitionPosition>, FederationError>,
>(
    key_directive_arguments: A,
    collect_target_fields: T,
    schema: FederationSchema,
    fields: Seq<FieldKey>,
    key: FieldKey,
)
    requires
        schema.well_formed(),
        fake_externals(key_directive_arguments, collect_target_fields, schema, Ok(fields)),
        fields.contains(key),
    ensures
        schema.schema.field_has(key, schema.definition("external"@)->Ok_0@),
{
    law_fake_externals_are_in_keys(
        key_directive_arguments,
        collect_target_fields,
        schema,
        fields,
        key,
    );
    assert(schema.refers(schema.definition("external"@)->Ok_0@));
}

/// The fields that can't be external are among the fields collected as external.
pub proof fn law_fake_externals_are_collected_as_external<
    A: Fn(&Directive) -> Result<KeyDirectiveArguments, FederationError>,
    T: Fn(&Schema, &String, &String) -> Result<Vec<FieldDefinitionPosition>, FederationError>,
>(
    key_directive_arguments: A,
    collect_target_fields: T,
    federation_spec_definition: FederationSpecDefinition,
    schema: FederationSchema,
    metadata: ExternalMetadataView,
    key: FieldKey,
)
    requires
        external_metadata(
            key_directive_arguments,
            collect_target_fields,
            federation_spec_definition,
            schema,
            Ok(metadata),
        ),
        metadata.is_fake_external(key),
    ensures
        metadata.external_fields.contains(key),
{
    law_fake_externals_are_in_keys(
        key_directive_arguments,
        collect_target_fields,
        schema,
        metadata.fake_external_fields,
        key,
    );
    law_filled_set(Seq::empty(), fields_with(external_referencers(schema)->Ok_0));
}

/// Only fields of object and interface types are external or marked as external: the `__typename`
/// field of a union type never is.
pub proof fn law_union_fields_are_not_external<
    A: Fn(&Directive) -> Result<KeyDirectiveArguments, FederationError>,
    T: Fn(&Schema, &String, &String) -> Result<Vec<FieldDefinitionPosition>, FederationError>,
>(
    key_directive_arguments: A,
    collect_target_fields: T,
    federation_spec_definition: FederationSpecDefinition,
    schema: FederationSchema,
    metadata: ExternalMetadataView,
    key: FieldKey,
)
    requires
        external_metadata(
            key_directive_arguments,
            collect_target_fields,
            federation_spec_definition,
            schema,
            Ok(metadata),
        ),
        metadata.is_external(key) || metadata.is_fake_external(key),
    ensures
        key.0 == OBJECT_FIELD || key.0 == INTERFACE_FIELD,
{
    let referencers = external_referencers(schema)->Ok_0;
    if metadata.is_fake_external(key) {
        law_fake_externals_are_in_keys(
            key_directive_arguments,
            collect_target_fields,
            schema,
            metadata.fake_external_fields,
            key,
        );
    } else {
        law_what_is_external(
            key_directive_arguments,
            collect_target_fields,
            federation_spec_definition,
            schema,
            metadata,
            key,
        );
    }
    if !fields_with(referencers).contains(key) {
        let object_types = referencers.object_types@;
        let i = choose|i: int|
            0 <= i < object_types.len() && (schema.schema.object_type(
                (#[trigger] object_types[i])@,
            ) matches Ok(node) && object_fields(object_types[i]@, node.fields@).contains(key));
        let node = schema.schema.object_type(object_types[i]@)->Ok_0;
        lemma_object_fields(object_types[i]@, node.fields@, key);
    }
}

/// In a well-formed schema, a field is external exactly if it has an `@external` directive itself,
/// or from the second major version of the federation specification on its parent type has one,
/// and it is none of the fields that can't be external.
pub proof fn law_external_by_directive<
    A: Fn(&Directive) -> Result<KeyDirectiveArguments, FederationError>,
    T: Fn(&Schema, &String, &String) -> Result<Vec<FieldDefinitionPosition>, FederationError>,
>(
    key_directive_arguments: A,
    collect_target_fields: T,
    federation_spec_definition: FederationSpecDefinition,
    schema: FederationSchema,
    metadata: ExternalMetadataView,
    key: FieldKey,
)
    requires
        schema.well_formed(),
        external_metadata(
            key_directive_arguments,
            collect_target_fields,
            federation_spec_definition,
            schema,
            Ok(metadata),
        ),
    ensures
        metadata.is_external(key) <==> {
            let external = schema.definition("external"@)->Ok_0@;
            &&& !metadata.is_fake_external(key)
            &&& {
                ||| schema.schema.field_has(key, external)
                ||| {
                    &&& federation_spec_definition.version.spec_satisfies(fed2())
                    &&& schema.schema.parent_has(key, external)
                }
            }
        },
{
    let external = schema.definition("external"@)->Ok_0@;
    law_what_is_external(
        key_directive_arguments,
        collect_target_fields,
        federation_spec_definition,
        schema,
        metadata,
        key,
    );
    assert(schema.refers(external));
    lemma_on_type(schema, external, key);
}

/// In a well-formed schema before the second major version of the federation specification, a
/// field is external exactly if it has an `@external` directive itself and is none of the fields
/// that can't be external: a directive on its parent type makes no difference.
pub proof fn law_external_before_fed2<
    A: Fn(&Directive) -> Result<KeyDirectiveArguments, FederationError>,
    T: Fn(&Schema, &String, &String) -> Result<Vec<FieldDefinitionPosition>, FederationError>,
>(
    key_directive_arguments: A,
    collect_target_fields: T,
    federation_spec_definition: FederationSpecDefinition,
    schema: FederationSchema,
    metadata: ExternalMetadataView,
    key: FieldKey,
)
    requires
        schema.well_formed(),
        !federation_spec_definition.version.spec_satisfies(fed2()),
        external_metadata(
            key_directive_arguments,
            collect_target_fields,
            federation_spec_definition,
            schema,
            Ok(metadata),
        ),
    ensures
        metadata.is_external(key) <==> schema.schema.field_has(
            key,
            schema.definition("external"@)->Ok_0@,
        ) && !metadata.is_fake_external(key),
{
    law_external_by_directive(
        key_directive_arguments,
        collect_target_fields,
        federation_spec_definition,
        schema,
        metadata,
        key,
    );
}

/// The fields found, by their keys, or the view of an error.
pub open spec fn target_keys(
    found: Result<Vec<FieldDefinitionPosition>, FederationError>,
) -> Result<Seq<FieldKey>, ErrorView> {
    match found {
        Ok(positions) => Ok(position_keys(positions@)),
        Err(error) => Err(error@),
    }
}

/// Whether `key_directive_arguments` gives one result for each application.
pub open spec fn reads_keys_one_way<
    A: Fn(&Directive) -> Result<KeyDirectiveArguments, FederationError>,
>(key_directive_arguments: A) -> bool {
    forall|
        directive: Directive,
        first: Result<KeyDirectiveArguments, FederationError>,
        second: Result<KeyDirectiveArguments, FederationError>,
    | #[trigger]
        call_ensures(key_directive_arguments, (&directive,), first) && #[trigger] call_ensures(
            key_directive_arguments,
            (&directive,),
            second,
        ) ==> outcome(first) == outcome(second)
}

/// Whether `collect_target_fields` gives one list of fields for each field set of a type.
pub open spec fn finds_fields_one_way<
    T: Fn(&Schema, &String, &String) -> Result<Vec<FieldDefinitionPosition>, FederationError>,
>(collect_target_fields: T) -> bool {
    forall|
        schema: Schema,
        named_type: String,
        fields: String,
        first: Result<Vec<FieldDefinitionPosition>, FederationError>,
        second: Result<Vec<FieldDefinitionPosition>, FederationError>,
    | #[trigger]
        call_ensures(collect_target_fields, (&schema, &named_type, &fields), first)
            && #[trigger] call_ensures(
            collect_target_fields,
            (&schema, &named_type, &fields),
            second,
        ) ==> target_keys(first) == target_keys(second)
}

/// A key application refers to one list of fields.
proof fn lemma_key_targets_are_determined<
    A: Fn(&Directive) -> Result<KeyDirectiveArguments, FederationError>,
    T: Fn(&Schema, &String, &String) -> Result<Vec<FieldDefinitionPosition>, FederationError>,
>(key_directive_arguments: A, collect_target_fields: T, schema: Schema, named_type: String)
    requires
        reads_keys_one_way(key_directive_arguments),
        finds_fields_one_way(collect_target_fields),
    ensures
        determined(
            gives_key_targets(key_directive_arguments, collect_target_fields, schema, named_type),
            same(),
        ),
{
    let gives = gives_key_targets(
        key_directive_arguments,
        collect_target_fields,
        schema,
        named_type,
    );
    assert forall|
        application: Component,
        x: Result<Seq<FieldKey>, ErrorView>,
        y: Result<Seq<FieldKey>, ErrorView>,
    | #[trigger] gives(application, x) && #[trigger] gives(application, y) implies agree(
        same(),
        x,
        y,
    ) by {
        let directive = application.directive;
        let first = choose|arguments: Result<KeyDirectiveArguments, FederationError>|
            {
                &&& #[trigger] call_ensures(key_directive_arguments, (&directive,), arguments)
                &&& match arguments {
                    Ok(key) => field_set_targets(
                        collect_target_fields,
                        schema,
                        named_type,
                        key.fields,
                        x,
                    ),
                    Err(error) => x == Err::<Seq<FieldKey>, ErrorView>(error@),
                }
            };
        let second = choose|arguments: Result<KeyDirectiveArguments, FederationError>|
            {
                &&& #[trigger] call_ensures(key_directive_arguments, (&directive,), arguments)
                &&& match arguments {
                    Ok(key) => field_set_targets(
                        collect_target_fields,
                        schema,
                        named_type,
                        key.fields,
                        y,
                    ),
                    Err(error) => y == Err::<Seq<FieldKey>, ErrorView>(error@),
                }
            };
        assert(outcome(first) == outcome(second));
        if let Ok(key) = first {
            assert(outcome(second) == Ok::<KeyDirectiveArguments, ErrorView>(key));
            assert(field_set_targets(collect_target_fields, schema, named_type, key.fields, x));
            assert(field_set_targets(collect_target_fields, schema, named_type, key.fields, y));
            let xs = choose|found: Result<Vec<FieldDefinitionPosition>, FederationError>|
                {
                    &&& #[trigger] call_ensures(
                        collect_target_fields,
                        (&schema, &named_type, &key.fields),
                        found,
                    )
                    &&& x == match found {
                        Ok(positions) => Ok(position_keys(positions@)),
                        Err(error) => Err(error@),
                    }
                };
            let ys = choose|found: Result<Vec<FieldDefinitionPosition>, FederationError>|
                {
                    &&& #[trigger] call_ensures(
                        collect_target_fields,
                        (&schema, &named_type, &key.fields),
                        found,
                    )
                    &&& y == match found {
                        Ok(positions) => Ok(position_keys(positions@)),
                        Err(error) => Err(error@),
                    }
                };
            assert(target_keys(xs) == target_keys(ys));
        }
    }
}

/// The keys of a type refer to one list of fields.
proof fn lemma_type_targets_are_determined<
    A: Fn(&Directive) -> Result<KeyDirectiveArguments, FederationError>,
    T: Fn(&Schema, &String, &String) -> Result<Vec<FieldDefinitionPosition>, FederationError>,
>(
    key_directive_arguments: A,
    collect_target_fields: T,
    schema: Schema,
    key: Seq<char>,
    extends: Seq<char>,
)
    requires
        reads_keys_one_way(key_directive_arguments),
        finds_fields_one_way(collect_target_fields),
    ensures
        determined(
            gives_type_targets(
                key_directive_arguments,
                collect_target_fields,
                schema,
                key,
                extends,
            ),
            same(),
        ),
{
    let gives = gives_type_targets(
        key_directive_arguments,
        collect_target_fields,
        schema,
        key,
        extends,
    );
    assert forall|
        position: ObjectOrInterfaceTypeDefinitionPosition,
        x: Result<Seq<FieldKey>, ErrorView>,
        y: Result<Seq<FieldKey>, ErrorView>,
    | #[trigger] gives(position, x) && #[trigger] gives(position, y) implies agree(same(), x, y) by {
        if let Ok(directives) = schema.type_directives(position) {
            let applications = extension_keys(directives, key, extends);
            let each = gives_key_targets(
                key_directive_arguments,
                collect_target_fields,
                schema,
                position.name(),
            );
            lemma_key_targets_are_determined(
                key_directive_arguments,
                collect_target_fields,
                schema,
                position.name(),
            );
            assert(keys_target(
                key_directive_arguments,
                collect_target_fields,
                schema,
                position.name(),
                applications,
                x,
            ));
            assert(keys_target(
                key_directive_arguments,
                collect_target_fields,
                schema,
                position.name(),
                applications,
                y,
            ));
            let xs = choose|found: Result<Seq<Seq<FieldKey>>, ErrorView>| #[trigger]
                collects(applications, each, found) && x == joined_outcome(found);
            let ys = choose|found: Result<Seq<Seq<FieldKey>>, ErrorView>| #[trigger]
                collects(applications, each, found) && y == joined_outcome(found);
            law_collecting_is_determined(applications, each, same(), xs, ys);
            lemma_same_outcomes(xs, ys);
        }
    }
}

/// The fields that can't be external are collected in one way.
pub proof fn law_fake_externals_are_determined<
    A: Fn(&Directive) -> Result<KeyDirectiveArguments, FederationError>,
    T: Fn(&Schema, &String, &String) -> Result<Vec<FieldDefinitionPosition>, FederationError>,
>(
    key_directive_arguments: A,
    collect_target_fields: T,
    schema: FederationSchema,
    first: Result<Seq<FieldKey>, ErrorView>,
    second: Result<Seq<FieldKey>, ErrorView>,
)
    requires
        reads_keys_one_way(key_directive_arguments),
        finds_fields_one_way(collect_target_fields),
        fake_externals(key_directive_arguments, collect_target_fields, schema, first),
        fake_externals(key_directive_arguments, collect_target_fields, schema, second),
    ensures
        first == second,
{
    if let (Ok(extends), Ok(key)) = (schema.definition("extends"@), schema.definition("key"@)) {
        if let Ok(referencers) = schema.referencers.of(key@) {
            let positions = types_with(referencers);
            let is_marked = marked(schema);
            let gives = gives_type_targets(
                key_directive_arguments,
                collect_target_fields,
                schema.schema,
                key@,
                extends@,
            );
            lemma_type_targets_are_determined(
                key_directive_arguments,
                collect_target_fields,
                schema.schema,
                key@,
                extends@,
            );
            let xs = choose|found: Result<Seq<Seq<FieldKey>>, ErrorView>| #[trigger]
                collects(positions, gives, found) && first == filled_with_marked(found, is_marked);
            let ys = choose|found: Result<Seq<Seq<FieldKey>>, ErrorView>| #[trigger]
                collects(positions, gives, found) && second == filled_with_marked(found, is_marked);
            law_collecting_is_determined(positions, gives, same(), xs, ys);
            lemma_same_outcomes(xs, ys);
        }
    }
}

/// Without `@external` no field is one that can't be external.
pub proof fn law_nothing_is_fake_without_the_directive<
    A: Fn(&Directive) -> Result<KeyDirectiveArguments, FederationError>,
    T: Fn(&Schema, &String, &String) -> Result<Vec<FieldDefinitionPosition>, FederationError>,
>(
    key_directive_arguments: A,
    collect_target_fields: T,
    schema: FederationSchema,
    fields: Seq<FieldKey>,
)
    requires
        external_referencers(schema) is Err,
        fake_externals(key_directive_arguments, collect_target_fields, schema, Ok(fields)),
    ensures
        fields == Seq::<FieldKey>::empty(),
{
    if fields.len() > 0 {
        assert(fields.contains(fields[0]));
        law_fake_externals_are_in_keys(
            key_directive_arguments,
            collect_target_fields,
            schema,
            fields,
            fields[0],
        );
    }
}

/// Whether the arguments or the field set of the key application at `j`, among those that count on
/// the type at `position`, can't be read.
pub open spec fn key_fails_at<
    A: Fn(&Directive) -> Result<KeyDirectiveArguments, FederationError>,
    T: Fn(&Schema, &String, &String) -> Result<Vec<FieldDefinitionPosition>, FederationError>,
>(
    key_directive_arguments: A,
    collect_target_fields: T,
    schema: FederationSchema,
    position: ObjectOrInterfaceTypeDefinitionPosition,
    j: int,
    error: ErrorView,
) -> bool {
    let applications = extension_keys(
        schema.schema.type_directives(position)->Ok_0,
        schema.definition("key"@)->Ok_0@,
        schema.definition("extends"@)->Ok_0@,
    );
    &&& 0 <= j < applications.len()
    &&& key_targets(
        key_directive_arguments,
        collect_target_fields,
        schema.schema,
        position.name(),
        applications[j].directive,
        Err(error),
    )
}

/// Where the directives `@extends` and `@key`, the referencers of `@key` and the types among them
/// are found, collecting the fields that can't be external fails exactly if the arguments or the
/// field set of some key that counts can't be read. A key that does not count causes no error, and
/// neither does a schema without `@external`.
pub proof fn law_only_keys_that_count_fail<
    A: Fn(&Directive) -> Result<KeyDirectiveArguments, FederationError>,
    T: Fn(&Schema, &String, &String) -> Result<Vec<FieldDefinitionPosition>, FederationError>,
>(
    key_directive_arguments: A,
    collect_target_fields: T,
    schema: FederationSchema,
    collected: Result<Seq<FieldKey>, ErrorView>,
)
    requires
        reads_keys_one_way(key_directive_arguments),
        finds_fields_one_way(collect_target_fields),
        schema.definition("extends"@) is Ok,
        schema.definition("key"@) is Ok,
        schema.referencers.of(schema.definition("key"@)->Ok_0@) is Ok,
        forall|i: int|
            0 <= i < types_with(
                schema.referencers.of(schema.definition("key"@)->Ok_0@)->Ok_0,
            ).len() ==> schema.schema.type_directives(
                #[trigger] types_with(
                    schema.referencers.of(schema.definition("key"@)->Ok_0@)->Ok_0,
                )[i],
            ) is Ok,
        fake_externals(key_directive_arguments, collect_target_fields, schema, collected),
    ensures
        collected is Err <==> exists|i: int, j: int, error: ErrorView|
            0 <= i < types_with(
                schema.referencers.of(schema.definition("key"@)->Ok_0@)->Ok_0,
            ).len() && #[trigger] key_fails_at(
                key_directive_arguments,
                collect_target_fields,
                schema,
                types_with(schema.referencers.of(schema.definition("key"@)->Ok_0@)->Ok_0)[i],
                j,
                error,
            ),
{
    let key_name = schema.definition("key"@)->Ok_0@;
    let extends = schema.definition("extends"@)->Ok_0@;
    let positions = types_with(schema.referencers.of(key_name)->Ok_0);
    match collected {
        Ok(fields) => {
            if exists|i: int, j: int, error: ErrorView|
                0 <= i < positions.len() && #[trigger] key_fails_at(
                    key_directive_arguments,
                    collect_target_fields,
                    schema,
                    positions[i],
                    j,
                    error,
                ) {
                let (i, j, error) = choose|i: int, j: int, error: ErrorView|
                    0 <= i < positions.len() && #[trigger] key_fails_at(
                        key_directive_arguments,
                        collect_target_fields,
                        schema,
                        positions[i],
                        j,
                        error,
                    );
                lemma_counting_key_is_read(
                    key_directive_arguments,
                    collect_target_fields,
                    schema,
                    fields,
                    i,
                    j,
                    error,
                );
            }
        },
        Err(error) => {
            let gives = gives_type_targets(
                key_directive_arguments,
                collect_target_fields,
                schema.schema,
                key_name,
                extends,
            );
            let found = choose|found: Result<Seq<Seq<FieldKey>>, ErrorView>| #[trigger]
                collects(positions, gives, found) && collected == filled_with_marked(
                    found,
                    marked(schema),
                );
            assert(fails(positions, gives, error));
            let i = choose|i: int| fails_at(positions, gives, i, error);
            let position = positions[i];
            assert(gives(position, Err(error)));
            let applications = extension_keys(
                schema.schema.type_directives(position)->Ok_0,
                key_name,
                extends,
            );
            let each = gives_key_targets(
                key_directive_arguments,
                collect_target_fields,
                schema.schema,
                position.name(),
            );
            assert(keys_target(
                key_directive_arguments,
                collect_target_fields,
                schema.schema,
                position.name(),
                applications,
                Err(error),
            ));
            let inner = choose|inner: Result<Seq<Seq<FieldKey>>, ErrorView>| #[trigger]
                collects(applications, each, inner) && Err::<Seq<FieldKey>, ErrorView>(error)
                    == joined_outcome(inner);
            assert(fails(applications, each, error));
            let j = choose|j: int| fails_at(applications, each, j, error);
            assert(each(applications[j], Err(error)));
            assert(key_fails_at(
                key_directive_arguments,
                collect_target_fields,
                schema,
                positions[i],
                j,
                error,
            ));
        },
    }
}

/// Where the fields that can't be external could be collected, no key that counts fails.
proof fn lemma_counting_key_is_read<
    A: Fn(&Directive) -> Result<KeyDirectiveArguments, FederationError>,
    T: Fn(&Schema, &String, &String) -> Result<Vec<FieldDefinitionPosition>, FederationError>,
>(
    key_directive_arguments: A,
    collect_target_fields: T,
    schema: FederationSchema,
    fields: Seq<FieldKey>,
    i: int,
    j: int,
    error: ErrorView,
)
    requires
        reads_keys_one_way(key_directive_arguments),
        finds_fields_one_way(collect_target_fields),
        fake_externals(key_directive_arguments, collect_target_fields, schema, Ok(fields)),
        0 <= i < types_with(
            schema.referencers.of(schema.definition("key"@)->Ok_0@)->Ok_0,
        ).len(),
    ensures
        !key_fails_at(
            key_directive_arguments,
            collect_target_fields,
            schema,
            types_with(schema.referencers.of(schema.definition("key"@)->Ok_0@)->Ok_0)[i],
            j,
            error,
        ),
{
    let key_name = schema.definition("key"@)->Ok_0@;
    let extends = schema.definition("extends"@)->Ok_0@;
    let position = types_with(schema.referencers.of(key_name)->Ok_0)[i];
    if key_fails_at(
        key_directive_arguments,
        collect_target_fields,
        schema,
        position,
        j,
        error,
    ) {
        let application = extension_keys(
            schema.schema.type_directives(position)->Ok_0,
            key_name,
            extends,
        )[j];
        let each = gives_key_targets(
            key_directive_arguments,
            collect_target_fields,
            schema.schema,
            position.name(),
        );
        law_key_fields_are_fake_externals(
            key_directive_arguments,
            collect_target_fields,
            schema,
            fields,
            i,
            j,
        );
        let targets = choose|targets: Seq<FieldKey>| #[trigger]
            key_targets(
                key_directive_arguments,
                collect_target_fields,
                schema.schema,
                position.name(),
                application.directive,
                Ok(targets),
            );
        lemma_key_targets_are_determined(
            key_directive_arguments,
            collect_target_fields,
            schema.schema,
            position.name(),
        );
        assert(each(application, Ok(targets)));
        assert(each(application, Err(error)));
    }
}

/// The fields of external types are collected in one way.
pub proof fn law_fields_on_external_types_are_determined(
    schema: FederationSchema,
    first: Result<Seq<FieldKey>, ErrorView>,
    second: Result<Seq<FieldKey>, ErrorView>,
)
    requires
        fields_on_external_types(schema, first),
        fields_on_external_types(schema, second),
    ensures
        first == second,
{
    if let Ok(referencers) = external_referencers(schema) {
        let object_types = referencers.object_types@;
        let gives = gives_fields(schema.schema);
        let xs = choose|found: Result<Seq<Seq<FieldKey>>, ErrorView>| #[trigger]
            collects(object_types, gives, found) && first == filled(found);
        let ys = choose|found: Result<Seq<Seq<FieldKey>>, ErrorView>| #[trigger]
            collects(object_types, gives, found) && second == filled(found);
        law_collecting_is_determined(object_types, gives, same(), xs, ys);
        lemma_same_outcomes(xs, ys);
    }
}

/// What three collections make together: the first error in their order, otherwise all three.
pub open spec fn combined(
    external: Result<Seq<FieldKey>, ErrorView>,
    fake: Result<Seq<FieldKey>, ErrorView>,
    on_types: Result<Seq<FieldKey>, ErrorView>,
) -> Result<ExternalMetadataView, ErrorView> {
    match (external, fake, on_types) {
        (Err(error), _, _) => Err(error),
        (Ok(_), Err(error), _) => Err(error),
        (Ok(_), Ok(_), Err(error)) => Err(error),
        (Ok(external_fields), Ok(fake_external_fields), Ok(fields_on_external_types)) => Ok(
            ExternalMetadataView {
                external_fields,
                fake_external_fields,
                fields_on_external_types,
            },
        ),
    }
}

/// What the collection of the fields that can't be external gave when `metadata` was collected.
proof fn lemma_fake_outcome<
    A: Fn(&Directive) -> Result<KeyDirectiveArguments, FederationError>,
    T: Fn(&Schema, &String, &String) -> Result<Vec<FieldDefinitionPosition>, FederationError>,
>(
    key_directive_arguments: A,
    collect_target_fields: T,
    federation_spec_definition: FederationSpecDefinition,
    schema: FederationSchema,
    metadata: Result<ExternalMetadataView, ErrorView>,
) -> (fake: Result<Seq<FieldKey>, ErrorView>)
    requires
        external_fields(schema) is Ok,
        external_metadata(
            key_directive_arguments,
            collect_target_fields,
            federation_spec_definition,
            schema,
            metadata,
        ),
    ensures
        fake_externals(key_directive_arguments, collect_target_fields, schema, fake),
        fake matches Err(error) ==> metadata == Err::<ExternalMetadataView, ErrorView>(error),
        fake matches Ok(fields) ==> match metadata {
            Ok(found) => found.fake_external_fields == fields,
            Err(error) => {
                &&& federation_spec_definition.version.spec_satisfies(fed2())
                &&& fields_on_external_types(schema, Err(error))
            },
        },
{
    match metadata {
        Ok(found) => Ok(found.fake_external_fields),
        Err(error) => {
            if fake_externals(
                key_directive_arguments,
                collect_target_fields,
                schema,
                Err(error),
            ) {
                Err(error)
            } else {
                let fields = choose|fields: Seq<FieldKey>| #[trigger]
                    fake_externals(
                        key_directive_arguments,
                        collect_target_fields,
                        schema,
                        Ok(fields),
                    );
                Ok(fields)
            }
        },
    }
}

/// What is known of the external fields agrees with the single collections: it is what they make
/// together, where before the second major version of the federation specification the collection
/// of the fields of external types is not made, and no field counts for it.
pub proof fn law_metadata_agrees_with_collections<
    A: Fn(&Directive) -> Result<KeyDirectiveArguments, FederationError>,
    T: Fn(&Schema, &String, &String) -> Result<Vec<FieldDefinitionPosition>, FederationError>,
>(
    key_directive_arguments: A,
    collect_target_fields: T,
    federation_spec_definition: FederationSpecDefinition,
    schema: FederationSchema,
    fake: Result<Seq<FieldKey>, ErrorView>,
    on_types: Result<Seq<FieldKey>, ErrorView>,
    metadata: Result<ExternalMetadataView, ErrorView>,
)
    requires
        reads_keys_one_way(key_directive_arguments),
        finds_fields_one_way(collect_target_fields),
        fake_externals(key_directive_arguments, collect_target_fields, schema, fake),
        fields_on_external_types(schema, on_types),
        external_metadata(
            key_directive_arguments,
            collect_target_fields,
            federation_spec_definition,
            schema,
            metadata,
        ),
    ensures
        metadata == combined(
            external_fields(schema),
            fake,
            if federation_spec_definition.version.spec_satisfies(fed2()) {
                on_types
            } else {
                Ok(Seq::empty())
            },
        ),
{
    if external_fields(schema) is Ok {
        let found = lemma_fake_outcome(
            key_directive_arguments,
            collect_target_fields,
            federation_spec_definition,
            schema,
            metadata,
        );
        law_fake_externals_are_determined(
            key_directive_arguments,
            collect_target_fields,
            schema,
            fake,
            found,
        );
        if fake is Ok && federation_spec_definition.version.spec_satisfies(fed2()) {
            law_fields_on_external_types_are_determined(
                schema,
                on_types,
                match metadata {
                    Ok(metadata) => Ok(metadata.fields_on_external_types),
                    Err(error) => Err(error),
                },
            );
        }
    }
}

/// What is known of the external fields is collected in one way.
pub proof fn law_metadata_is_determined<
    A: Fn(&Directive) -> Result<KeyDirectiveArguments, FederationError>,
    T: Fn(&Schema, &String, &String) -> Result<Vec<FieldDefinitionPosition>, FederationError>,
>(
    key_directive_arguments: A,
    collect_target_fields: T,
    federation_spec_definition: FederationSpecDefinition,
    schema: FederationSchema,
    first: Result<ExternalMetadataView, ErrorView>,
    second: Result<ExternalMetadataView, ErrorView>,
)
    requires
        reads_keys_one_way(key_directive_arguments),
        finds_fields_one_way(collect_target_fields),
        external_metadata(
            key_directive_arguments,
            collect_target_fields,
            federation_spec_definition,
            schema,
            first,
        ),
        external_metadata(
            key_directive_arguments,
            collect_target_fields,
            federation_spec_definition,
            schema,
            second,
        ),
    ensures
        first == second,
{
    if external_fields(schema) is Ok {
        let fake = lemma_fake_outcome(
            key_directive_arguments,
            collect_target_fields,
            federation_spec_definition,
            schema,
            first,
        );
        let other_fake = lemma_fake_outcome(
            key_directive_arguments,
            collect_target_fields,
            federation_spec_definition,
            schema,
            second,
        );
        law_fake_externals_are_determined(
            key_directive_arguments,
            collect_target_fields,
            schema,
            fake,
            other_fake,
        );
        if fake is Ok && federation_spec_definition.version.spec_satisfies(fed2()) {
            law_fields_on_external_types_are_determined(
                schema,
                match first {
                    Ok(metadata) => Ok(metadata.fields_on_external_types),
                    Err(error) => Err(error),
                },
                match second {
                    Ok(metadata) => Ok(metadata.fields_on_external_types),
                    Err(error) => Err(error),
                },
            );
        }
    }
}

} // verus!
