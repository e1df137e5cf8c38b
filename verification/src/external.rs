//! External fields: what a schema marks as external, and what a key makes of it.

use crate::ast::applications_of;
use crate::ast::applies;
use crate::ast::Component;
use crate::ast::Directive;
use crate::ast::FieldDefinition;
use crate::ast::Schema;
use crate::collecting::collects;
use crate::collecting::joined;
use crate::collecting::law_joined_members;
use crate::collecting::lemma_all_pass;
use crate::collections::law_filled_set;
use crate::collections::with_items;
use crate::error::ErrorView;
use crate::error::FederationError;
use crate::federation::fields_with;
use crate::federation::DirectiveReferencers;
use crate::federation::FederationSchema;
use crate::federation::FederationSpecDefinition;
use crate::federation::KeyDirectiveArguments;
use crate::federation::Version;
use crate::operation::Selection;
use crate::operation::SelectionSet;
use crate::position::object_field;
use crate::position::FieldDefinitionPosition;
use crate::position::FieldKey;
use crate::position::ObjectOrInterfaceTypeDefinitionPosition;
use vstd::prelude::*;

verus! {

/// The fields that a subgraph schema says something about, in the order in which they were found.
#[verifier::ext_equal]
pub struct ExternalMetadataView {
    pub external_fields: Seq<FieldKey>,
    pub fake_external_fields: Seq<FieldKey>,
    pub fields_on_external_types: Seq<FieldKey>,
}

impl ExternalMetadataView {
    /// Whether the field is marked as external although it can't be, being part of a key.
    pub open spec fn is_fake_external(self, key: FieldKey) -> bool {
        self.fake_external_fields.contains(key)
    }

    /// Whether the field is external.
    pub open spec fn is_external(self, key: FieldKey) -> bool {
        &&& self.external_fields.contains(key) || self.fields_on_external_types.contains(key)
        &&& !self.is_fake_external(key)
    }

    /// Whether an external field is selected somewhere in the selection set.
    pub open spec fn selects_external(self, selection_set: SelectionSet) -> bool {
        exists|key: FieldKey| #[trigger] selection_set.selects(key) && self.is_external(key)
    }

    /// Whether no field is kept twice.
    pub open spec fn well_formed(self) -> bool {
        &&& self.external_fields.no_duplicates()
        &&& self.fake_external_fields.no_duplicates()
        &&& self.fields_on_external_types.no_duplicates()
    }
}

/// Where `@external` is applied.
pub open spec fn external_referencers(schema: FederationSchema) -> Result<
    DirectiveReferencers,
    ErrorView,
> {
    match schema.definition("external"@) {
        Ok(name) => schema.referencers.of(name@),
        Err(error) => Err(error),
    }
}

/// The keys of fields.
pub open spec fn position_keys(fields: Seq<FieldDefinitionPosition>) -> Seq<FieldKey> {
    fields.map_values(|field: FieldDefinitionPosition| field@)
}

/// The fields with an `@external` directive.
pub open spec fn external_fields(schema: FederationSchema) -> Result<Seq<FieldKey>, ErrorView> {
    match external_referencers(schema) {
        Ok(referencers) => Ok(with_items(Seq::empty(), fields_with(referencers))),
        Err(error) => Err(error),
    }
}

/// The fields of the object type `named_type`.
pub open spec fn object_fields(
    named_type: Seq<char>,
    fields: Seq<(String, FieldDefinition)>,
) -> Seq<FieldKey> {
    fields.map_values(|field: (String, FieldDefinition)| object_field(named_type, field.0@))
}

/// Whether `fields` are the fields of the object type of the given name.
pub open spec fn gives_fields(schema: Schema) -> spec_fn(
    String,
    Result<Seq<FieldKey>, ErrorView>,
) -> bool {
    |named_type: String, fields: Result<Seq<FieldKey>, ErrorView>|
        fields == match schema.object_type(named_type@) {
            Ok(node) => Ok(object_fields(named_type@, node.fields@)),
            Err(error) => Err(error),
        }
}

/// What filling an empty set with the fields found gives.
pub open spec fn filled(found: Result<Seq<Seq<FieldKey>>, ErrorView>) -> Result<
    Seq<FieldKey>,
    ErrorView,
> {
    match found {
        Ok(lists) => Ok(with_items(Seq::empty(), joined(lists))),
        Err(error) => Err(error),
    }
}

/// Whether a field has an `@external` directive. Where the schema has no `@external`, no field does.
pub open spec fn marked(schema: FederationSchema) -> spec_fn(FieldKey) -> bool {
    |key: FieldKey|
        external_referencers(schema) matches Ok(referencers) && fields_with(
            referencers,
        ).contains(key)
}

/// What filling an empty set with those of the fields found gives that are marked.
pub open spec fn filled_with_marked(
    found: Result<Seq<Seq<FieldKey>>, ErrorView>,
    is_marked: spec_fn(FieldKey) -> bool,
) -> Result<Seq<FieldKey>, ErrorView> {
    match found {
        Ok(lists) => Ok(with_items(Seq::empty(), joined(lists).filter(is_marked))),
        Err(error) => Err(error),
    }
}

/// Whether `outcome` is the set of the fields of the object types with an `@external`
/// directive.
pub open spec fn fields_on_external_types(
    schema: FederationSchema,
    outcome: Result<Seq<FieldKey>, ErrorView>,
) -> bool {
    match external_referencers(schema) {
        Ok(referencers) => filled_from_types(schema.schema, referencers.object_types@, outcome),
        Err(error) => outcome == Err::<Seq<FieldKey>, ErrorView>(error),
    }
}

/// Whether `outcome` is the set of the fields of the object types of the given names.
pub open spec fn filled_from_types(
    schema: Schema,
    object_types: Seq<String>,
    outcome: Result<Seq<FieldKey>, ErrorView>,
) -> bool {
    exists|found: Result<Seq<Seq<FieldKey>>, ErrorView>|
        #[trigger] collects(object_types, gives_fields(schema), found) && outcome == filled(found)
}

/// Whether the key application counts for a type extension: it was written in an extension of
/// the type, or the type is marked as extended as a whole.
pub open spec fn on_extension(directives: Seq<Component>, extends: Seq<char>) -> spec_fn(
    Component,
) -> bool {
    |application: Component|
        applies(directives, extends) || application.origin is Extension
}

/// The applications of the directive `key` on a type extension, where the directive `extends`
/// marks a type as extended as a whole.
pub open spec fn extension_keys(
    directives: Seq<Component>,
    key: Seq<char>,
    extends: Seq<char>,
) -> Seq<Component> {
    applications_of(directives, key).filter(on_extension(directives, extends))
}

/// Whether `targets` are the fields that the field set `fields` of the type `named_type` refers
/// to, where `collect_target_fields` finds them.
pub open spec fn field_set_targets<
    T: Fn(&Schema, &String, &String) -> Result<Vec<FieldDefinitionPosition>, FederationError>,
>(
    collect_target_fields: T,
    schema: Schema,
    named_type: String,
    fields: String,
    targets: Result<Seq<FieldKey>, ErrorView>,
) -> bool {
    exists|found: Result<Vec<FieldDefinitionPosition>, FederationError>|
        {
            &&& #[trigger] call_ensures(
                collect_target_fields,
                (&schema, &named_type, &fields),
                found,
            )
            &&& targets == match found {
                Ok(positions) => Ok(position_keys(positions@)),
                Err(error) => Err(error@),
            }
        }
}

/// Whether `targets` are the fields that a key application on the type `named_type` refers to,
/// where `key_directive_arguments` reads its arguments and `collect_target_fields` finds the
/// fields of its field set.
pub open spec fn key_targets<
    A: Fn(&Directive) -> Result<KeyDirectiveArguments, FederationError>,
    T: Fn(&Schema, &String, &String) -> Result<Vec<FieldDefinitionPosition>, FederationError>,
>(
    key_directive_arguments: A,
    collect_target_fields: T,
    schema: Schema,
    named_type: String,
    directive: Directive,
    targets: Result<Seq<FieldKey>, ErrorView>,
) -> bool {
    exists|arguments: Result<KeyDirectiveArguments, FederationError>|
        {
            &&& #[trigger] call_ensures(key_directive_arguments, (&directive,), arguments)
            &&& match arguments {
                Ok(key) => field_set_targets(
                    collect_target_fields,
                    schema,
                    named_type,
                    key.fields,
                    targets,
                ),
                Err(error) => targets == Err::<Seq<FieldKey>, ErrorView>(error@),
            }
        }
}

/// Whether a key application on the type `named_type` refers to the given fields.
pub open spec fn gives_key_targets<
    A: Fn(&Directive) -> Result<KeyDirectiveArguments, FederationError>,
    T: Fn(&Schema, &String, &String) -> Result<Vec<FieldDefinitionPosition>, FederationError>,
>(
    key_directive_arguments: A,
    collect_target_fields: T,
    schema: Schema,
    named_type: String,
) -> spec_fn(Component, Result<Seq<FieldKey>, ErrorView>) -> bool {
    |application: Component, targets: Result<Seq<FieldKey>, ErrorView>|
        key_targets(
            key_directive_arguments,
            collect_target_fields,
            schema,
            named_type,
            application.directive,
            targets,
        )
}

/// The lists found, one after the other.
pub open spec fn joined_outcome(found: Result<Seq<Seq<FieldKey>>, ErrorView>) -> Result<
    Seq<FieldKey>,
    ErrorView,
> {
    match found {
        Ok(lists) => Ok(joined(lists)),
        Err(error) => Err(error),
    }
}

/// Whether `targets` are the fields that the key applications `applications` on the type
/// `named_type` refer to.
pub open spec fn keys_target<
    A: Fn(&Directive) -> Result<KeyDirectiveArguments, FederationError>,
    T: Fn(&Schema, &String, &String) -> Result<Vec<FieldDefinitionPosition>, FederationError>,
>(
    key_directive_arguments: A,
    collect_target_fields: T,
    schema: Schema,
    named_type: String,
    applications: Seq<Component>,
    targets: Result<Seq<FieldKey>, ErrorView>,
) -> bool {
    exists|found: Result<Seq<Seq<FieldKey>>, ErrorView>|
        {
            &&& #[trigger] collects(
                applications,
                gives_key_targets(
                    key_directive_arguments,
                    collect_target_fields,
                    schema,
                    named_type,
                ),
                found,
            )
            &&& targets == joined_outcome(found)
        }
}

/// Whether `targets` are the fields that the keys on extensions of the type at `position` refer
/// to.
pub open spec fn type_targets<
    A: Fn(&Directive) -> Result<KeyDirectiveArguments, FederationError>,
    T: Fn(&Schema, &String, &String) -> Result<Vec<FieldDefinitionPosition>, FederationError>,
>(
    key_directive_arguments: A,
    collect_target_fields: T,
    schema: Schema,
    key: Seq<char>,
    extends: Seq<char>,
    position: ObjectOrInterfaceTypeDefinitionPosition,
    targets: Result<Seq<FieldKey>, ErrorView>,
) -> bool {
    match schema.type_directives(position) {
        Ok(directives) => keys_target(
            key_directive_arguments,
            collect_target_fields,
            schema,
            position.name(),
            extension_keys(directives, key, extends),
            targets,
        ),
        Err(error) => targets == Err::<Seq<FieldKey>, ErrorView>(error),
    }
}

/// Whether the keys on extensions of a type refer to the given fields.
pub open spec fn gives_type_targets<
    A: Fn(&Directive) -> Result<KeyDirectiveArguments, FederationError>,
    T: Fn(&Schema, &String, &String) -> Result<Vec<FieldDefinitionPosition>, FederationError>,
>(
    key_directive_arguments: A,
    collect_target_fields: T,
    schema: Schema,
    key: Seq<char>,
    extends: Seq<char>,
) -> spec_fn(
    ObjectOrInterfaceTypeDefinitionPosition,
    Result<Seq<FieldKey>, ErrorView>,
) -> bool {
    |
        position: ObjectOrInterfaceTypeDefinitionPosition,
        targets: Result<Seq<FieldKey>, ErrorView>,
    |
        type_targets(
            key_directive_arguments,
            collect_target_fields,
            schema,
            key,
            extends,
            position,
            targets,
        )
}

/// The object types, then the interface types with a directive.
pub open spec fn types_with(referencers: DirectiveReferencers) -> Seq<
    ObjectOrInterfaceTypeDefinitionPosition,
> {
    referencers.object_types@.map_values(
        |name: String| ObjectOrInterfaceTypeDefinitionPosition::Object(name),
    ) + referencers.interface_types@.map_values(
        |name: String| ObjectOrInterfaceTypeDefinitionPosition::Interface(name),
    )
}

/// Whether `outcome` is the set of the marked fields that the keys on extensions of the types at
/// `positions` refer to.
pub open spec fn filled_from_keys<
    A: Fn(&Directive) -> Result<KeyDirectiveArguments, FederationError>,
    T: Fn(&Schema, &String, &String) -> Result<Vec<FieldDefinitionPosition>, FederationError>,
>(
    key_directive_arguments: A,
    collect_target_fields: T,
    schema: Schema,
    key: Seq<char>,
    extends: Seq<char>,
    positions: Seq<ObjectOrInterfaceTypeDefinitionPosition>,
    is_marked: spec_fn(FieldKey) -> bool,
    outcome: Result<Seq<FieldKey>, ErrorView>,
) -> bool {
    exists|found: Result<Seq<Seq<FieldKey>>, ErrorView>|
        {
            &&& #[trigger] collects(
                positions,
                gives_type_targets(
                    key_directive_arguments,
                    collect_target_fields,
                    schema,
                    key,
                    extends,
                ),
                found,
            )
            &&& outcome == filled_with_marked(found, is_marked)
        }
}

/// Whether `outcome` is the set of the fields with an `@external` directive that keys on type
/// extensions refer to.
pub open spec fn fake_externals<
    A: Fn(&Directive) -> Result<KeyDirectiveArguments, FederationError>,
    T: Fn(&Schema, &String, &String) -> Result<Vec<FieldDefinitionPosition>, FederationError>,
>(
    key_directive_arguments: A,
    collect_target_fields: T,
    schema: FederationSchema,
    outcome: Result<Seq<FieldKey>, ErrorView>,
) -> bool {
    match (schema.definition("extends"@), schema.definition("key"@)) {
        (Err(error), _) => outcome == Err::<Seq<FieldKey>, ErrorView>(error),
        (Ok(_), Err(error)) => outcome == Err::<Seq<FieldKey>, ErrorView>(error),
        (Ok(extends), Ok(key)) => match schema.referencers.of(key@) {
            Ok(referencers) => filled_from_keys(
                key_directive_arguments,
                collect_target_fields,
                schema.schema,
                key@,
                extends@,
                types_with(referencers),
                marked(schema),
                outcome,
            ),
            Err(error) => outcome == Err::<Seq<FieldKey>, ErrorView>(error),
        },
    }
}

/// The first version of the federation specification under which an `@external` type has a
/// meaning.
pub open spec fn fed2() -> Version {
    Version { major: 2, minor: 0 }
}

/// Whether `outcome` is what the schema says about external fields: of the three collections the
/// first error, otherwise all three. Types with an `@external` directive count from the second
/// major version of the federation specification on.
pub open spec fn external_metadata<
    A: Fn(&Directive) -> Result<KeyDirectiveArguments, FederationError>,
    T: Fn(&Schema, &String, &String) -> Result<Vec<FieldDefinitionPosition>, FederationError>,
>(
    key_directive_arguments: A,
    collect_target_fields: T,
    federation_spec_definition: FederationSpecDefinition,
    schema: FederationSchema,
    outcome: Result<ExternalMetadataView, ErrorView>,
) -> bool {
    match outcome {
        Ok(metadata) => {
            &&& external_fields(schema) == Ok::<Seq<FieldKey>, ErrorView>(metadata.external_fields)
            &&& fake_externals(
                key_directive_arguments,
                collect_target_fields,
                schema,
                Ok(metadata.fake_external_fields),
            )
            &&& if federation_spec_definition.version.spec_satisfies(fed2()) {
                fields_on_external_types(schema, Ok(metadata.fields_on_external_types))
            } else {
                metadata.fields_on_external_types == Seq::<FieldKey>::empty()
            }
        },
        Err(error) => {
            ||| external_fields(schema) == Err::<Seq<FieldKey>, ErrorView>(error)
            ||| {
                &&& external_fields(schema) is Ok
                &&& fake_externals(
                    key_directive_arguments,
                    collect_target_fields,
                    schema,
                    Err(error),
                )
            }
            ||| {
                &&& external_fields(schema) is Ok
                &&& has_fake_externals(key_directive_arguments, collect_target_fields, schema)
                &&& federation_spec_definition.version.spec_satisfies(fed2())
                &&& fields_on_external_types(schema, Err(error))
            }
        },
    }
}

/// Whether the fields with an `@external` directive that keys on type extensions refer to can all
/// be found.
pub open spec fn has_fake_externals<
    A: Fn(&Directive) -> Result<KeyDirectiveArguments, FederationError>,
    T: Fn(&Schema, &String, &String) -> Result<Vec<FieldDefinitionPosition>, FederationError>,
>(key_directive_arguments: A, collect_target_fields: T, schema: FederationSchema) -> bool {
    exists|fields: Seq<FieldKey>|
        #[trigger] fake_externals(
            key_directive_arguments,
            collect_target_fields,
            schema,
            Ok(fields),
        )
}

/// No field is collected twice.
pub proof fn law_collected_once<
    A: Fn(&Directive) -> Result<KeyDirectiveArguments, FederationError>,
    T: Fn(&Schema, &String, &String) -> Result<Vec<FieldDefinitionPosition>, FederationError>,
>(
    key_directive_arguments: A,
    collect_target_fields: T,
    federation_spec_definition: FederationSpecDefinition,
    schema: FederationSchema,
    metadata: ExternalMetadataView,
)
    requires
        external_metadata(
            key_directive_arguments,
            collect_target_fields,
            federation_spec_definition,
            schema,
            Ok(metadata),
        ),
    ensures
        metadata.well_formed(),
{
    law_filled_set(Seq::empty(), fields_with(external_referencers(schema)->Ok_0));
    lemma_fake_externals_once(
        key_directive_arguments,
        collect_target_fields,
        schema,
        metadata.fake_external_fields,
    );
    if federation_spec_definition.version.spec_satisfies(fed2()) {
        let referencers = external_referencers(schema)->Ok_0;
        let found = choose|found: Result<Seq<Seq<FieldKey>>, ErrorView>|
            #[trigger] collects(
                referencers.object_types@,
                gives_fields(schema.schema),
                found,
            ) && Ok::<Seq<FieldKey>, ErrorView>(metadata.fields_on_external_types) == filled(found);
        law_filled_set(Seq::empty(), joined(found->Ok_0));
    }
}

/// No field is collected twice from the keys.
proof fn lemma_fake_externals_once<
    A: Fn(&Directive) -> Result<KeyDirectiveArguments, FederationError>,
    T: Fn(&Schema, &String, &String) -> Result<Vec<FieldDefinitionPosition>, FederationError>,
>(
    key_directive_arguments: A,
    collect_target_fields: T,
    schema: FederationSchema,
    fields: Seq<FieldKey>,
)
    requires
        fake_externals(key_directive_arguments, collect_target_fields, schema, Ok(fields)),
    ensures
        fields.no_duplicates(),
{
    let extends = schema.definition("extends"@)->Ok_0;
    let key = schema.definition("key"@)->Ok_0;
    let referencers = schema.referencers.of(key@)->Ok_0;
    let gives = gives_type_targets(
        key_directive_arguments,
        collect_target_fields,
        schema.schema,
        key@,
        extends@,
    );
    let is_marked = marked(schema);
    let found = choose|found: Result<Seq<Seq<FieldKey>>, ErrorView>|
        #[trigger] collects(types_with(referencers), gives, found) && Ok::<
            Seq<FieldKey>,
            ErrorView,
        >(fields) == filled_with_marked(found, is_marked);
    law_filled_set(Seq::empty(), joined(found->Ok_0).filter(is_marked));
}

/// A field that can't be external is not external.
pub proof fn law_fake_is_not_external(metadata: ExternalMetadataView, key: FieldKey)
    ensures
        !(metadata.is_fake_external(key) && metadata.is_external(key)),
{
}

/// Whether the field belongs to an object type among those named.
pub open spec fn on_type(schema: Schema, object_types: Seq<String>, key: FieldKey) -> bool {
    exists|i: int|
        0 <= i < object_types.len() && (schema.object_type(
            (#[trigger] object_types[i])@,
        ) matches Ok(node) && object_fields(object_types[i]@, node.fields@).contains(key))
}

/// The fields on external types are the fields of the object types that the referencers of
/// `@external` have.
pub proof fn law_fields_on_external_types(
    schema: FederationSchema,
    fields: Seq<FieldKey>,
    key: FieldKey,
)
    requires
        fields_on_external_types(schema, Ok(fields)),
    ensures
        fields.contains(key) <==> on_type(
            schema.schema,
            external_referencers(schema)->Ok_0.object_types@,
            key,
        ),
{
    let object_types = external_referencers(schema)->Ok_0.object_types@;
    let gives = gives_fields(schema.schema);
    let found = choose|found: Result<Seq<Seq<FieldKey>>, ErrorView>|
        #[trigger] collects(object_types, gives, found) && Ok::<Seq<FieldKey>, ErrorView>(fields)
            == filled(found);
    let lists = found->Ok_0;
    law_filled_set(Seq::empty(), joined(lists));
    law_joined_members(lists, key);
    assert forall|i: int| 0 <= i < object_types.len() implies {
        &&& schema.schema.object_type((#[trigger] object_types[i])@) matches Ok(node)
        &&& lists[i] == object_fields(object_types[i]@, node.fields@)
    } by {
        assert(gives(object_types[i], Ok(lists[i])));
    }
    if fields.contains(key) {
        let i = choose|i: int| 0 <= i < lists.len() && (#[trigger] lists[i]).contains(key);
        let named_type = object_types[i];
        assert(schema.schema.object_type(named_type@) is Ok);
    }
    if on_type(schema.schema, object_types, key) {
        let i = choose|i: int|
            0 <= i < object_types.len() && (schema.schema.object_type(
                (#[trigger] object_types[i])@,
            ) matches Ok(node) && object_fields(object_types[i]@, node.fields@).contains(key));
        assert(lists[i].contains(key));
    }
}

/// A field is external exactly if the referencers of `@external` have it, or from the second major
/// version of the federation specification on its type, and it is none of the fields that can't be
/// external.
pub proof fn law_what_is_external<
    A: Fn(&Directive) -> Result<KeyDirectiveArguments, FederationError>,
    T: Fn(&Schema, &String, &String) -> Result<Vec<FieldDefinitionPosition>, FederationError>,
>(
    key_directive_arguments: A,
    collect_target_fields: T,
    federation_spec_definition: FederationSpecDefinition,
    schema: FederationSchema,
    metadata: ExternalMetadataView,
    key: FieldKey,
)
    requires
        external_metadata(
            key_directive_arguments,
            collect_target_fields,
            federation_spec_definition,
            schema,
            Ok(metadata),
        ),
    ensures
        metadata.is_external(key) <==> {
            let referencers = external_referencers(schema)->Ok_0;
            &&& !metadata.is_fake_external(key)
            &&& {
                ||| fields_with(referencers).contains(key)
                ||| {
                    &&& federation_spec_definition.version.spec_satisfies(fed2())
                    &&& on_type(schema.schema, referencers.object_types@, key)
                }
            }
        },
{
    law_filled_set(Seq::empty(), fields_with(external_referencers(schema)->Ok_0));
    if federation_spec_definition.version.spec_satisfies(fed2()) {
        law_fields_on_external_types(schema, metadata.fields_on_external_types, key);
    }
}

/// The versions from which types with an `@external` directive count are those of the second
/// major version.
pub proof fn law_fed2_is_the_second_major_version(version: Version)
    ensures
        version.spec_satisfies(fed2()) <==> version.major == 2,
{
}

/// The directive `@extends` makes all keys of a type count.
pub proof fn law_extends_makes_all_keys_count(
    directives: Seq<Component>,
    key: Seq<char>,
    extends: Seq<char>,
)
    requires
        applies(directives, extends),
    ensures
        extension_keys(directives, key, extends) == applications_of(directives, key),
{
    lemma_all_pass(applications_of(directives, key), on_extension(directives, extends));
}

/// Without the directive `@extends`, exactly the keys that were written in an extension count.
pub proof fn law_keys_in_extensions_count(
    directives: Seq<Component>,
    key: Seq<char>,
    extends: Seq<char>,
)
    requires
        !applies(directives, extends),
    ensures
        extension_keys(directives, key, extends) == applications_of(directives, key).filter(
            |application: Component| application.origin is Extension,
        ),
{
    lemma_same_filter(
        applications_of(directives, key),
        on_extension(directives, extends),
        |application: Component| application.origin is Extension,
    );
}

/// Two filters that agree give the same.
proof fn lemma_same_filter(
    members: Seq<Component>,
    first: spec_fn(Component) -> bool,
    second: spec_fn(Component) -> bool,
)
    requires
        forall|member: Component| #[trigger] first(member) == second(member),
    ensures
        members.filter(first) == members.filter(second),
    decreases members.len(),
{
    reveal(Seq::filter);
    if members.len() > 0 {
        lemma_same_filter(members.drop_last(), first, second);
        assert(first(members.last()) == second(members.last()));
    }
}

/// Whether `key` is among the fields that the key application `application` refers to.
pub open spec fn key_refers_to<
    A: Fn(&Directive) -> Result<KeyDirectiveArguments, FederationError>,
    T: Fn(&Schema, &String, &String) -> Result<Vec<FieldDefinitionPosition>, FederationError>,
>(
    key_directive_arguments: A,
    collect_target_fields: T,
    schema: Schema,
    named_type: String,
    application: Component,
    key: FieldKey,
) -> bool {
    exists|targets: Seq<FieldKey>|
        #[trigger] key_targets(
            key_directive_arguments,
            collect_target_fields,
            schema,
            named_type,
            application.directive,
            Ok(targets),
        ) && targets.contains(key)
}

/// Whether some key that counts on the type at `position` refers to the field.
pub open spec fn type_refers_to<
    A: Fn(&Directive) -> Result<KeyDirectiveArguments, FederationError>,
    T: Fn(&Schema, &String, &String) -> Result<Vec<FieldDefinitionPosition>, FederationError>,
>(
    key_directive_arguments: A,
    collect_target_fields: T,
    schema: Schema,
    key_name: Seq<char>,
    extends: Seq<char>,
    position: ObjectOrInterfaceTypeDefinitionPosition,
    key: FieldKey,
) -> bool {
    schema.type_directives(position) matches Ok(directives) && exists|i: int|
        0 <= i < extension_keys(directives, key_name, extends).len() && key_refers_to(
            key_directive_arguments,
            collect_target_fields,
            schema,
            position.name(),
            #[trigger] extension_keys(directives, key_name, extends)[i],
            key,
        )
}

/// A field that a type gives is one that a key on the type refers to.
proof fn lemma_type_refers_to<
    A: Fn(&Directive) -> Result<KeyDirectiveArguments, FederationError>,
    T: Fn(&Schema, &String, &String) -> Result<Vec<FieldDefinitionPosition>, FederationError>,
>(
    key_directive_arguments: A,
    collect_target_fields: T,
    schema: Schema,
    key_name: Seq<char>,
    extends: Seq<char>,
    position: ObjectOrInterfaceTypeDefinitionPosition,
    targets: Seq<FieldKey>,
    key: FieldKey,
)
    requires
        type_targets(
            key_directive_arguments,
            collect_target_fields,
            schema,
            key_name,
            extends,
            position,
            Ok(targets),
        ),
        targets.contains(key),
    ensures
        type_refers_to(
            key_directive_arguments,
            collect_target_fields,
            schema,
            key_name,
            extends,
            position,
            key,
        ),
{
    let directives = schema.type_directives(position)->Ok_0;
    let applications = extension_keys(directives, key_name, extends);
    let gives = gives_key_targets(
        key_directive_arguments,
        collect_target_fields,
        schema,
        position.name(),
    );
    let found = choose|found: Result<Seq<Seq<FieldKey>>, ErrorView>|
        #[trigger] collects(applications, gives, found) && Ok::<Seq<FieldKey>, ErrorView>(targets)
            == joined_outcome(found);
    let lists = found->Ok_0;
    law_joined_members(lists, key);
    let i = choose|i: int| 0 <= i < lists.len() && (#[trigger] lists[i]).contains(key);
    assert(gives(applications[i], Ok(lists[i])));
    assert(key_targets(
        key_directive_arguments,
        collect_target_fields,
        schema,
        position.name(),
        applications[i].directive,
        Ok(lists[i]),
    ));
    assert(key_refers_to(
        key_directive_arguments,
        collect_target_fields,
        schema,
        position.name(),
        applications[i],
        key,
    ));
}

/// The members that pass a filter are the members of the filtered sequence.
pub(crate) proof fn lemma_filter_members<A>(members: Seq<A>, pass: spec_fn(A) -> bool, member: A)
    ensures
        members.filter(pass).contains(member) <==> members.contains(member) && pass(member),
{
    broadcast use vstd::seq_lib::group_filter_ensures;

    if members.filter(pass).contains(member) {
        members.lemma_filter_contains_rev(pass, member);
        let i = choose|i: int|
            0 <= i < members.filter(pass).len() && members.filter(pass)[i] == member;
        assert(pass(members.filter(pass)[i]));
    }
    if members.contains(member) && pass(member) {
        let i = choose|i: int| 0 <= i < members.len() && members[i] == member;
        assert(members.filter(pass).contains(members[i]));
    }
}

/// A field that can't be external is one with an `@external` directive that a key refers to that
/// counts on a type with the directive `@key`.
pub proof fn law_fake_externals_are_in_keys<
    A: Fn(&Directive) -> Result<KeyDirectiveArguments, FederationError>,
    T: Fn(&Schema, &String, &String) -> Result<Vec<FieldDefinitionPosition>, FederationError>,
>(
    key_directive_arguments: A,
    collect_target_fields: T,
    schema: FederationSchema,
    fields: Seq<FieldKey>,
    key: FieldKey,
)
    requires
        fake_externals(key_directive_arguments, collect_target_fields, schema, Ok(fields)),
        fields.contains(key),
    ensures
        external_referencers(schema) is Ok,
        fields_with(external_referencers(schema)->Ok_0).contains(key),
        ({
            let key_name = schema.definition("key"@)->Ok_0@;
            let positions = types_with(schema.referencers.of(key_name)->Ok_0);
            exists|i: int|
                0 <= i < positions.len() && type_refers_to(
                    key_directive_arguments,
                    collect_target_fields,
                    schema.schema,
                    key_name,
                    schema.definition("extends"@)->Ok_0@,
                    #[trigger] positions[i],
                    key,
                )
        }),
{
    let key_name = schema.definition("key"@)->Ok_0@;
    let extends = schema.definition("extends"@)->Ok_0@;
    let positions = types_with(schema.referencers.of(key_name)->Ok_0);
    let gives = gives_type_targets(
        key_directive_arguments,
        collect_target_fields,
        schema.schema,
        key_name,
        extends,
    );
    let is_marked = marked(schema);
    let found = choose|found: Result<Seq<Seq<FieldKey>>, ErrorView>|
        #[trigger] collects(positions, gives, found) && Ok::<Seq<FieldKey>, ErrorView>(fields)
            == filled_with_marked(found, is_marked);
    let lists = found->Ok_0;
    law_filled_set(Seq::empty(), joined(lists).filter(is_marked));
    lemma_filter_members(joined(lists), is_marked, key);
    law_joined_members(lists, key);
    let i = choose|i: int| 0 <= i < lists.len() && (#[trigger] lists[i]).contains(key);
    assert(gives(positions[i], Ok(lists[i])));
    lemma_type_refers_to(
        key_directive_arguments,
        collect_target_fields,
        schema.schema,
        key_name,
        extends,
        positions[i],
        lists[i],
        key,
    );
}

/// No field with an `@external` directive that a key of a type refers to can be external: for each
/// key that counts on a type with the directive `@key`, those of the fields found for it that have
/// an `@external` directive are among the fields that can't be external.
pub proof fn law_key_fields_are_fake_externals<
    A: Fn(&Directive) -> Result<KeyDirectiveArguments, FederationError>,
    T: Fn(&Schema, &String, &String) -> Result<Vec<FieldDefinitionPosition>, FederationError>,
>(
    key_directive_arguments: A,
    collect_target_fields: T,
    schema: FederationSchema,
    fields: Seq<FieldKey>,
    i: int,
    j: int,
)
    requires
        fake_externals(key_directive_arguments, collect_target_fields, schema, Ok(fields)),
        0 <= i < types_with(
            schema.referencers.of(schema.definition("key"@)->Ok_0@)->Ok_0,
        ).len(),
        0 <= j < extension_keys(
            schema.schema.type_directives(
                types_with(schema.referencers.of(schema.definition("key"@)->Ok_0@)->Ok_0)[i],
            )->Ok_0,
            schema.definition("key"@)->Ok_0@,
            schema.definition("extends"@)->Ok_0@,
        ).len(),
    ensures
        ({
            let key_name = schema.definition("key"@)->Ok_0@;
            let position = types_with(schema.referencers.of(key_name)->Ok_0)[i];
            let directives = schema.schema.type_directives(position)->Ok_0;
            let extends = schema.definition("extends"@)->Ok_0@;
            exists|targets: Seq<FieldKey>|
                {
                    &&& #[trigger] key_targets(
                        key_directive_arguments,
                        collect_target_fields,
                        schema.schema,
                        position.name(),
                        extension_keys(directives, key_name, extends)[j].directive,
                        Ok(targets),
                    )
                    &&& forall|key: FieldKey|
                        #[trigger] targets.contains(key) && marked(schema)(key)
                            ==> fields.contains(key)
                }
        }),
{
    let key_name = schema.definition("key"@)->Ok_0@;
    let extends = schema.definition("extends"@)->Ok_0@;
    let positions = types_with(schema.referencers.of(key_name)->Ok_0);
    let position = positions[i];
    let is_marked = marked(schema);
    let type_gives = gives_type_targets(
        key_directive_arguments,
        collect_target_fields,
        schema.schema,
        key_name,
        extends,
    );
    let found = choose|found: Result<Seq<Seq<FieldKey>>, ErrorView>|
        #[trigger] collects(positions, type_gives, found) && Ok::<Seq<FieldKey>, ErrorView>(fields)
            == filled_with_marked(found, is_marked);
    let lists = found->Ok_0;
    assert(type_gives(position, Ok(lists[i])));
    let applications = extension_keys(
        schema.schema.type_directives(position)->Ok_0,
        key_name,
        extends,
    );
    let gives = gives_key_targets(
        key_directive_arguments,
        collect_target_fields,
        schema.schema,
        position.name(),
    );
    let inner = choose|inner: Result<Seq<Seq<FieldKey>>, ErrorView>|
        #[trigger] collects(applications, gives, inner) && Ok::<Seq<FieldKey>, ErrorView>(lists[i])
            == joined_outcome(inner);
    let targets = inner->Ok_0[j];
    assert(gives(applications[j], Ok(targets)));
    assert(key_targets(
        key_directive_arguments,
        collect_target_fields,
        schema.schema,
        position.name(),
        applications[j].directive,
        Ok(targets),
    ));
    law_filled_set(Seq::empty(), joined(lists).filter(is_marked));
    assert forall|key: FieldKey| #[trigger]
        targets.contains(key) && is_marked(key) implies fields.contains(key) by {
        lemma_filter_members(joined(lists), is_marked, key);
        law_joined_members(inner->Ok_0, key);
        law_joined_members(lists, key);
        assert(lists[i].contains(key));
    }
}

/// A selection set selects an external field exactly if one of its selections is an external
/// field or has a selection set that selects one.
pub proof fn law_selects_here_or_within(
    metadata: ExternalMetadataView,
    selection_set: SelectionSet,
)
    ensures
        metadata.selects_external(selection_set) <==> exists|i: int|
            {
                &&& 0 <= i < selection_set.selections@.len()
                &&& {
                    ||| #[trigger] selection_set.selections@[i] matches Selection::Field(field)
                        && metadata.is_external(field.field_position@)
                    ||| selection_set.selections@[i].inner() matches Some(inner)
                        && metadata.selects_external(inner)
                }
            },
{
    let selections = selection_set.selections@;
    if metadata.selects_external(selection_set) {
        let key = choose|key: FieldKey|
            #[trigger] selection_set.selects(key) && metadata.is_external(key);
        let i = choose|i: int| 0 <= i < selections.len() && (#[trigger] selections[i]).selects(key);
        if let Some(inner) = selections[i].inner() {
            assert(inner.selects(key) ==> metadata.selects_external(inner));
        }
    }
    if exists|i: int|
        {
            &&& 0 <= i < selections.len()
            &&& {
                ||| #[trigger] selections[i] matches Selection::Field(field)
                    && metadata.is_external(field.field_position@)
                ||| selections[i].inner() matches Some(inner) && metadata.selects_external(inner)
            }
        } {
        let i = choose|i: int|
            {
                &&& 0 <= i < selections.len()
                &&& {
                    ||| #[trigger] selections[i] matches Selection::Field(field)
                        && metadata.is_external(field.field_position@)
                    ||| selections[i].inner() matches Some(inner)
                        && metadata.selects_external(inner)
                }
            };
        let key = if selections[i] matches Selection::Field(field) && metadata.is_external(
            field.field_position@,
        ) {
            selections[i]->Field_0.field_position@
        } else {
            let inner = selections[i].inner()->Some_0;
            choose|key: FieldKey| #[trigger] inner.selects(key) && metadata.is_external(key)
        };
        assert(selections[i].selects(key));
        assert(selection_set.selects(key));
    }
}

} // verus!
