//! What is collected about external fields, told from the data of a schema.
//!
//! The laws speak of the referencers, types, directives and selections as a schema and an operation
//! hold them, and of what the functions that were passed in gave for a key.

use crate::ast::applications_of;
use crate::ast::applies;
use crate::ast::law_applications_in_order;
use crate::ast::Component;
use crate::ast::Directive;
use crate::ast::FieldsType;
use crate::ast::Schema;
use crate::collecting::collects;
use crate::collecting::joined;
use crate::collecting::law_joined_members;
use crate::collections::law_filled_in_order;
use crate::collections::law_filled_set;
use crate::collections::law_filtered_in_order;
use crate::connect::reading_laws::lemma_first_failure_of;
use crate::error::ErrorView;
use crate::error::FederationError;
use crate::external::extension_keys;
use crate::external::external_fields;
use crate::external::external_metadata;
use crate::external::external_referencers;
use crate::external::fake_externals;
use crate::external::field_set_targets;
use crate::external::fields_on_external_types;
use crate::external::filled;
use crate::external::filled_with_marked;
use crate::external::gives_fields;
use crate::external::gives_key_targets;
use crate::external::gives_type_targets;
use crate::external::joined_outcome;
use crate::external::key_targets;
use crate::external::keys_target;
use crate::external::lemma_filter_members;
use crate::external::marked;
use crate::external::object_fields;
use crate::external::on_extension;
use crate::external::position_keys;
use crate::external::type_targets;
use crate::external::types_with;
use crate::external::ExternalMetadataView;
use crate::federation::fields_with;
use crate::federation::law_directives_of_a_type;
use crate::federation::law_fields_with_a_directive;
use crate::federation::DirectiveReferencers;
use crate::federation::FederationSchema;
use crate::federation::FederationSpecDefinition;
use crate::federation::KeyDirectiveArguments;
use crate::operation::Selection;
use crate::operation::SelectionSet;
use crate::position::FieldDefinitionPosition;
use crate::position::FieldKey;
use crate::position::ObjectOrInterfaceTypeDefinitionPosition;
use vstd::prelude::*;

verus! {

/// A field is external exactly if it was collected as external or from an external type, and not as
/// one that can't be; and it is one that can't be exactly if it was collected as such.
pub proof fn law_external_by_collections(metadata: ExternalMetadataView, key: FieldKey)
    ensures
        metadata.is_fake_external(key) <==> metadata.fake_external_fields.contains(key),
        metadata.is_external(key) <==> (metadata.external_fields.contains(key)
            || metadata.fields_on_external_types.contains(key))
            && !metadata.fake_external_fields.contains(key),
{
}

/// A selection set selects an external field exactly if one of its selections does: a field that is
/// external or of whose value an external field is selected, or a fragment in which one is selected.
pub proof fn law_selects_by_selections(metadata: ExternalMetadataView, selection_set: SelectionSet)
    ensures
        metadata.selects_external(selection_set) <==> exists|i: int|
            0 <= i < selection_set.selections@.len()
                && match #[trigger] selection_set.selections@[i] {
                Selection::Field(field) => {
                    ||| metadata.is_external(field.field_position@)
                    ||| field.selection_set matches Some(nested) && metadata.selects_external(
                        nested,
                    )
                },
                Selection::InlineFragment(fragment) => metadata.selects_external(
                    fragment.selection_set,
                ),
            },
{
    let selections = selection_set.selections@;
    if metadata.selects_external(selection_set) {
        let key = choose|key: FieldKey| #[trigger]
            selection_set.selects(key) && metadata.is_external(key);
        let i = choose|i: int|
            0 <= i < selections.len() && (#[trigger] selections[i]).selects(key);
        match selections[i] {
            Selection::Field(field) => {
                if let Some(nested) = field.selection_set {
                    assert(nested.selects(key) ==> metadata.selects_external(nested));
                }
            },
            Selection::InlineFragment(fragment) => {
                assert(fragment.selection_set.selects(key));
            },
        }
    }
    assert forall|i: int| 0 <= i < selections.len() && (match #[trigger] selections[i] {
        Selection::Field(field) => {
            ||| metadata.is_external(field.field_position@)
            ||| field.selection_set matches Some(nested) && metadata.selects_external(nested)
        },
        Selection::InlineFragment(fragment) => metadata.selects_external(fragment.selection_set),
    }) implies metadata.selects_external(selection_set) by {
        let key = match selections[i] {
            Selection::Field(field) => if metadata.is_external(field.field_position@) {
                field.field_position@
            } else {
                let nested = field.selection_set->Some_0;
                choose|key: FieldKey| #[trigger] nested.selects(key) && metadata.is_external(key)
            },
            Selection::InlineFragment(fragment) => choose|key: FieldKey| #[trigger]
                fragment.selection_set.selects(key) && metadata.is_external(key),
        };
        assert(selections[i].selects(key));
        assert(selection_set.selects(key));
    }
}

/// An external field is seen at any depth: in `chain` each selection set is what the one before it
/// selects of a field or in a fragment, at the index that `path` tells; if the last one selects an
/// external field itself, the first one selects an external field.
pub proof fn law_selects_at_any_depth(
    metadata: ExternalMetadataView,
    chain: Seq<SelectionSet>,
    path: Seq<int>,
)
    requires
        chain.len() > 0,
        path.len() == chain.len(),
        forall|n: int|
            0 <= n < chain.len() ==> 0 <= #[trigger] path[n] < chain[n].selections@.len(),
        forall|n: int|
            0 <= n < chain.len() - 1 ==> match chain[n].selections@[#[trigger] path[n]] {
                Selection::Field(field) => field.selection_set == Some(chain[n + 1]),
                Selection::InlineFragment(fragment) => fragment.selection_set == chain[n + 1],
            },
        chain.last().selections@[path.last()] matches Selection::Field(field)
            && metadata.is_external(field.field_position@),
    ensures
        metadata.selects_external(chain[0]),
    decreases chain.len(),
{
    law_selects_by_selections(metadata, chain[0]);
    if chain.len() == 1 {
        assert(chain[0].selections@[path[0]] is Field);
    } else {
        let rest = chain.drop_first();
        let steps = path.drop_first();
        assert forall|n: int| 0 <= n < rest.len() implies 0 <= #[trigger] steps[n]
            < rest[n].selections@.len() by {
            assert(steps[n] == path[n + 1]);
        }
        assert forall|n: int| 0 <= n < rest.len() - 1 implies (match rest[n].selections@[
            #[trigger] steps[n]
        ] {
            Selection::Field(field) => field.selection_set == Some(rest[n + 1]),
            Selection::InlineFragment(fragment) => fragment.selection_set == rest[n + 1],
        }) by {
            assert(steps[n] == path[n + 1]);
        }
        law_selects_at_any_depth(metadata, rest, steps);
        assert(0 <= path[0] < chain[0].selections@.len());
        assert(rest[0] == chain[1]);
        let selection = chain[0].selections@[path[0]];
        assert(match selection {
            Selection::Field(field) => field.selection_set == Some(chain[1]),
            Selection::InlineFragment(fragment) => fragment.selection_set == chain[1],
        });
    }
}

/// Where `@external` is applied is what the schema has recorded for its name of `@external`.
pub proof fn law_referencers_of_external(schema: FederationSchema)
    ensures
        match schema.definition("external"@) {
            Ok(name) => external_referencers(schema) == schema.referencers.of(name@),
            Err(error) => external_referencers(schema) == Err::<DirectiveReferencers, ErrorView>(
                error,
            ),
        },
{
}

/// The fields collected as external are the recorded ones, each once, in the order in which they are
/// recorded, object fields before interface fields: the one at `n` is first recorded at `places[n]`,
/// where the interface fields are counted after the object fields. All recorded fields are there.
pub proof fn law_recorded_fields_are_collected(
    schema: FederationSchema,
    fields: Seq<FieldKey>,
) -> (places: Seq<int>)
    requires
        external_fields(schema) == Ok::<Seq<FieldKey>, ErrorView>(fields),
    ensures
        external_referencers(schema) is Ok,
        ({
            let recorded = external_referencers(schema)->Ok_0;
            let objects = recorded.object_fields@;
            let interfaces = recorded.interface_fields@;
            &&& forall|i: int|
                0 <= i < objects.len() ==> fields.contains(
                    (0u8, (#[trigger] objects[i]).named_type@, objects[i].field_name@),
                )
            &&& forall|i: int|
                0 <= i < interfaces.len() ==> fields.contains(
                    (1u8, (#[trigger] interfaces[i]).named_type@, interfaces[i].field_name@),
                )
            &&& places.len() == fields.len()
            &&& forall|n: int|
                0 <= n < fields.len() ==> {
                    let i = #[trigger] places[n];
                    &&& 0 <= i < objects.len() + interfaces.len()
                    &&& i < objects.len() ==> fields[n] == (
                        0u8,
                        objects[i].named_type@,
                        objects[i].field_name@,
                    )
                    &&& i >= objects.len() ==> fields[n] == (
                        1u8,
                        interfaces[i - objects.len()].named_type@,
                        interfaces[i - objects.len()].field_name@,
                    )
                }
            &&& forall|n: int, m: int|
                #![trigger places[n], places[m]]
                0 <= n < m < fields.len() ==> places[n] < places[m]
            &&& fields.no_duplicates()
        }),
{
    let recorded = external_referencers(schema)->Ok_0;
    let keys = fields_with(recorded);
    law_fields_with_a_directive(recorded);
    law_filled_set(Seq::empty(), keys);
    let places = law_filled_in_order(keys);
    let objects = recorded.object_fields@;
    let interfaces = recorded.interface_fields@;
    assert forall|i: int| 0 <= i < objects.len() implies fields.contains(
        (0u8, (#[trigger] objects[i]).named_type@, objects[i].field_name@),
    ) by {
        assert(keys.contains(keys[i]));
    }
    assert forall|i: int| 0 <= i < interfaces.len() implies fields.contains(
        (1u8, (#[trigger] interfaces[i]).named_type@, interfaces[i].field_name@),
    ) by {
        assert(keys.contains(keys[objects.len() + i]));
    }
    assert forall|n: int| 0 <= n < fields.len() implies {
        let i = #[trigger] places[n];
        &&& 0 <= i < objects.len() + interfaces.len()
        &&& i < objects.len() ==> fields[n] == (
            0u8,
            objects[i].named_type@,
            objects[i].field_name@,
        )
        &&& i >= objects.len() ==> fields[n] == (
            1u8,
            interfaces[i - objects.len()].named_type@,
            interfaces[i - objects.len()].field_name@,
        )
    } by {
        let i = places[n];
        if i >= objects.len() {
            assert(keys[objects.len() + (i - objects.len())] == keys[i]);
            assert(interfaces[i - objects.len()].named_type@ == keys[i].1);
        } else {
            assert(objects[i].named_type@ == keys[i].1);
        }
    }
    places
}

/// The fields with an `@external` directive can't be collected exactly if nothing is recorded for it.
pub proof fn law_external_fields_fail(schema: FederationSchema, error: ErrorView)
    ensures
        external_fields(schema) == Err::<Seq<FieldKey>, ErrorView>(error)
            <==> external_referencers(schema) == Err::<DirectiveReferencers, ErrorView>(error),
{
}

/// The fields of an object type are all its fields, in order.
pub proof fn law_fields_of_an_object_type(named_type: Seq<char>, node: FieldsType, i: int)
    requires
        0 <= i < node.fields@.len(),
    ensures
        object_fields(named_type, node.fields@).len() == node.fields@.len(),
        object_fields(named_type, node.fields@)[i] == (0u8, named_type, node.fields@[i].0@),
{
}

/// The types with a directive are the recorded object types, then the recorded interface types, all of
/// them in order.
pub proof fn law_types_with_a_directive(referencers: DirectiveReferencers)
    ensures
        types_with(referencers).len() == referencers.object_types@.len()
            + referencers.interface_types@.len(),
        forall|i: int|
            0 <= i < referencers.object_types@.len() ==> types_with(referencers)[i]
                == ObjectOrInterfaceTypeDefinitionPosition::Object(
                #[trigger] referencers.object_types@[i],
            ),
        forall|i: int|
            0 <= i < referencers.interface_types@.len() ==> types_with(
                referencers,
            )[referencers.object_types@.len() + i]
                == ObjectOrInterfaceTypeDefinitionPosition::Interface(
                #[trigger] referencers.interface_types@[i],
            ),
{
}

/// What is collected from external types are the fields of the recorded object types: all of them, in
/// the order of `lists`, which has the fields of each type, and nothing else. Every recorded type is
/// found.
pub proof fn law_fields_of_recorded_types_are_collected(
    schema: FederationSchema,
    fields: Seq<FieldKey>,
) -> (lists: Seq<Seq<FieldKey>>)
    requires
        fields_on_external_types(schema, Ok(fields)),
    ensures
        external_referencers(schema) is Ok,
        ({
            let recorded = external_referencers(schema)->Ok_0.object_types@;
            &&& lists.len() == recorded.len()
            &&& forall|i: int|
                0 <= i < recorded.len() ==> {
                    &&& schema.schema.object_type((#[trigger] recorded[i])@) matches Ok(node)
                    &&& lists[i].len() == node.fields@.len()
                    &&& forall|f: int|
                        0 <= f < node.fields@.len() ==> {
                            &&& #[trigger] lists[i][f] == (
                                0u8,
                                recorded[i]@,
                                node.fields@[f].0@,
                            )
                            &&& fields.contains(lists[i][f])
                        }
                }
            &&& forall|key: FieldKey| #[trigger]
                fields.contains(key) ==> exists|i: int|
                    0 <= i < lists.len() && (#[trigger] lists[i]).contains(key)
            &&& fields.no_duplicates()
            &&& forall|n: int, m: int|
                #![trigger fields[n], fields[m]]
                0 <= n < m < fields.len() ==> joined(lists).index_of_first(fields[n]) is Some
                    && joined(lists).index_of_first(fields[m]) is Some && joined(
                    lists,
                ).index_of_first(fields[n])->Some_0 < joined(lists).index_of_first(
                    fields[m],
                )->Some_0
        }),
{
    let recorded = external_referencers(schema)->Ok_0.object_types@;
    let gives = gives_fields(schema.schema);
    let found = choose|found: Result<Seq<Seq<FieldKey>>, ErrorView>| #[trigger]
        collects(recorded, gives, found) && Ok::<Seq<FieldKey>, ErrorView>(fields) == filled(found);
    let lists = found->Ok_0;
    law_filled_set(Seq::empty(), joined(lists));
    assert forall|i: int| 0 <= i < recorded.len() implies {
        &&& schema.schema.object_type((#[trigger] recorded[i])@) matches Ok(node)
        &&& lists[i].len() == node.fields@.len()
        &&& forall|f: int|
            0 <= f < node.fields@.len() ==> {
                &&& #[trigger] lists[i][f] == (0u8, recorded[i]@, node.fields@[f].0@)
                &&& fields.contains(lists[i][f])
            }
    } by {
        assert(gives(recorded[i], Ok(lists[i])));
        let node = schema.schema.object_type(recorded[i]@)->Ok_0;
        assert(lists[i] == object_fields(recorded[i]@, node.fields@));
        assert forall|f: int| 0 <= f < node.fields@.len() implies {
            &&& #[trigger] lists[i][f] == (0u8, recorded[i]@, node.fields@[f].0@)
            &&& fields.contains(lists[i][f])
        } by {
            assert(lists[i].contains(lists[i][f]));
            law_joined_members(lists, lists[i][f]);
        }
    }
    assert forall|key: FieldKey| #[trigger] fields.contains(key) implies exists|i: int|
        0 <= i < lists.len() && (#[trigger] lists[i]).contains(key) by {
        law_joined_members(lists, key);
    }
    let places = law_filled_in_order(joined(lists));
    assert forall|n: int, m: int|
        #![trigger fields[n], fields[m]]
        0 <= n < m < fields.len() implies joined(lists).index_of_first(fields[n]) is Some && joined(
        lists,
    ).index_of_first(fields[m]) is Some && joined(lists).index_of_first(fields[n])->Some_0
        < joined(lists).index_of_first(fields[m])->Some_0 by {
        lemma_first_place(joined(lists), fields[n], places[n]);
        lemma_first_place(joined(lists), fields[m], places[m]);
        assert(places[n] < places[m]);
    }
    lists
}

/// The index of the first occurrence.
proof fn lemma_first_place(keys: Seq<FieldKey>, key: FieldKey, i: int)
    requires
        0 <= i < keys.len(),
        keys[i] == key,
        forall|j: int| 0 <= j < i ==> #[trigger] keys[j] != key,
    ensures
        keys.index_of_first(key) == Some(i),
{
    keys.index_of_first_ensures(key);
}

/// The fields of external types can't be collected exactly if nothing is recorded for `@external`, or
/// a recorded object type is missing: the first missing one, at the index given back, gives the error.
pub proof fn law_external_type_is_missing(schema: FederationSchema, error: ErrorView) -> (k: int)
    requires
        fields_on_external_types(schema, Err(error)),
    ensures
        match external_referencers(schema) {
            Ok(referencers) => {
                let recorded = referencers.object_types@;
                &&& 0 <= k < recorded.len()
                &&& schema.schema.object_type(recorded[k]@) == Err::<FieldsType, ErrorView>(error)
                &&& forall|i: int|
                    0 <= i < k ==> schema.schema.object_type((#[trigger] recorded[i])@) is Ok
            },
            Err(cause) => error == cause,
        },
{
    match external_referencers(schema) {
        Ok(referencers) => {
            let recorded = referencers.object_types@;
            let gives = gives_fields(schema.schema);
            let found = choose|found: Result<Seq<Seq<FieldKey>>, ErrorView>| #[trigger]
                collects(recorded, gives, found) && Err::<Seq<FieldKey>, ErrorView>(error)
                    == filled(found);
            let (k, before) = lemma_first_failure_of(recorded, gives, error);
            assert forall|i: int| 0 <= i < k implies schema.schema.object_type(
                (#[trigger] recorded[i])@,
            ) is Ok by {
                assert(gives(recorded[i], Ok(before[i])));
            }
            k
        },
        Err(_) => 0,
    }
}

/// What a key application refers to is what was found for the field set that its arguments were read
/// as, all of it, in order, on whatever type a field is. The arguments and the fields are given back.
pub proof fn law_targets_of_a_key<
    A: Fn(&Directive) -> Result<KeyDirectiveArguments, FederationError>,
    T: Fn(&Schema, &String, &String) -> Result<Vec<FieldDefinitionPosition>, FederationError>,
>(
    key_directive_arguments: A,
    collect_target_fields: T,
    schema: Schema,
    named_type: String,
    directive: Directive,
    targets: Seq<FieldKey>,
) -> (found: (KeyDirectiveArguments, Vec<FieldDefinitionPosition>))
    requires
        key_targets(
            key_directive_arguments,
            collect_target_fields,
            schema,
            named_type,
            directive,
            Ok(targets),
        ),
    ensures
        call_ensures(key_directive_arguments, (&directive,), Ok(found.0)),
        call_ensures(collect_target_fields, (&schema, &named_type, &found.0.fields), Ok(found.1)),
        targets.len() == found.1@.len(),
        forall|i: int|
            0 <= i < targets.len() ==> match #[trigger] found.1@[i] {
                FieldDefinitionPosition::Object(field) => targets[i] == (
                    0u8,
                    field.named_type@,
                    field.field_name@,
                ),
                FieldDefinitionPosition::Interface(field) => targets[i] == (
                    1u8,
                    field.named_type@,
                    field.field_name@,
                ),
                FieldDefinitionPosition::Union(field) => targets[i] == (
                    2u8,
                    field.named_type@,
                    Seq::<char>::empty(),
                ),
            },
{
    let read: Result<Seq<FieldKey>, ErrorView> = Ok(targets);
    let arguments = choose|arguments: Result<KeyDirectiveArguments, FederationError>|
        {
            &&& #[trigger] call_ensures(key_directive_arguments, (&directive,), arguments)
            &&& match arguments {
                Ok(key) => field_set_targets(
                    collect_target_fields,
                    schema,
                    named_type,
                    key.fields,
                    read,
                ),
                Err(error) => read == Err::<Seq<FieldKey>, ErrorView>(error@),
            }
        };
    let key = arguments->Ok_0;
    assert(arguments == Ok::<KeyDirectiveArguments, FederationError>(key));
    assert(field_set_targets(collect_target_fields, schema, named_type, key.fields, read));
    let found = choose|found: Result<Vec<FieldDefinitionPosition>, FederationError>|
        {
            &&& #[trigger] call_ensures(
                collect_target_fields,
                (&schema, &named_type, &key.fields),
                found,
            )
            &&& read == match found {
                Ok(positions) => Ok(position_keys(positions@)),
                Err(error) => Err(error@),
            }
        };
    let positions = found->Ok_0;
    assert(found == Ok::<Vec<FieldDefinitionPosition>, FederationError>(positions));
    assert(targets == position_keys(positions@));
    (key, positions)
}

/// A key application has no targets exactly if its arguments can't be read, or the fields of its field
/// set can't be found; the error is the one that came back.
pub proof fn law_key_can_not_be_read<
    A: Fn(&Directive) -> Result<KeyDirectiveArguments, FederationError>,
    T: Fn(&Schema, &String, &String) -> Result<Vec<FieldDefinitionPosition>, FederationError>,
>(
    key_directive_arguments: A,
    collect_target_fields: T,
    schema: Schema,
    named_type: String,
    directive: Directive,
    error: ErrorView,
)
    requires
        key_targets(
            key_directive_arguments,
            collect_target_fields,
            schema,
            named_type,
            directive,
            Err(error),
        ),
    ensures
        (exists|cause: FederationError| #[trigger]
            call_ensures(key_directive_arguments, (&directive,), Err(cause)) && cause@ == error) || (
        exists|arguments: KeyDirectiveArguments, cause: FederationError|
            #[trigger] call_ensures(key_directive_arguments, (&directive,), Ok(arguments))
                && #[trigger] call_ensures(
                collect_target_fields,
                (&schema, &named_type, &arguments.fields),
                Err(cause),
            ) && cause@ == error),
{
    let read: Result<Seq<FieldKey>, ErrorView> = Err(error);
    let arguments = choose|arguments: Result<KeyDirectiveArguments, FederationError>|
        {
            &&& #[trigger] call_ensures(key_directive_arguments, (&directive,), arguments)
            &&& match arguments {
                Ok(key) => field_set_targets(
                    collect_target_fields,
                    schema,
                    named_type,
                    key.fields,
                    read,
                ),
                Err(error) => read == Err::<Seq<FieldKey>, ErrorView>(error@),
            }
        };
    match arguments {
        Ok(key) => {
            assert(call_ensures(key_directive_arguments, (&directive,), Ok(key)));
            assert(field_set_targets(
                collect_target_fields,
                schema,
                named_type,
                key.fields,
                read,
            ));
            let found = choose|found: Result<Vec<FieldDefinitionPosition>, FederationError>|
                {
                    &&& #[trigger] call_ensures(
                        collect_target_fields,
                        (&schema, &named_type, &key.fields),
                        found,
                    )
                    &&& read == match found {
                        Ok(positions) => Ok(position_keys(positions@)),
                        Err(error) => Err(error@),
                    }
                };
            let cause = found->Err_0;
            assert(call_ensures(
                collect_target_fields,
                (&schema, &named_type, &key.fields),
                Err(cause),
            ));
        },
        Err(cause) => {
            assert(call_ensures(key_directive_arguments, (&directive,), Err(cause)));
        },
    }
}

/// The keys that count on a type are its applications of the directive `key` that were written in an
/// extension, or all of them where the directive `extends` is among its directives. The one at `n` is
/// written at `places[n]`; they are in order, each once.
pub proof fn law_keys_that_count(
    directives: Seq<Component>,
    key: Seq<char>,
    extends: Seq<char>,
) -> (places: Seq<int>)
    ensures
        places.len() == extension_keys(directives, key, extends).len(),
        forall|n: int|
            0 <= n < places.len() ==> {
                &&& 0 <= #[trigger] places[n] < directives.len()
                &&& extension_keys(directives, key, extends)[n] == directives[places[n]]
                &&& directives[places[n]].directive.name@ == key
                &&& directives[places[n]].origin is Extension || exists|e: int|
                    0 <= e < directives.len() && (#[trigger] directives[e]).directive.name@
                        == extends
            },
        forall|c: int|
            0 <= c < directives.len() && directives[c].directive.name@ == key && (
            directives[c].origin is Extension || exists|e: int|
                0 <= e < directives.len() && (#[trigger] directives[e]).directive.name@ == extends)
                ==> #[trigger] places.contains(c),
        forall|n: int, m: int|
            #![trigger places[n], places[m]]
            0 <= n < m < places.len() ==> places[n] < places[m],
{
    let whole = exists|e: int|
        0 <= e < directives.len() && (#[trigger] directives[e]).directive.name@ == extends;
    assert(applies(directives, extends) == whole) by {
        if whole {
            let e = choose|e: int|
                0 <= e < directives.len() && (#[trigger] directives[e]).directive.name@ == extends;
            assert(directives[e].directive.name@ == extends);
        }
        if applies(directives, extends) {
            let e = choose|e: int|
                0 <= e < directives.len() && #[trigger] directives[e].directive.name@ == extends;
            assert(directives[e].directive.name@ == extends);
        }
    }
    let all = law_applications_in_order(directives, key);
    let places = lemma_counting_places(
        directives,
        applications_of(directives, key),
        all,
        on_extension(directives, extends),
    );
    assert forall|c: int|
        0 <= c < directives.len() && directives[c].directive.name@ == key && (
        directives[c].origin is Extension || exists|e: int|
            0 <= e < directives.len() && (#[trigger] directives[e]).directive.name@
                == extends) implies #[trigger] places.contains(c) by {
        assert(all.contains(c));
        let n = choose|n: int| 0 <= n < all.len() && all[n] == c;
        assert(on_extension(directives, extends)(directives[c]));
        assert(places.contains(all[n]));
    }
    assert forall|n: int| 0 <= n < places.len() implies directives[
        #[trigger] places[n]
    ].directive.name@ == key by {
        assert(all.contains(places[n]));
        let m = choose|m: int| 0 <= m < all.len() && all[m] == places[n];
        assert(directives[all[m]].directive.name@ == key);
    }
    places
}

/// The places of those applications that pass a test.
proof fn lemma_counting_places(
    directives: Seq<Component>,
    applications: Seq<Component>,
    all: Seq<int>,
    counts: spec_fn(Component) -> bool,
) -> (places: Seq<int>)
    requires
        all.len() == applications.len(),
        forall|n: int|
            0 <= n < all.len() ==> 0 <= #[trigger] all[n] < directives.len() && applications[n]
                == directives[all[n]],
        forall|n: int, m: int|
            #![trigger all[n], all[m]]
            0 <= n < m < all.len() ==> all[n] < all[m],
    ensures
        places.len() == applications.filter(counts).len(),
        forall|n: int|
            0 <= n < places.len() ==> {
                &&& all.contains(#[trigger] places[n])
                &&& 0 <= places[n] < directives.len()
                &&& applications.filter(counts)[n] == directives[places[n]]
                &&& counts(directives[places[n]])
            },
        forall|n: int|
            0 <= n < all.len() && counts(directives[all[n]]) ==> places.contains(#[trigger] all[n]),
        forall|n: int, m: int|
            #![trigger places[n], places[m]]
            0 <= n < m < places.len() ==> places[n] < places[m],
    decreases applications.len(),
{
    reveal(Seq::filter);
    if applications.len() == 0 {
        Seq::empty()
    } else {
        let last = applications.len() - 1;
        let before = applications.drop_last();
        let rest = all.drop_last();
        assert forall|n: int| 0 <= n < rest.len() implies 0 <= #[trigger] rest[n]
            < directives.len() && before[n] == directives[rest[n]] by {
            assert(rest[n] == all[n]);
        }
        assert forall|n: int, m: int|
            #![trigger rest[n], rest[m]]
            0 <= n < m < rest.len() implies rest[n] < rest[m] by {
            assert(all[n] < all[m]);
        }
        let places = lemma_counting_places(directives, before, rest, counts);
        assert(applications.last() == directives[all[last]]);
        let more = if counts(directives[all[last]]) {
            places.push(all[last])
        } else {
            places
        };
        assert forall|n: int| 0 <= n < places.len() implies {
            &&& all.contains(#[trigger] places[n])
            &&& places[n] < all[last]
        } by {
            assert(rest.contains(places[n]));
            let m = choose|m: int| 0 <= m < rest.len() && rest[m] == places[n];
            assert(all[m] == places[n]);
            assert(all[m] < all[last]);
        }
        assert forall|n: int|
            0 <= n < all.len() && counts(directives[all[n]]) implies more.contains(
            #[trigger] all[n],
        ) by {
            if n < last {
                assert(rest[n] == all[n]);
                assert(places.contains(rest[n]));
                let m = choose|m: int| 0 <= m < places.len() && places[m] == all[n];
                assert(more[m] == all[n]);
            } else {
                assert(more[more.len() - 1] == all[last]);
            }
        }
        assert(all[last] == all.last());
        assert forall|n: int| 0 <= n < more.len() implies {
            &&& all.contains(#[trigger] more[n])
            &&& 0 <= more[n] < directives.len()
            &&& applications.filter(counts)[n] == directives[more[n]]
            &&& counts(directives[more[n]])
        } by {
            if n < places.len() {
                assert(more[n] == places[n]);
                assert(all.contains(places[n]));
            } else {
                assert(all.contains(all[last]));
            }
        }
        assert forall|n: int, m: int|
            #![trigger more[n], more[m]]
            0 <= n < m < more.len() implies more[n] < more[m] by {
            if m < places.len() {
                assert(places[n] < places[m]);
            } else {
                assert(all.contains(places[n]));
            }
        }
        more
    }
}

/// What the keys of a type refer to are the targets of the keys that count on it, one list after the
/// other; the lists are given back.
pub proof fn law_targets_of_a_type<
    A: Fn(&Directive) -> Result<KeyDirectiveArguments, FederationError>,
    T: Fn(&Schema, &String, &String) -> Result<Vec<FieldDefinitionPosition>, FederationError>,
>(
    key_directive_arguments: A,
    collect_target_fields: T,
    schema: Schema,
    key: Seq<char>,
    extends: Seq<char>,
    position: ObjectOrInterfaceTypeDefinitionPosition,
    targets: Seq<FieldKey>,
) -> (lists: Seq<Seq<FieldKey>>)
    requires
        type_targets(
            key_directive_arguments,
            collect_target_fields,
            schema,
            key,
            extends,
            position,
            Ok(targets),
        ),
    ensures
        schema.type_directives(position) is Ok,
        ({
            let counting = extension_keys(schema.type_directives(position)->Ok_0, key, extends);
            &&& lists.len() == counting.len()
            &&& targets == joined(lists)
            &&& forall|j: int|
                0 <= j < lists.len() ==> key_targets(
                    key_directive_arguments,
                    collect_target_fields,
                    schema,
                    position.name(),
                    counting[j].directive,
                    Ok(#[trigger] lists[j]),
                )
        }),
{
    let counting = extension_keys(schema.type_directives(position)->Ok_0, key, extends);
    let gives = gives_key_targets(
        key_directive_arguments,
        collect_target_fields,
        schema,
        position.name(),
    );
    assert(keys_target(
        key_directive_arguments,
        collect_target_fields,
        schema,
        position.name(),
        counting,
        Ok(targets),
    ));
    let found = choose|found: Result<Seq<Seq<FieldKey>>, ErrorView>| #[trigger]
        collects(counting, gives, found) && Ok::<Seq<FieldKey>, ErrorView>(targets)
            == joined_outcome(found);
    let lists = found->Ok_0;
    assert forall|j: int| 0 <= j < lists.len() implies key_targets(
        key_directive_arguments,
        collect_target_fields,
        schema,
        position.name(),
        counting[j].directive,
        Ok(#[trigger] lists[j]),
    ) by {
        assert(gives(counting[j], Ok(lists[j])));
    }
    lists
}

/// The keys of a type have no targets exactly if the type is missing, or one of the keys that count on
/// it can't be read: the first of them, at `first.0`, gives the error, and those before it have the
/// targets `first.1`.
pub proof fn law_key_of_a_type_fails<
    A: Fn(&Directive) -> Result<KeyDirectiveArguments, FederationError>,
    T: Fn(&Schema, &String, &String) -> Result<Vec<FieldDefinitionPosition>, FederationError>,
>(
    key_directive_arguments: A,
    collect_target_fields: T,
    schema: Schema,
    key: Seq<char>,
    extends: Seq<char>,
    position: ObjectOrInterfaceTypeDefinitionPosition,
    error: ErrorView,
) -> (first: (int, Seq<Seq<FieldKey>>))
    requires
        type_targets(
            key_directive_arguments,
            collect_target_fields,
            schema,
            key,
            extends,
            position,
            Err(error),
        ),
    ensures
        match schema.type_directives(position) {
            Ok(directives) => {
                let counting = extension_keys(directives, key, extends);
                &&& 0 <= first.0 < counting.len()
                &&& first.1.len() == first.0
                &&& key_targets(
                    key_directive_arguments,
                    collect_target_fields,
                    schema,
                    position.name(),
                    counting[first.0].directive,
                    Err(error),
                )
                &&& forall|j: int|
                    0 <= j < first.0 ==> key_targets(
                        key_directive_arguments,
                        collect_target_fields,
                        schema,
                        position.name(),
                        counting[j].directive,
                        Ok(#[trigger] first.1[j]),
                    )
            },
            Err(cause) => error == cause,
        },
{
    match schema.type_directives(position) {
        Ok(directives) => {
            let counting = extension_keys(directives, key, extends);
            let gives = gives_key_targets(
                key_directive_arguments,
                collect_target_fields,
                schema,
                position.name(),
            );
            assert(keys_target(
                key_directive_arguments,
                collect_target_fields,
                schema,
                position.name(),
                counting,
                Err(error),
            ));
            let found = choose|found: Result<Seq<Seq<FieldKey>>, ErrorView>| #[trigger]
                collects(counting, gives, found) && Err::<Seq<FieldKey>, ErrorView>(error)
                    == joined_outcome(found);
            let first = lemma_first_failure_of(counting, gives, error);
            assert forall|j: int| 0 <= j < first.0 implies key_targets(
                key_directive_arguments,
                collect_target_fields,
                schema,
                position.name(),
                counting[j].directive,
                Ok(#[trigger] first.1[j]),
            ) by {
                assert(gives(counting[j], Ok(first.1[j])));
            }
            first
        },
        Err(_) => (0, Seq::empty()),
    }
}

/// The fields that can't be external are those recorded for `@external` among the targets of the types
/// with the directive `@key`: all of them, each once, in the order in which they first are among the
/// targets. The targets of each type are given back.
pub proof fn law_targets_are_fake_externals<
    A: Fn(&Directive) -> Result<KeyDirectiveArguments, FederationError>,
    T: Fn(&Schema, &String, &String) -> Result<Vec<FieldDefinitionPosition>, FederationError>,
>(
    key_directive_arguments: A,
    collect_target_fields: T,
    schema: FederationSchema,
    fields: Seq<FieldKey>,
) -> (lists: Seq<Seq<FieldKey>>)
    requires
        fake_externals(key_directive_arguments, collect_target_fields, schema, Ok(fields)),
    ensures
        schema.definition("extends"@) is Ok,
        schema.definition("key"@) is Ok,
        schema.referencers.of(schema.definition("key"@)->Ok_0@) is Ok,
        ({
            let key_name = schema.definition("key"@)->Ok_0@;
            let positions = types_with(schema.referencers.of(key_name)->Ok_0);
            &&& lists.len() == positions.len()
            &&& forall|i: int|
                0 <= i < lists.len() ==> type_targets(
                    key_directive_arguments,
                    collect_target_fields,
                    schema.schema,
                    key_name,
                    schema.definition("extends"@)->Ok_0@,
                    positions[i],
                    Ok(#[trigger] lists[i]),
                )
            &&& forall|key: FieldKey| #[trigger]
                fields.contains(key) <==> (exists|i: int|
                    0 <= i < lists.len() && (#[trigger] lists[i]).contains(key)) && (
                external_referencers(schema) matches Ok(recorded) && fields_with(
                    recorded,
                ).contains(key))
            &&& fields.no_duplicates()
            &&& forall|n: int, m: int|
                #![trigger fields[n], fields[m]]
                0 <= n < m < fields.len() ==> joined(lists).index_of_first(fields[n]) is Some
                    && joined(lists).index_of_first(fields[m]) is Some && joined(
                    lists,
                ).index_of_first(fields[n])->Some_0 < joined(lists).index_of_first(
                    fields[m],
                )->Some_0
        }),
{
    let key_name = schema.definition("key"@)->Ok_0@;
    let extends = schema.definition("extends"@)->Ok_0@;
    let positions = types_with(schema.referencers.of(key_name)->Ok_0);
    let gives = gives_type_targets(
        key_directive_arguments,
        collect_target_fields,
        schema.schema,
        key_name,
        extends,
    );
    let is_marked = marked(schema);
    let found = choose|found: Result<Seq<Seq<FieldKey>>, ErrorView>| #[trigger]
        collects(positions, gives, found) && Ok::<Seq<FieldKey>, ErrorView>(fields)
            == filled_with_marked(found, is_marked);
    let lists = found->Ok_0;
    let all = joined(lists);
    assert forall|i: int| 0 <= i < lists.len() implies type_targets(
        key_directive_arguments,
        collect_target_fields,
        schema.schema,
        key_name,
        extends,
        positions[i],
        Ok(#[trigger] lists[i]),
    ) by {
        assert(gives(positions[i], Ok(lists[i])));
    }
    law_filled_set(Seq::empty(), all.filter(is_marked));
    assert forall|key: FieldKey| #[trigger] fields.contains(key) <==> (exists|i: int|
        0 <= i < lists.len() && (#[trigger] lists[i]).contains(key)) && (external_referencers(
        schema,
    ) matches Ok(recorded) && fields_with(recorded).contains(key)) by {
        law_joined_members(lists, key);
        lemma_filter_members(all, is_marked, key);
    }
    let places = law_filtered_in_order(all, is_marked);
    assert forall|n: int, m: int|
        #![trigger fields[n], fields[m]]
        0 <= n < m < fields.len() implies all.index_of_first(fields[n]) is Some
        && all.index_of_first(fields[m]) is Some && all.index_of_first(fields[n])->Some_0
        < all.index_of_first(fields[m])->Some_0 by {
        lemma_first_place(all, fields[n], places[n]);
        lemma_first_place(all, fields[m], places[m]);
        assert(places[n] < places[m]);
    }
    lists
}

/// The fields that can't be external can't be collected exactly if `@extends`, `@key` or the referencers
/// of `@key` are missing, in this order, or the keys of a type with the directive `@key` have no
/// targets: those of the first such type, at `first.0`, give the error, and the types before it have
/// the targets `first.1`.
pub proof fn law_fake_externals_fail<
    A: Fn(&Directive) -> Result<KeyDirectiveArguments, FederationError>,
    T: Fn(&Schema, &String, &String) -> Result<Vec<FieldDefinitionPosition>, FederationError>,
>(
    key_directive_arguments: A,
    collect_target_fields: T,
    schema: FederationSchema,
    error: ErrorView,
) -> (first: (int, Seq<Seq<FieldKey>>))
    requires
        fake_externals(key_directive_arguments, collect_target_fields, schema, Err(error)),
    ensures
        match schema.definition("extends"@) {
            Err(cause) => error == cause,
            Ok(extends) => match schema.definition("key"@) {
                Err(cause) => error == cause,
                Ok(key) => match schema.referencers.of(key@) {
                    Err(cause) => error == cause,
                    Ok(referencers) => {
                        &&& 0 <= first.0 < types_with(referencers).len()
                        &&& first.1.len() == first.0
                        &&& type_targets(
                            key_directive_arguments,
                            collect_target_fields,
                            schema.schema,
                            key@,
                            extends@,
                            types_with(referencers)[first.0],
                            Err(error),
                        )
                        &&& forall|i: int|
                            0 <= i < first.0 ==> type_targets(
                                key_directive_arguments,
                                collect_target_fields,
                                schema.schema,
                                key@,
                                extends@,
                                types_with(referencers)[i],
                                Ok(#[trigger] first.1[i]),
                            )
                    },
                },
            },
        },
{
    if let (Ok(extends), Ok(key)) = (schema.definition("extends"@), schema.definition("key"@)) {
        if let Ok(referencers) = schema.referencers.of(key@) {
            let positions = types_with(referencers);
            let gives = gives_type_targets(
                key_directive_arguments,
                collect_target_fields,
                schema.schema,
                key@,
                extends@,
            );
            let found = choose|found: Result<Seq<Seq<FieldKey>>, ErrorView>| #[trigger]
                collects(positions, gives, found) && Err::<Seq<FieldKey>, ErrorView>(error)
                    == filled_with_marked(found, marked(schema));
            let first = lemma_first_failure_of(positions, gives, error);
            assert forall|i: int| 0 <= i < first.0 implies type_targets(
                key_directive_arguments,
                collect_target_fields,
                schema.schema,
                key@,
                extends@,
                positions[i],
                Ok(#[trigger] first.1[i]),
            ) by {
                assert(gives(positions[i], Ok(first.1[i])));
            }
            first
        } else {
            (0, Seq::empty())
        }
    } else {
        (0, Seq::empty())
    }
}

/// Every field that a key that counts refers to and that is recorded for `@external` can't be external,
/// whatever type it is on. The key is the application at `c` on the object or interface type `name`,
/// which has the directive `@key` recorded: it is written in an extension, or the type has `@extends`.
/// What its arguments were read as, and the fields found for them, are given back.
pub proof fn law_fields_of_a_key_are_fake<
    A: Fn(&Directive) -> Result<KeyDirectiveArguments, FederationError>,
    T: Fn(&Schema, &String, &String) -> Result<Vec<FieldDefinitionPosition>, FederationError>,
>(
    key_directive_arguments: A,
    collect_target_fields: T,
    schema: FederationSchema,
    fields: Seq<FieldKey>,
    name: String,
    node: FieldsType,
    c: int,
) -> (found: (KeyDirectiveArguments, Vec<FieldDefinitionPosition>))
    requires
        fake_externals(key_directive_arguments, collect_target_fields, schema, Ok(fields)),
        ({
            let recorded = schema.referencers.of(schema.definition("key"@)->Ok_0@)->Ok_0;
            ||| recorded.object_types@.contains(name) && schema.schema.object_type(name@) == Ok::<
                FieldsType,
                ErrorView,
            >(node)
            ||| recorded.interface_types@.contains(name) && schema.schema.interface_type(name@)
                == Ok::<FieldsType, ErrorView>(node)
        }),
        0 <= c < node.directives@.len(),
        node.directives@[c].directive.name@ == schema.definition("key"@)->Ok_0@,
        node.directives@[c].origin is Extension || exists|e: int|
            0 <= e < node.directives@.len() && (#[trigger] node.directives@[e]).directive.name@
                == schema.definition("extends"@)->Ok_0@,
    ensures
        call_ensures(key_directive_arguments, (&node.directives@[c].directive,), Ok(found.0)),
        call_ensures(
            collect_target_fields,
            (&schema.schema, &name, &found.0.fields),
            Ok(found.1),
        ),
        forall|i: int|
            0 <= i < found.1@.len() ==> match #[trigger] found.1@[i] {
                FieldDefinitionPosition::Object(field) => (external_referencers(
                    schema,
                ) matches Ok(external) && exists|r: int|
                    0 <= r < external.object_fields@.len() && (
                    #[trigger] external.object_fields@[r]).named_type@ == field.named_type@
                        && external.object_fields@[r].field_name@ == field.field_name@)
                    <==> fields.contains((0u8, field.named_type@, field.field_name@)),
                FieldDefinitionPosition::Interface(field) => (external_referencers(
                    schema,
                ) matches Ok(external) && exists|r: int|
                    0 <= r < external.interface_fields@.len() && (
                    #[trigger] external.interface_fields@[r]).named_type@ == field.named_type@
                        && external.interface_fields@[r].field_name@ == field.field_name@)
                    <==> fields.contains((1u8, field.named_type@, field.field_name@)),
                FieldDefinitionPosition::Union(field) => !fields.contains(
                    (2u8, field.named_type@, Seq::<char>::empty()),
                ),
            },
{
    let key_name = schema.definition("key"@)->Ok_0@;
    let extends = schema.definition("extends"@)->Ok_0@;
    let recorded = schema.referencers.of(key_name)->Ok_0;
    let positions = types_with(recorded);
    law_types_with_a_directive(recorded);
    law_directives_of_a_type(schema.schema, name);
    let t = if recorded.object_types@.contains(name) && schema.schema.object_type(name@) == Ok::<
        FieldsType,
        ErrorView,
    >(node) {
        choose|t: int|
            0 <= t < recorded.object_types@.len() && recorded.object_types@[t] == name
    } else {
        recorded.object_types@.len() + choose|t: int|
            0 <= t < recorded.interface_types@.len() && recorded.interface_types@[t] == name
    };
    assert(0 <= t < positions.len());
    if t >= recorded.object_types@.len() {
        let u = t - recorded.object_types@.len();
        assert(recorded.interface_types@[u] == name);
        assert(positions[recorded.object_types@.len() + u]
            == ObjectOrInterfaceTypeDefinitionPosition::Interface(recorded.interface_types@[u]));
    } else {
        assert(positions[t] == ObjectOrInterfaceTypeDefinitionPosition::Object(
            recorded.object_types@[t],
        ));
    }
    assert(positions[t].name() == name);
    assert(schema.schema.type_directives(positions[t]) == Ok::<Seq<Component>, ErrorView>(
        node.directives@,
    ));
    let lists = law_targets_are_fake_externals(
        key_directive_arguments,
        collect_target_fields,
        schema,
        fields,
    );
    let targets = lists[t];
    let inner = law_targets_of_a_type(
        key_directive_arguments,
        collect_target_fields,
        schema.schema,
        key_name,
        extends,
        positions[t],
        targets,
    );
    let places = law_keys_that_count(node.directives@, key_name, extends);
    assert(places.contains(c));
    let j = choose|j: int| 0 <= j < places.len() && places[j] == c;
    assert(extension_keys(node.directives@, key_name, extends)[j] == node.directives@[places[j]]);
    let found = law_targets_of_a_key(
        key_directive_arguments,
        collect_target_fields,
        schema.schema,
        name,
        node.directives@[c].directive,
        inner[j],
    );
    assert forall|i: int| 0 <= i < found.1@.len() implies (match #[trigger] found.1@[i] {
        FieldDefinitionPosition::Object(field) => (external_referencers(
            schema,
        ) matches Ok(external) && exists|r: int|
            0 <= r < external.object_fields@.len() && (
            #[trigger] external.object_fields@[r]).named_type@ == field.named_type@
                && external.object_fields@[r].field_name@ == field.field_name@)
            <==> fields.contains((0u8, field.named_type@, field.field_name@)),
        FieldDefinitionPosition::Interface(field) => (external_referencers(
            schema,
        ) matches Ok(external) && exists|r: int|
            0 <= r < external.interface_fields@.len() && (
            #[trigger] external.interface_fields@[r]).named_type@ == field.named_type@
                && external.interface_fields@[r].field_name@ == field.field_name@)
            <==> fields.contains((1u8, field.named_type@, field.field_name@)),
        FieldDefinitionPosition::Union(field) => !fields.contains(
            (2u8, field.named_type@, Seq::<char>::empty()),
        ),
    }) by {
        let key = inner[j][i];
        assert(inner[j].contains(key));
        law_joined_members(inner, key);
        assert(lists[t].contains(key));
        if let Ok(external) = external_referencers(schema) {
            lemma_recorded(external, key);
        }
    }
    found
}

/// A key is among the fields with a directive exactly if an object or interface field of its name is
/// recorded.
proof fn lemma_recorded(recorded: DirectiveReferencers, key: FieldKey)
    ensures
        fields_with(recorded).contains(key) <==> {
            ||| key.0 == 0 && exists|r: int|
                0 <= r < recorded.object_fields@.len() && (
                #[trigger] recorded.object_fields@[r]).named_type@ == key.1
                    && recorded.object_fields@[r].field_name@ == key.2
            ||| key.0 == 1 && exists|r: int|
                0 <= r < recorded.interface_fields@.len() && (
                #[trigger] recorded.interface_fields@[r]).named_type@ == key.1
                    && recorded.interface_fields@[r].field_name@ == key.2
        },
{
    let keys = fields_with(recorded);
    let objects = recorded.object_fields@;
    let interfaces = recorded.interface_fields@;
    law_fields_with_a_directive(recorded);
    if keys.contains(key) {
        let i = choose|i: int| 0 <= i < keys.len() && keys[i] == key;
        if i < objects.len() {
            assert(objects[i].named_type@ == key.1);
        } else {
            let r = i - objects.len();
            assert(keys[objects.len() + r] == key);
            assert(interfaces[r].named_type@ == key.1);
        }
    }
    assert forall|r: int|
        0 <= r < objects.len() && (#[trigger] objects[r]).named_type@ == key.1
            && objects[r].field_name@ == key.2 && key.0 == 0 implies keys.contains(key) by {
        assert(keys[r] == key);
    }
    assert forall|r: int|
        0 <= r < interfaces.len() && (#[trigger] interfaces[r]).named_type@ == key.1
            && interfaces[r].field_name@ == key.2 && key.0 == 1 implies keys.contains(key) by {
        assert(keys[objects.len() + r] == key);
    }
}

/// Where a key that counts is read as `arguments` and the fields of its field set are found to be
/// `positions`, and nothing else can come back, every one of the positions that is recorded for
/// `@external` can't be external, whatever type it is on.
pub proof fn law_positions_of_a_key_are_fake<
    A: Fn(&Directive) -> Result<KeyDirectiveArguments, FederationError>,
    T: Fn(&Schema, &String, &String) -> Result<Vec<FieldDefinitionPosition>, FederationError>,
>(
    key_directive_arguments: A,
    collect_target_fields: T,
    schema: FederationSchema,
    fields: Seq<FieldKey>,
    name: String,
    node: FieldsType,
    c: int,
    arguments: KeyDirectiveArguments,
    positions: Vec<FieldDefinitionPosition>,
    i: int,
)
    requires
        fake_externals(key_directive_arguments, collect_target_fields, schema, Ok(fields)),
        ({
            let recorded = schema.referencers.of(schema.definition("key"@)->Ok_0@)->Ok_0;
            ||| recorded.object_types@.contains(name) && schema.schema.object_type(name@) == Ok::<
                FieldsType,
                ErrorView,
            >(node)
            ||| recorded.interface_types@.contains(name) && schema.schema.interface_type(name@)
                == Ok::<FieldsType, ErrorView>(node)
        }),
        0 <= c < node.directives@.len(),
        node.directives@[c].directive.name@ == schema.definition("key"@)->Ok_0@,
        node.directives@[c].origin is Extension || exists|e: int|
            0 <= e < node.directives@.len() && (#[trigger] node.directives@[e]).directive.name@
                == schema.definition("extends"@)->Ok_0@,
        forall|read: Result<KeyDirectiveArguments, FederationError>| #[trigger]
            call_ensures(key_directive_arguments, (&node.directives@[c].directive,), read)
                ==> read == Ok::<KeyDirectiveArguments, FederationError>(arguments),
        forall|found: Result<Vec<FieldDefinitionPosition>, FederationError>| #[trigger]
            call_ensures(collect_target_fields, (&schema.schema, &name, &arguments.fields), found)
                ==> found == Ok::<Vec<FieldDefinitionPosition>, FederationError>(positions),
        0 <= i < positions@.len(),
    ensures
        match positions@[i] {
            FieldDefinitionPosition::Object(field) => (external_referencers(
                schema,
            ) matches Ok(external) && exists|r: int|
                0 <= r < external.object_fields@.len() && (
                #[trigger] external.object_fields@[r]).named_type@ == field.named_type@
                    && external.object_fields@[r].field_name@ == field.field_name@)
                <==> fields.contains((0u8, field.named_type@, field.field_name@)),
            FieldDefinitionPosition::Interface(field) => (external_referencers(
                schema,
            ) matches Ok(external) && exists|r: int|
                0 <= r < external.interface_fields@.len() && (
                #[trigger] external.interface_fields@[r]).named_type@ == field.named_type@
                    && external.interface_fields@[r].field_name@ == field.field_name@)
                <==> fields.contains((1u8, field.named_type@, field.field_name@)),
            FieldDefinitionPosition::Union(field) => !fields.contains(
                (2u8, field.named_type@, Seq::<char>::empty()),
            ),
        },
{
    let found = law_fields_of_a_key_are_fake(
        key_directive_arguments,
        collect_target_fields,
        schema,
        fields,
        name,
        node,
        c,
    );
    assert(found.0 == arguments);
    assert(found.1 == positions);
    assert(found.1@[i] == positions@[i]);
}

/// A field that can't be external is recorded for `@external`, and some key that counts refers to it: the
/// application at `origin.2` on the type `origin.0`, which is defined as `origin.1`, whose arguments
/// were read as `origin.3`, for which the fields `origin.4` were found, this one at `origin.5`.
pub proof fn law_fake_external_comes_from_a_key<
    A: Fn(&Directive) -> Result<KeyDirectiveArguments, FederationError>,
    T: Fn(&Schema, &String, &String) -> Result<Vec<FieldDefinitionPosition>, FederationError>,
>(
    key_directive_arguments: A,
    collect_target_fields: T,
    schema: FederationSchema,
    fields: Seq<FieldKey>,
    key: FieldKey,
) -> (origin: (
    String,
    FieldsType,
    int,
    KeyDirectiveArguments,
    Vec<FieldDefinitionPosition>,
    int,
))
    requires
        fake_externals(key_directive_arguments, collect_target_fields, schema, Ok(fields)),
        fields.contains(key),
    ensures
        external_referencers(schema) is Ok,
        ({
            let external = external_referencers(schema)->Ok_0;
            ||| key.0 == 0 && exists|r: int|
                0 <= r < external.object_fields@.len() && (
                #[trigger] external.object_fields@[r]).named_type@ == key.1
                    && external.object_fields@[r].field_name@ == key.2
            ||| key.0 == 1 && exists|r: int|
                0 <= r < external.interface_fields@.len() && (
                #[trigger] external.interface_fields@[r]).named_type@ == key.1
                    && external.interface_fields@[r].field_name@ == key.2
        }),
        ({
            let recorded = schema.referencers.of(schema.definition("key"@)->Ok_0@)->Ok_0;
            let (name, node, c, arguments, positions, i) = origin;
            &&& {
                ||| recorded.object_types@.contains(name) && schema.schema.object_type(name@)
                    == Ok::<FieldsType, ErrorView>(node)
                ||| recorded.interface_types@.contains(name) && schema.schema.interface_type(
                    name@,
                ) == Ok::<FieldsType, ErrorView>(node)
            }
            &&& 0 <= c < node.directives@.len()
            &&& node.directives@[c].directive.name@ == schema.definition("key"@)->Ok_0@
            &&& node.directives@[c].origin is Extension || exists|e: int|
                0 <= e < node.directives@.len() && (
                #[trigger] node.directives@[e]).directive.name@ == schema.definition(
                    "extends"@,
                )->Ok_0@
            &&& call_ensures(
                key_directive_arguments,
                (&node.directives@[c].directive,),
                Ok(arguments),
            )
            &&& call_ensures(
                collect_target_fields,
                (&schema.schema, &name, &arguments.fields),
                Ok(positions),
            )
            &&& 0 <= i < positions@.len()
            &&& match positions@[i] {
                FieldDefinitionPosition::Object(field) => key == (
                    0u8,
                    field.named_type@,
                    field.field_name@,
                ),
                FieldDefinitionPosition::Interface(field) => key == (
                    1u8,
                    field.named_type@,
                    field.field_name@,
                ),
                FieldDefinitionPosition::Union(_) => false,
            }
        }),
{
    let key_name = schema.definition("key"@)->Ok_0@;
    let extends = schema.definition("extends"@)->Ok_0@;
    let recorded = schema.referencers.of(key_name)->Ok_0;
    let positions = types_with(recorded);
    let lists = law_targets_are_fake_externals(
        key_directive_arguments,
        collect_target_fields,
        schema,
        fields,
    );
    lemma_recorded(external_referencers(schema)->Ok_0, key);
    let t = choose|t: int| 0 <= t < lists.len() && (#[trigger] lists[t]).contains(key);
    let name = positions[t].name();
    law_types_with_a_directive(recorded);
    law_directives_of_a_type(schema.schema, name);
    let inner = law_targets_of_a_type(
        key_directive_arguments,
        collect_target_fields,
        schema.schema,
        key_name,
        extends,
        positions[t],
        lists[t],
    );
    let node = if t < recorded.object_types@.len() {
        assert(positions[t] == ObjectOrInterfaceTypeDefinitionPosition::Object(
            recorded.object_types@[t],
        ));
        schema.schema.object_type(name@)->Ok_0
    } else {
        let u = t - recorded.object_types@.len();
        assert(positions[recorded.object_types@.len() + u]
            == ObjectOrInterfaceTypeDefinitionPosition::Interface(recorded.interface_types@[u]));
        schema.schema.interface_type(name@)->Ok_0
    };
    law_joined_members(inner, key);
    let j = choose|j: int| 0 <= j < inner.len() && (#[trigger] inner[j]).contains(key);
    let places = law_keys_that_count(node.directives@, key_name, extends);
    let c = places[j];
    let (arguments, found) = law_targets_of_a_key(
        key_directive_arguments,
        collect_target_fields,
        schema.schema,
        name,
        node.directives@[c].directive,
        inner[j],
    );
    let i = choose|i: int| 0 <= i < inner[j].len() && inner[j][i] == key;
    assert(found@[i] == found@[i]);
    (name, node, c, arguments, found, i)
}

/// What is known of the external fields is made of the three collections; that of the fields of external
/// types counts under the second major version of the federation specification only. Without success,
/// the first of the collections that fails gives the error.
pub proof fn law_metadata_is_made_of_collections<
    A: Fn(&Directive) -> Result<KeyDirectiveArguments, FederationError>,
    T: Fn(&Schema, &String, &String) -> Result<Vec<FieldDefinitionPosition>, FederationError>,
>(
    key_directive_arguments: A,
    collect_target_fields: T,
    federation_spec_definition: FederationSpecDefinition,
    schema: FederationSchema,
    metadata: Result<ExternalMetadataView, ErrorView>,
)
    requires
        external_metadata(
            key_directive_arguments,
            collect_target_fields,
            federation_spec_definition,
            schema,
            metadata,
        ),
    ensures
        match metadata {
            Ok(found) => {
                &&& external_fields(schema) == Ok::<Seq<FieldKey>, ErrorView>(found.external_fields)
                &&& fake_externals(
                    key_directive_arguments,
                    collect_target_fields,
                    schema,
                    Ok(found.fake_external_fields),
                )
                &&& federation_spec_definition.version.major == 2 ==> fields_on_external_types(
                    schema,
                    Ok(found.fields_on_external_types),
                )
                &&& federation_spec_definition.version.major != 2
                    ==> found.fields_on_external_types.len() == 0
            },
            Err(error) => {
                ||| external_fields(schema) == Err::<Seq<FieldKey>, ErrorView>(error)
                ||| external_fields(schema) is Ok && fake_externals(
                    key_directive_arguments,
                    collect_target_fields,
                    schema,
                    Err(error),
                )
                ||| {
                    &&& external_fields(schema) is Ok
                    &&& exists|fake: Seq<FieldKey>| #[trigger]
                        fake_externals(
                            key_directive_arguments,
                            collect_target_fields,
                            schema,
                            Ok(fake),
                        )
                    &&& federation_spec_definition.version.major == 2
                    &&& fields_on_external_types(schema, Err(error))
                }
            },
        },
{
}

} // verus!
