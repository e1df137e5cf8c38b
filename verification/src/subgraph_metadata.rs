//! What a subgraph schema says about the fields that other subgraphs resolve.

use crate::ast::applies;
use crate::ast::get_all;
use crate::ast::has;
use crate::ast::Component;
use crate::ast::ComponentOrigin;
use crate::ast::Directive;
use crate::ast::FieldsType;
use crate::ast::Schema;
use crate::collecting::collects;
use crate::collecting::joined;
use crate::collecting::lemma_first_failure;
use crate::collections::contains;
use crate::collections::copy;
use crate::collections::empty_set;
use crate::collections::extend;
use crate::collections::insert;
use crate::collections::item_key;
use crate::collections::item_keys;
use crate::collections::law_filled_in_steps;
use crate::collections::law_filled_set;
use crate::collections::set_items;
use crate::collections::with_items;
use crate::error::ErrorView;
use crate::error::FederationError;
use crate::external::extension_keys;
use crate::external::external_fields;
use crate::external::external_metadata;
use crate::external::external_referencers;
use crate::external::fake_externals;
use crate::external::field_set_targets;
use crate::external::fields_on_external_types;
use crate::external::filled;
use crate::external::filled_with_marked;
use crate::external::gives_fields;
use crate::external::gives_key_targets;
use crate::external::gives_type_targets;
use crate::external::has_fake_externals;
use crate::external::joined_outcome;
use crate::external::key_targets;
use crate::external::law_collected_once;
use crate::external::marked;
use crate::external::object_fields;
use crate::external::on_extension;
use crate::external::position_keys;
use crate::external::type_targets;
use crate::external::types_with;
use crate::external::ExternalMetadataView;
use crate::federation::fields_with;
use crate::federation::interface_keys;
use crate::federation::object_keys;
use crate::federation::DirectiveReferencers;
use crate::federation::FederationSchema;
use crate::federation::FederationSpecDefinition;
use crate::federation::KeyDirectiveArguments;
use crate::federation::Version;
use crate::operation::Selection;
use crate::operation::SelectionSet;
use crate::position::FieldDefinitionPosition;
use crate::position::FieldKey;
use crate::position::InterfaceFieldDefinitionPosition;
use crate::position::ObjectFieldDefinitionPosition;
use crate::position::ObjectOrInterfaceTypeDefinitionPosition;
use crate::position::INTERFACE_FIELD;
use crate::position::OBJECT_FIELD;
use apollo_compiler::collections::IndexSet;
use vstd::prelude::*;

verus! {

/// What is known of the fields of a subgraph schema that are marked as external.
#[derive(Debug)]
pub struct ExternalMetadata {
    /// All fields with an `@external` directive.
    external_fields: IndexSet<(u8, String, String)>,
    /// Fields with an `@external` directive that can't actually be external due to also being
    /// referenced in a `@key` directive.
    fake_external_fields: IndexSet<(u8, String, String)>,
    /// Fields that are external because their parent type has an `@external` directive.
    fields_on_external_types: IndexSet<(u8, String, String)>,
}

impl View for ExternalMetadata {
    type V = ExternalMetadataView;

    closed spec fn view(&self) -> ExternalMetadataView {
        ExternalMetadataView {
            external_fields: set_items(self.external_fields),
            fake_external_fields: set_items(self.fake_external_fields),
            fields_on_external_types: set_items(self.fields_on_external_types),
        }
    }
}

impl Clone for ExternalMetadata {
    fn clone(&self) -> (copied: Self)
        ensures
            copied@ == self@,
    {
        ExternalMetadata {
            external_fields: copy(&self.external_fields),
            fake_external_fields: copy(&self.fake_external_fields),
            fields_on_external_types: copy(&self.fields_on_external_types),
        }
    }
}

/// A set of fields, or the view of an error.
pub open spec fn set_outcome(
    result: Result<IndexSet<(u8, String, String)>, FederationError>,
) -> Result<Seq<FieldKey>, ErrorView> {
    match result {
        Ok(set) => Ok(set_items(set)),
        Err(error) => Err(error@),
    }
}

/// The schema itself.
fn unwrap_schema(fed_schema: &FederationSchema) -> (schema: &Schema)
    ensures
        *schema == fed_schema.schema,
{
    fed_schema.schema()
}

/// The set items for fields of object types.
fn object_items(fields: &Vec<ObjectFieldDefinitionPosition>) -> (items: Vec<(u8, String, String)>)
    ensures
        item_keys(items@) == object_keys(fields@),
{
    let mut items: Vec<(u8, String, String)> = Vec::new();
    let mut i: usize = 0;
    while i < fields.len()
        invariant
            i <= fields.len(),
            item_keys(items@) =~= object_keys(fields@).take(i as int),
        decreases fields.len() - i,
    {
        let ghost before = items@;
        items.push((OBJECT_FIELD, fields[i].named_type.clone(), fields[i].field_name.clone()));
        proof {
            assert(item_keys(items@) =~= item_keys(before).push(object_keys(fields@)[i as int]));
        }
        i += 1;
    }
    items
}

/// The set items for fields of interface types.
fn interface_items(fields: &Vec<InterfaceFieldDefinitionPosition>) -> (items: Vec<(u8, String, String)>)
    ensures
        item_keys(items@) == interface_keys(fields@),
{
    let mut items: Vec<(u8, String, String)> = Vec::new();
    let mut i: usize = 0;
    while i < fields.len()
        invariant
            i <= fields.len(),
            item_keys(items@) =~= interface_keys(fields@).take(i as int),
        decreases fields.len() - i,
    {
        let ghost before = items@;
        items.push(
            (INTERFACE_FIELD, fields[i].named_type.clone(), fields[i].field_name.clone()),
        );
        proof {
            assert(item_keys(items@) =~= item_keys(before).push(interface_keys(fields@)[i as int]));
        }
        i += 1;
    }
    items
}

/// The set items for fields.
fn position_items(fields: &Vec<FieldDefinitionPosition>) -> (items: Vec<(u8, String, String)>)
    ensures
        item_keys(items@) == position_keys(fields@),
{
    let mut items: Vec<(u8, String, String)> = Vec::new();
    let mut i: usize = 0;
    while i < fields.len()
        invariant
            i <= fields.len(),
            item_keys(items@) =~= position_keys(fields@).take(i as int),
        decreases fields.len() - i,
    {
        let ghost before = items@;
        items.push(fields[i].key());
        proof {
            assert(item_keys(items@) =~= item_keys(before).push(position_keys(fields@)[i as int]));
        }
        i += 1;
    }
    items
}

impl ExternalMetadata {
    /// Where `@external` is applied.
    fn find_external<'a>(
        federation_spec_definition: &FederationSpecDefinition,
        schema: &'a FederationSchema,
    ) -> (referencers: Result<&'a DirectiveReferencers, FederationError>)
        ensures
            match referencers {
                Ok(found) => external_referencers(*schema) == Ok::<DirectiveReferencers, ErrorView>(
                    *found,
                ),
                Err(error) => external_referencers(*schema) == Err::<
                    DirectiveReferencers,
                    ErrorView,
                >(error@),
            },
    {
        match federation_spec_definition.external_directive_definition(schema) {
            Ok(name) => schema.referencers.get_directive(name),
            Err(error) => Err(error),
        }
    }

    /// Collects the fields with an `@external` directive.
    pub fn collect_external_fields(
        federation_spec_definition: &FederationSpecDefinition,
        schema: &FederationSchema,
    ) -> (collected: Result<IndexSet<(u8, String, String)>, FederationError>)
        ensures
            set_outcome(collected) == external_fields(*schema),
    {
        let referencers = match Self::find_external(federation_spec_definition, schema) {
            Ok(referencers) => referencers,
            Err(error) => {
                return Err(error);
            },
        };
        let mut fields = empty_set();

        extend(&mut fields, object_items(&referencers.object_fields));
        extend(&mut fields, interface_items(&referencers.interface_fields));
        proof {
            law_filled_in_steps(
                Seq::empty(),
                object_keys(referencers.object_fields@),
                interface_keys(referencers.interface_fields@),
            );
        }
        Ok(fields)
    }

    /// Collects the fields of the object types with an `@external` directive.
    pub fn collect_fields_on_external_types(
        federation_spec_definition: &FederationSpecDefinition,
        schema: &FederationSchema,
    ) -> (collected: Result<IndexSet<(u8, String, String)>, FederationError>)
        ensures
            fields_on_external_types(*schema, set_outcome(collected)),
    {
        let referencers = match Self::find_external(federation_spec_definition, schema) {
            Ok(referencers) => referencers,
            Err(error) => {
                return Err(error);
            },
        };
        let object_types = &referencers.object_types;
        let ghost gives = gives_fields(schema.schema);
        let ghost mut lists: Seq<Seq<FieldKey>> = Seq::empty();
        let mut fields = empty_set();
        let mut i: usize = 0;
        while i < object_types.len()
            invariant
                i <= object_types.len(),
                object_types == referencers.object_types,
                external_referencers(*schema) == Ok::<DirectiveReferencers, ErrorView>(
                    *referencers,
                ),
                gives == gives_fields(schema.schema),
                lists.len() == i,
                forall|j: int| 0 <= j < i ==> gives(#[trigger] object_types@[j], Ok(lists[j])),
                set_items(fields) == with_items(Seq::empty(), joined(lists)),
            decreases object_types.len() - i,
        {
            let node = match schema.schema.get_object_type(&object_types[i]) {
                Ok(node) => node,
                Err(error) => {
                    proof {
                        lemma_first_failure(object_types@, gives, lists, error@);
                        assert(filled(Err(error@)) == Err::<Seq<FieldKey>, ErrorView>(error@));
                    }
                    return Err(error);
                },
            };
            Self::insert_fields(&object_types[i], node, &mut fields);
            proof {
                let list = object_fields(object_types@[i as int]@, node.fields@);
                law_filled_in_steps(Seq::empty(), joined(lists), list);
                assert(lists.push(list).drop_last() =~= lists);
                lists = lists.push(list);
            }
            i += 1;
        }
        proof {
            assert(collects(object_types@, gives, Ok::<Seq<Seq<FieldKey>>, ErrorView>(lists)));
        }
        Ok(fields)
    }

    /// Adds the fields of an object type.
    fn insert_fields(
        named_type: &String,
        node: &FieldsType,
        set: &mut IndexSet<(u8, String, String)>,
    )
        ensures
            set_items(*final(set)) == with_items(
                set_items(*old(set)),
                object_fields(named_type@, node.fields@),
            ),
    {
        let ghost before = set_items(*set);
        let ghost keys = object_fields(named_type@, node.fields@);
        let mut i: usize = 0;
        while i < node.fields.len()
            invariant
                i <= node.fields.len(),
                keys == object_fields(named_type@, node.fields@),
                set_items(*set) == with_items(before, keys.take(i as int)),
            decreases node.fields.len() - i,
        {
            proof {
                assert(keys.take(i + 1).drop_last() =~= keys.take(i as int));
                assert(keys.take(i + 1).last() == keys[i as int]);
            }
            insert(set, (OBJECT_FIELD, named_type.clone(), node.fields[i].0.clone()));
            i += 1;
        }
        assert(keys.take(i as int) =~= keys);
    }

    /// The key applications on extensions of a type.
    fn find_extension_keys<'a>(
        directives: &'a Vec<Component>,
        key: &String,
        extends: &String,
    ) -> (found: Vec<&'a Component>)
        ensures
            found@.unref() == extension_keys(directives@, key@, extends@),
    {
        let has_extends_directive = has(directives, extends);
        let applications = get_all(directives, key);
        let ghost all = applications@.unref();
        let ghost counts = on_extension(directives@, extends@);
        let mut found: Vec<&'a Component> = Vec::new();
        let mut i: usize = 0;
        proof {
            reveal(Seq::filter);
            assert(all.take(0).filter(counts) =~= Seq::<Component>::empty());
            assert(found@.unref() =~= Seq::<Component>::empty());
        }
        while i < applications.len()
            invariant
                i <= applications.len(),
                all == applications@.unref(),
                counts == on_extension(directives@, extends@),
                has_extends_directive == applies(directives@, extends@),
                found@.unref() == all.take(i as int).filter(counts),
            decreases applications.len() - i,
        {
            let ghost before = found@;
            let application = applications[i];
            proof {
                reveal(Seq::filter);
                assert(all.take(i + 1).drop_last() =~= all.take(i as int));
                assert(all.take(i + 1).last() == *application);
            }
            if has_extends_directive || application.origin == ComponentOrigin::Extension {
                found.push(application);
                assert(found@.unref() =~= before.unref().push(*application));
            }
            i += 1;
        }
        assert(all.take(i as int) =~= all);
        found
    }

    /// The fields that a key application on the type `named_type` refers to.
    fn find_key_targets<
        A: Fn(&Directive) -> Result<KeyDirectiveArguments, FederationError>,
        T: Fn(&Schema, &String, &String) -> Result<Vec<FieldDefinitionPosition>, FederationError>,
    >(
        schema: &Schema,
        named_type: &String,
        directive: &Directive,
        key_directive_arguments: &A,
        collect_target_fields: &T,
    ) -> (targets: Result<Vec<(u8, String, String)>, FederationError>)
        requires
            forall|directive: &Directive| call_requires(*key_directive_arguments, (directive,)),
            forall|schema: &Schema, named_type: &String, fields: &String|
                call_requires(*collect_target_fields, (schema, named_type, fields)),
        ensures
            key_targets(
                *key_directive_arguments,
                *collect_target_fields,
                *schema,
                *named_type,
                *directive,
                match targets {
                    Ok(items) => Ok(item_keys(items@)),
                    Err(error) => Err(error@),
                },
            ),
    {
        let arguments = key_directive_arguments(directive);
        assert(call_ensures(*key_directive_arguments, (directive,), arguments));
        match arguments {
            Ok(key) => {
                let found = collect_target_fields(schema, named_type, &key.fields);
                assert(call_ensures(
                    *collect_target_fields,
                    (schema, named_type, &key.fields),
                    found,
                ));
                match found {
                    Ok(positions) => {
                        let items = position_items(&positions);
                        assert(field_set_targets(
                            *collect_target_fields,
                            *schema,
                            *named_type,
                            key.fields,
                            Ok(item_keys(items@)),
                        ));
                        Ok(items)
                    },
                    Err(error) => {
                        assert(field_set_targets(
                            *collect_target_fields,
                            *schema,
                            *named_type,
                            key.fields,
                            Err(error@),
                        ));
                        Err(error)
                    },
                }
            },
            Err(error) => Err(error),
        }
    }

    /// Adds those of the items that the set `marked_fields` has.
    fn insert_marked(
        items: Vec<(u8, String, String)>,
        marked_fields: &IndexSet<(u8, String, String)>,
        set: &mut IndexSet<(u8, String, String)>,
    )
        ensures
            set_items(*final(set)) == with_items(
                set_items(*old(set)),
                item_keys(items@).filter(|key: FieldKey| set_items(*marked_fields).contains(key)),
            ),
    {
        let ghost before = set_items(*set);
        let ghost keys = item_keys(items@);
        let ghost is_marked = |key: FieldKey| set_items(*marked_fields).contains(key);
        proof {
            reveal(Seq::filter);
            assert(keys.take(0).filter(is_marked) =~= Seq::<FieldKey>::empty());
        }
        for item in iter: items.into_iter()
            invariant
                iter.seq() == items@,
                keys == item_keys(items@),
                is_marked == (|key: FieldKey| set_items(*marked_fields).contains(key)),
                set_items(*set) == with_items(
                    before,
                    keys.take(iter.index() as int).filter(is_marked),
                ),
        {
            proof {
                let n = iter.index() as int;
                reveal(Seq::filter);
                assert(keys.take(n + 1).drop_last() =~= keys.take(n));
                assert(keys.take(n + 1).last() == item_key(item));
                let so_far = keys.take(n).filter(is_marked);
                assert(so_far.push(item_key(item)).drop_last() =~= so_far);
            }
            if contains(marked_fields, &item) {
                insert(set, item);
            }
        }
        assert(keys.take(keys.len() as int) =~= keys);
    }

    /// Adds the fields that the keys on extensions of the type at `position` refer to and that the
    /// set `marked_fields` has.
    fn extend_with_type<
        A: Fn(&Directive) -> Result<KeyDirectiveArguments, FederationError>,
        T: Fn(&Schema, &String, &String) -> Result<Vec<FieldDefinitionPosition>, FederationError>,
    >(
        schema: &Schema,
        key: &String,
        extends: &String,
        position: &ObjectOrInterfaceTypeDefinitionPosition,
        key_directive_arguments: &A,
        collect_target_fields: &T,
        marked_fields: &IndexSet<(u8, String, String)>,
        set: &mut IndexSet<(u8, String, String)>,
    ) -> (done: Result<Ghost<Seq<FieldKey>>, FederationError>)
        requires
            forall|directive: &Directive| call_requires(*key_directive_arguments, (directive,)),
            forall|schema: &Schema, named_type: &String, fields: &String|
                call_requires(*collect_target_fields, (schema, named_type, fields)),
        ensures
            type_targets(
                *key_directive_arguments,
                *collect_target_fields,
                *schema,
                key@,
                extends@,
                *position,
                match done {
                    Ok(targets) => Ok(targets@),
                    Err(error) => Err(error@),
                },
            ),
            done matches Ok(targets) ==> set_items(*final(set)) == with_items(
                set_items(*old(set)),
                targets@.filter(|key: FieldKey| set_items(*marked_fields).contains(key)),
            ),
    {
        let directives = match schema.get_type_directives(position) {
            Ok(directives) => directives,
            Err(error) => {
                return Err(error);
            },
        };
        let applications = Self::find_extension_keys(directives, key, extends);
        let named_type = position.named_type();
        let ghost all = applications@.unref();
        let ghost gives = gives_key_targets(
            *key_directive_arguments,
            *collect_target_fields,
            *schema,
            *named_type,
        );
        let ghost is_marked = |key: FieldKey| set_items(*marked_fields).contains(key);
        let ghost before = set_items(*set);
        let ghost mut lists: Seq<Seq<FieldKey>> = Seq::empty();
        let mut i: usize = 0;
        proof {
            reveal(Seq::filter);
            assert(joined(lists).filter(is_marked) =~= Seq::<FieldKey>::empty());
        }
        while i < applications.len()
            invariant
                i <= applications.len(),
                all == applications@.unref(),
                all == extension_keys(directives@, key@, extends@),
                schema.type_directives(*position) == Ok::<Seq<Component>, ErrorView>(directives@),
                *named_type == position.name(),
                gives == gives_key_targets(
                    *key_directive_arguments,
                    *collect_target_fields,
                    *schema,
                    *named_type,
                ),
                forall|directive: &Directive| call_requires(*key_directive_arguments, (directive,)),
                forall|schema: &Schema, named_type: &String, fields: &String|
                    call_requires(*collect_target_fields, (schema, named_type, fields)),
                lists.len() == i,
                forall|j: int| 0 <= j < i ==> gives(#[trigger] all[j], Ok(lists[j])),
                is_marked == (|key: FieldKey| set_items(*marked_fields).contains(key)),
                set_items(*set) == with_items(before, joined(lists).filter(is_marked)),
            decreases applications.len() - i,
        {
            assert(all[i as int] == *applications@[i as int]);
            match Self::find_key_targets(
                schema,
                named_type,
                &applications[i].directive,
                key_directive_arguments,
                collect_target_fields,
            ) {
                Ok(items) => {
                    proof {
                        let list = item_keys(items@);
                        Seq::filter_distributes_over_add(joined(lists), list, is_marked);
                        law_filled_in_steps(
                            before,
                            joined(lists).filter(is_marked),
                            list.filter(is_marked),
                        );
                        assert(lists.push(list).drop_last() =~= lists);
                        lists = lists.push(list);
                    }
                    Self::insert_marked(items, marked_fields, set);
                },
                Err(error) => {
                    proof {
                        lemma_first_failure(all, gives, lists, error@);
                        assert(joined_outcome(Err(error@)) == Err::<Seq<FieldKey>, ErrorView>(
                            error@,
                        ));
                    }
                    return Err(error);
                },
            }
            i += 1;
        }
        proof {
            let found: Result<Seq<Seq<FieldKey>>, ErrorView> = Ok(lists);
            assert(collects(all, gives, found));
            assert(joined_outcome(found) == Ok::<Seq<FieldKey>, ErrorView>(joined(lists)));
        }
        Ok(Ghost(joined(lists)))
    }

    /// The object types, then the interface types with a directive.
    fn find_types(referencers: &DirectiveReferencers) -> (positions: Vec<
        ObjectOrInterfaceTypeDefinitionPosition,
    >)
        ensures
            positions@ == types_with(*referencers),
    {
        let mut positions: Vec<ObjectOrInterfaceTypeDefinitionPosition> = Vec::new();
        let ghost all = types_with(*referencers);
        let object_types = &referencers.object_types;
        let mut i: usize = 0;
        while i < object_types.len()
            invariant
                i <= object_types.len(),
                object_types == referencers.object_types,
                all == types_with(*referencers),
                positions@ =~= all.take(i as int),
            decreases object_types.len() - i,
        {
            positions.push(ObjectOrInterfaceTypeDefinitionPosition::Object(object_types[i].clone()));
            i += 1;
        }
        let interface_types = &referencers.interface_types;
        let mut j: usize = 0;
        while j < interface_types.len()
            invariant
                j <= interface_types.len(),
                interface_types == referencers.interface_types,
                all == types_with(*referencers),
                positions@ =~= all.take(referencers.object_types@.len() + j),
            decreases interface_types.len() - j,
        {
            positions.push(
                ObjectOrInterfaceTypeDefinitionPosition::Interface(interface_types[j].clone()),
            );
            j += 1;
        }
        positions
    }

    /// Collects the fields with an `@external` directive that keys on type extensions refer to.
    ///
    /// A key counts if it was written in an extension of its type. The directive `@extends` makes
    /// all keys of a type count. Where the schema has no `@external`, nothing is collected, and a
    /// key that counts and can't be read is still an error.
    pub fn collect_fake_externals<
        A: Fn(&Directive) -> Result<KeyDirectiveArguments, FederationError>,
        T: Fn(&Schema, &String, &String) -> Result<Vec<FieldDefinitionPosition>, FederationError>,
    >(
        federation_spec_definition: &FederationSpecDefinition,
        schema: &FederationSchema,
        key_directive_arguments: &A,
        collect_target_fields: &T,
    ) -> (collected: Result<IndexSet<(u8, String, String)>, FederationError>)
        requires
            forall|directive: &Directive| call_requires(*key_directive_arguments, (directive,)),
            forall|schema: &Schema, named_type: &String, fields: &String|
                call_requires(*collect_target_fields, (schema, named_type, fields)),
        ensures
            fake_externals(
                *key_directive_arguments,
                *collect_target_fields,
                *schema,
                set_outcome(collected),
            ),
    {
        let extends = match federation_spec_definition.extends_directive_definition(schema) {
            Ok(name) => name,
            Err(error) => {
                return Err(error);
            },
        };
        let key = match federation_spec_definition.key_directive_definition(schema) {
            Ok(name) => name,
            Err(error) => {
                return Err(error);
            },
        };
        let referencers = match schema.referencers.get_directive(key) {
            Ok(referencers) => referencers,
            Err(error) => {
                return Err(error);
            },
        };
        let marked_fields = match Self::collect_external_fields(federation_spec_definition, schema) {
            Ok(fields) => fields,
            Err(_) => empty_set(),
        };
        let ghost is_marked = marked(*schema);
        proof {
            law_filled_set(Seq::empty(), fields_with(external_referencers(*schema)->Ok_0));
            assert(is_marked =~= (|key: FieldKey| set_items(marked_fields).contains(key)));
        }
        let positions = Self::find_types(referencers);
        let ghost gives = gives_type_targets(
            *key_directive_arguments,
            *collect_target_fields,
            schema.schema,
            key@,
            extends@,
        );
        let ghost mut lists: Seq<Seq<FieldKey>> = Seq::empty();
        let mut fields = empty_set();
        let mut i: usize = 0;
        proof {
            reveal(Seq::filter);
            assert(joined(lists).filter(is_marked) =~= Seq::<FieldKey>::empty());
        }
        while i < positions.len()
            invariant
                i <= positions.len(),
                schema.definition("extends"@) == Ok::<String, ErrorView>(*extends),
                schema.definition("key"@) == Ok::<String, ErrorView>(*key),
                schema.referencers.of(key@) == Ok::<DirectiveReferencers, ErrorView>(*referencers),
                is_marked == marked(*schema),
                is_marked == (|key: FieldKey| set_items(marked_fields).contains(key)),
                positions@ == types_with(*referencers),
                gives == gives_type_targets(
                    *key_directive_arguments,
                    *collect_target_fields,
                    schema.schema,
                    key@,
                    extends@,
                ),
                forall|directive: &Directive| call_requires(*key_directive_arguments, (directive,)),
                forall|schema: &Schema, named_type: &String, fields: &String|
                    call_requires(*collect_target_fields, (schema, named_type, fields)),
                lists.len() == i,
                forall|j: int| 0 <= j < i ==> gives(#[trigger] positions@[j], Ok(lists[j])),
                set_items(fields) == with_items(Seq::empty(), joined(lists).filter(is_marked)),
            decreases positions.len() - i,
        {
            match Self::extend_with_type(
                unwrap_schema(schema),
                key,
                extends,
                &positions[i],
                key_directive_arguments,
                collect_target_fields,
                &marked_fields,
                &mut fields,
            ) {
                Ok(targets) => {
                    proof {
                        Seq::filter_distributes_over_add(joined(lists), targets@, is_marked);
                        law_filled_in_steps(
                            Seq::empty(),
                            joined(lists).filter(is_marked),
                            targets@.filter(is_marked),
                        );
                        assert(lists.push(targets@).drop_last() =~= lists);
                        lists = lists.push(targets@);
                    }
                },
                Err(error) => {
                    proof {
                        lemma_first_failure(positions@, gives, lists, error@);
                        assert(filled_with_marked(Err(error@), is_marked) == Err::<
                            Seq<FieldKey>,
                            ErrorView,
                        >(error@));
                    }
                    return Err(error);
                },
            }
            i += 1;
        }
        proof {
            let found: Result<Seq<Seq<FieldKey>>, ErrorView> = Ok(lists);
            assert(collects(positions@, gives, found));
            assert(set_outcome(Ok(fields)) == filled_with_marked(found, is_marked));
        }
        Ok(fields)
    }
}

impl ExternalMetadata {
    /// Collects what the schema says about external fields.
    ///
    /// Types with an `@external` directive are left out before the second major version of the
    /// federation specification: a field of such a type would otherwise not be taken as shareable
    /// where it should be.
    pub fn new<
        A: Fn(&Directive) -> Result<KeyDirectiveArguments, FederationError>,
        T: Fn(&Schema, &String, &String) -> Result<Vec<FieldDefinitionPosition>, FederationError>,
    >(
        schema: &FederationSchema,
        federation_spec_definition: &FederationSpecDefinition,
        key_directive_arguments: &A,
        collect_target_fields: &T,
    ) -> (metadata: Result<ExternalMetadata, FederationError>)
        requires
            forall|directive: &Directive| call_requires(*key_directive_arguments, (directive,)),
            forall|schema: &Schema, named_type: &String, fields: &String|
                call_requires(*collect_target_fields, (schema, named_type, fields)),
        ensures
            external_metadata(
                *key_directive_arguments,
                *collect_target_fields,
                *federation_spec_definition,
                *schema,
                match metadata {
                    Ok(found) => Ok(found@),
                    Err(error) => Err(error@),
                },
            ),
            metadata matches Ok(found) ==> found@.well_formed(),
    {
        let external_fields = match Self::collect_external_fields(
            federation_spec_definition,
            schema,
        ) {
            Ok(fields) => fields,
            Err(error) => {
                return Err(error);
            },
        };
        let fake_external_fields = match Self::collect_fake_externals(
            federation_spec_definition,
            schema,
            key_directive_arguments,
            collect_target_fields,
        ) {
            Ok(fields) => fields,
            Err(error) => {
                return Err(error);
            },
        };
        assert(has_fake_externals(*key_directive_arguments, *collect_target_fields, *schema)) by {
            assert(fake_externals(
                *key_directive_arguments,
                *collect_target_fields,
                *schema,
                Ok(set_items(fake_external_fields)),
            ));
        }
        let is_fed2 = federation_spec_definition.version().satisfies(
            &Version { major: 2, minor: 0 },
        );
        let fields_on_external_types = if is_fed2 {
            match Self::collect_fields_on_external_types(federation_spec_definition, schema) {
                Ok(fields) => fields,
                Err(error) => {
                    return Err(error);
                },
            }
        } else {
            empty_set()
        };
        let metadata = ExternalMetadata {
            external_fields,
            fake_external_fields,
            fields_on_external_types,
        };
        proof {
            law_collected_once(
                *key_directive_arguments,
                *collect_target_fields,
                *federation_spec_definition,
                *schema,
                metadata@,
            );
        }
        Ok(metadata)
    }

    /// Whether the field is external.
    pub fn is_external(&self, field_definition_position: &FieldDefinitionPosition) -> (external:
        bool)
        ensures
            external == self@.is_external(field_definition_position@),
    {
        let key = field_definition_position.key();
        (contains(&self.external_fields, &key) || contains(&self.fields_on_external_types, &key))
            && !self.is_fake_external(field_definition_position)
    }

    /// Whether the field is marked as external although it can't be, being part of a key.
    pub fn is_fake_external(&self, field_definition_position: &FieldDefinitionPosition) -> (fake:
        bool)
        ensures
            fake == self@.is_fake_external(field_definition_position@),
    {
        contains(&self.fake_external_fields, &field_definition_position.key())
    }

    /// Whether an external field is selected somewhere in the selection set.
    pub fn selects_any_external_field(&self, selection_set: &SelectionSet) -> (selects: bool)
        ensures
            selects == self@.selects_external(*selection_set),
        decreases selection_set,
    {
        let mut i: usize = 0;
        while i < selection_set.selections.len()
            invariant
                i <= selection_set.selections.len(),
                forall|j: int, key: FieldKey|
                    #![trigger selection_set.selections@[j].selects(key)]
                    0 <= j < i && selection_set.selections@[j].selects(key)
                        ==> !self@.is_external(key),
            decreases selection_set.selections.len() - i,
        {
            let selection = &selection_set.selections[i];
            if let Selection::Field(field_selection) = selection {
                if self.is_external(&field_selection.field_position) {
                    proof {
                        let key = field_selection.field_position@;
                        assert(selection_set.selections@[i as int].selects(key));
                        assert(selection_set.selects(key));
                    }
                    return true;
                }
            }
            if let Some(inner) = selection.selection_set() {
                if self.selects_any_external_field(inner) {
                    proof {
                        let key = choose|key: FieldKey|
                            #[trigger] inner.selects(key) && self@.is_external(key);
                        assert(selection_set.selections@[i as int].selects(key));
                        assert(selection_set.selects(key));
                    }
                    return true;
                }
            }
            assert forall|key: FieldKey|
                #[trigger] selection_set.selections@[i as int].selects(
                    key,
                ) implies !self@.is_external(key) by {
                if let Some(inner) = selection.inner() {
                    assert(inner.selects(key) ==> !self@.is_external(key));
                }
            }
            i += 1;
        }
        assert forall|key: FieldKey| #[trigger]
            selection_set.selects(key) implies !self@.is_external(key) by {
            let j = choose|j: int|
                0 <= j < selection_set.selections@.len() && (
                #[trigger] selection_set.selections@[j]).selects(key);
            assert(selection_set.selections@[j].selects(key));
        }
        false
    }
}

/// What is known of a subgraph schema.
#[derive(Debug)]
pub struct SubgraphMetadata {
    federation_spec_definition: &'static FederationSpecDefinition,
    external_metadata: ExternalMetadata,
}

impl Clone for SubgraphMetadata {
    fn clone(&self) -> (copied: Self)
        ensures
            copied.spec_definition() == self.spec_definition(),
            copied.external() == self.external(),
    {
        SubgraphMetadata {
            federation_spec_definition: self.federation_spec_definition,
            external_metadata: self.external_metadata.clone(),
        }
    }
}

impl SubgraphMetadata {
    /// The version of the federation specification that the schema follows.
    pub closed spec fn spec_definition(self) -> FederationSpecDefinition {
        *self.federation_spec_definition
    }

    /// What is known of the external fields.
    pub closed spec fn external(self) -> ExternalMetadataView {
        self.external_metadata@
    }

    /// Collects what the schema says.
    pub fn new<
        A: Fn(&Directive) -> Result<KeyDirectiveArguments, FederationError>,
        T: Fn(&Schema, &String, &String) -> Result<Vec<FieldDefinitionPosition>, FederationError>,
    >(
        schema: &FederationSchema,
        federation_spec_definition: &'static FederationSpecDefinition,
        key_directive_arguments: &A,
        collect_target_fields: &T,
    ) -> (metadata: Result<SubgraphMetadata, FederationError>)
        requires
            forall|directive: &Directive| call_requires(*key_directive_arguments, (directive,)),
            forall|schema: &Schema, named_type: &String, fields: &String|
                call_requires(*collect_target_fields, (schema, named_type, fields)),
        ensures
            external_metadata(
                *key_directive_arguments,
                *collect_target_fields,
                *federation_spec_definition,
                *schema,
                match metadata {
                    Ok(found) => Ok(found.external()),
                    Err(error) => Err(error@),
                },
            ),
            metadata matches Ok(found) ==> found.external().well_formed()
                && found.spec_definition() == *federation_spec_definition,
    {
        match ExternalMetadata::new(
            schema,
            federation_spec_definition,
            key_directive_arguments,
            collect_target_fields,
        ) {
            Ok(external_metadata) => Ok(
                SubgraphMetadata { federation_spec_definition, external_metadata },
            ),
            Err(error) => Err(error),
        }
    }

    /// The version of the federation specification that the schema follows.
    pub fn federation_spec_definition(&self) -> (definition: &'static FederationSpecDefinition)
        ensures
            *definition == self.spec_definition(),
    {
        self.federation_spec_definition
    }

    /// What is known of the external fields.
    pub fn external_metadata(&self) -> (metadata: &ExternalMetadata)
        ensures
            metadata@ == self.external(),
    {
        &self.external_metadata
    }
}

/// Taking a set that was collected by its view keeps success with the items, and failure with the view
/// of its error.
pub proof fn law_outcome_of_a_set(
    result: Result<IndexSet<(u8, String, String)>, FederationError>,
)
    ensures
        result matches Ok(set) ==> set_outcome(result) == Ok::<Seq<FieldKey>, ErrorView>(
            set_items(set),
        ),
        result matches Err(error) ==> set_outcome(result) == Err::<Seq<FieldKey>, ErrorView>(
            error@,
        ),
{
}

} // verus!
