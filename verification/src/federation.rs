//! Subgraph schemas, and what the federation specification defines in them.

use crate::ast::applies;
use crate::ast::find;
use crate::ast::law_first_entry_is_found;
use crate::ast::lookup;
use crate::ast::Component;
use crate::ast::ExtendedType;
use crate::ast::FieldDefinition;
use crate::ast::FieldsType;
use crate::ast::Schema;
use crate::error::ErrorView;
use crate::error::FederationError;
use crate::position::interface_field;
use crate::position::object_field;
use crate::position::FieldKey;
use crate::position::InterfaceFieldDefinitionPosition;
use crate::position::ObjectFieldDefinitionPosition;
use crate::position::ObjectOrInterfaceTypeDefinitionPosition;
use crate::position::INTERFACE_FIELD;
use crate::position::OBJECT_FIELD;
use vstd::prelude::*;

verus! {

/// The version of a specification.
#[derive(Debug, PartialEq, Eq, Clone, Copy, Structural)]
pub struct Version {
    pub major: u32,
    pub minor: u32,
}

impl Version {
    /// Whether what asks for the version `required` can have this version: the major versions are
    /// the same and the minor version is no lower, or, before the first major version, the same.
    pub open spec fn spec_satisfies(self, required: Version) -> bool {
        &&& self.major == required.major
        &&& if self.major == 0 {
            self.minor == required.minor
        } else {
            self.minor >= required.minor
        }
    }

    /// Whether what asks for the version `required` can have this version.
    pub fn satisfies(&self, required: &Version) -> (satisfied: bool)
        ensures
            satisfied == self.spec_satisfies(*required),
            self.major != required.major ==> !satisfied,
            self.major == required.major && self.major > 0 ==> (satisfied <==> self.minor
                >= required.minor),
            self.major == required.major && self.major == 0 ==> (satisfied <==> self.minor
                == required.minor),
    {
        self.major == required.major && (if self.major == 0 {
            self.minor == required.minor
        } else {
            self.minor >= required.minor
        })
    }
}

/// A version of the federation specification.
#[derive(Debug, PartialEq, Eq)]
pub struct FederationSpecDefinition {
    pub version: Version,
}

/// Where a directive is applied.
#[derive(Debug, PartialEq, Eq)]
pub struct DirectiveReferencers {
    /// The names of the object types with the directive.
    pub object_types: Vec<String>,
    pub object_fields: Vec<ObjectFieldDefinitionPosition>,
    /// The names of the interface types with the directive.
    pub interface_types: Vec<String>,
    pub interface_fields: Vec<InterfaceFieldDefinitionPosition>,
}

/// Where the directives are applied, by the names of the directives.
#[derive(Debug, PartialEq, Eq)]
pub struct Referencers {
    pub directives: Vec<(String, DirectiveReferencers)>,
}

/// The schema of a subgraph.
#[derive(Debug, PartialEq, Eq)]
pub struct FederationSchema {
    pub schema: Schema,
    pub referencers: Referencers,
    /// The names that the directives of the federation specification have in the schema, by their
    /// names in the specification.
    pub federation_directives: Vec<(String, String)>,
}

/// The arguments of `@key`.
#[derive(Debug, PartialEq, Eq)]
pub struct KeyDirectiveArguments {
    /// The field set.
    pub fields: String,
}

/// The keys of fields of object types.
pub open spec fn object_keys(fields: Seq<ObjectFieldDefinitionPosition>) -> Seq<FieldKey> {
    fields.map_values(
        |field: ObjectFieldDefinitionPosition| object_field(field.named_type@, field.field_name@),
    )
}

/// The keys of fields of interface types.
pub open spec fn interface_keys(fields: Seq<InterfaceFieldDefinitionPosition>) -> Seq<FieldKey> {
    fields.map_values(
        |field: InterfaceFieldDefinitionPosition|
            interface_field(field.named_type@, field.field_name@),
    )
}

/// The object fields, then the interface fields with a directive.
pub open spec fn fields_with(referencers: DirectiveReferencers) -> Seq<FieldKey> {
    object_keys(referencers.object_fields@) + interface_keys(referencers.interface_fields@)
}

/// Names as contracts see them.
pub open spec fn texts(names: Seq<String>) -> Seq<Seq<char>> {
    names.map_values(|name: String| name@)
}

impl Referencers {
    /// Where the directive `name` is applied.
    pub open spec fn of(self, name: Seq<char>) -> Result<DirectiveReferencers, ErrorView> {
        match lookup(self.directives@, name) {
            Some(referencers) => Ok(referencers),
            None => Err(ErrorView::MissingReferencers { directive_name: name }),
        }
    }

    /// Where the directive `name` is applied.
    pub fn get_directive(&self, name: &String) -> (referencers: Result<
        &DirectiveReferencers,
        FederationError,
    >)
        ensures
            match referencers {
                Ok(found) => self.of(name@) == Ok::<DirectiveReferencers, ErrorView>(*found),
                Err(error) => self.of(name@) == Err::<DirectiveReferencers, ErrorView>(error@),
            },
    {
        match find(&self.directives, name) {
            Some(referencers) => Ok(referencers),
            None => Err(FederationError::MissingReferencers { directive_name: name.clone() }),
        }
    }
}

impl Schema {
    /// The object type of the name `name`.
    pub open spec fn object_type(self, name: Seq<char>) -> Result<FieldsType, ErrorView> {
        match lookup(self.types@, name) {
            Some(ExtendedType::Object(node)) => Ok(node),
            _ => Err(ErrorView::MissingObjectType { named_type: name }),
        }
    }

    /// The interface type of the name `name`.
    pub open spec fn interface_type(self, name: Seq<char>) -> Result<FieldsType, ErrorView> {
        match lookup(self.types@, name) {
            Some(ExtendedType::Interface(node)) => Ok(node),
            _ => Err(ErrorView::MissingInterfaceType { named_type: name }),
        }
    }

    /// The directive applications on the type at `position`.
    pub open spec fn type_directives(
        self,
        position: ObjectOrInterfaceTypeDefinitionPosition,
    ) -> Result<Seq<Component>, ErrorView> {
        let node = match position {
            ObjectOrInterfaceTypeDefinitionPosition::Object(name) => self.object_type(name@),
            ObjectOrInterfaceTypeDefinitionPosition::Interface(name) => self.interface_type(name@),
        };
        match node {
            Ok(node) => Ok(node.directives@),
            Err(error) => Err(error),
        }
    }

    /// Whether the object type `named_type` has the directive `name`.
    pub open spec fn object_has(self, named_type: Seq<char>, name: Seq<char>) -> bool {
        self.object_type(named_type) matches Ok(node) && applies(node.directives@, name)
    }

    /// Whether the interface type `named_type` has the directive `name`.
    pub open spec fn interface_has(self, named_type: Seq<char>, name: Seq<char>) -> bool {
        self.interface_type(named_type) matches Ok(node) && applies(node.directives@, name)
    }

    /// The definition of a field of an object or interface type.
    pub open spec fn field_definition(self, key: FieldKey) -> Option<FieldDefinition> {
        if key.0 == OBJECT_FIELD {
            match self.object_type(key.1) {
                Ok(node) => lookup(node.fields@, key.2),
                Err(_) => None,
            }
        } else if key.0 == INTERFACE_FIELD {
            match self.interface_type(key.1) {
                Ok(node) => lookup(node.fields@, key.2),
                Err(_) => None,
            }
        } else {
            None
        }
    }

    /// Whether the field has the directive `name`.
    pub open spec fn field_has(self, key: FieldKey, name: Seq<char>) -> bool {
        self.field_definition(key) matches Some(definition) && exists|d: int|
            0 <= d < definition.directives@.len() && (#[trigger] definition.directives@[d]).name@
                == name
    }

    /// Whether the field is one of an object type that has the directive `name`.
    pub open spec fn parent_has(self, key: FieldKey, name: Seq<char>) -> bool {
        &&& key.0 == OBJECT_FIELD
        &&& self.field_definition(key) is Some
        &&& self.object_has(key.1, name)
    }

    /// Finds the object type of the name `name`.
    pub fn get_object_type(&self, name: &String) -> (node: Result<&FieldsType, FederationError>)
        ensures
            match node {
                Ok(found) => self.object_type(name@) == Ok::<FieldsType, ErrorView>(*found),
                Err(error) => self.object_type(name@) == Err::<FieldsType, ErrorView>(error@),
            },
    {
        match find(&self.types, name) {
            Some(ExtendedType::Object(node)) => Ok(node),
            _ => Err(FederationError::MissingObjectType { named_type: name.clone() }),
        }
    }

    /// Finds the interface type of the name `name`.
    pub fn get_interface_type(&self, name: &String) -> (node: Result<&FieldsType, FederationError>)
        ensures
            match node {
                Ok(found) => self.interface_type(name@) == Ok::<FieldsType, ErrorView>(*found),
                Err(error) => self.interface_type(name@) == Err::<FieldsType, ErrorView>(error@),
            },
    {
        match find(&self.types, name) {
            Some(ExtendedType::Interface(node)) => Ok(node),
            _ => Err(FederationError::MissingInterfaceType { named_type: name.clone() }),
        }
    }

    /// Finds the directive applications on the type at `position`.
    pub fn get_type_directives(
        &self,
        position: &ObjectOrInterfaceTypeDefinitionPosition,
    ) -> (directives: Result<&Vec<Component>, FederationError>)
        ensures
            match directives {
                Ok(found) => self.type_directives(*position) == Ok::<Seq<Component>, ErrorView>(
                    found@,
                ),
                Err(error) => self.type_directives(*position) == Err::<Seq<Component>, ErrorView>(
                    error@,
                ),
            },
    {
        let node = match position {
            ObjectOrInterfaceTypeDefinitionPosition::Object(name) => self.get_object_type(name),
            ObjectOrInterfaceTypeDefinitionPosition::Interface(name) => self.get_interface_type(
                name,
            ),
        };
        match node {
            Ok(node) => Ok(&node.directives),
            Err(error) => Err(error),
        }
    }
}

impl FederationSchema {
    /// The name in the schema of the federation directive `name_in_spec`.
    pub open spec fn definition(self, name_in_spec: Seq<char>) -> Result<String, ErrorView> {
        match lookup(self.federation_directives@, name_in_spec) {
            Some(name) => Ok(name),
            None => Err(ErrorView::UndefinedDirective { name_in_spec }),
        }
    }

    /// Whether the referencers of the directive `name` are exactly the types and fields of the
    /// schema that have it.
    pub open spec fn refers(self, name: Seq<char>) -> bool {
        self.referencers.of(name) matches Ok(referencers) ==> {
            &&& forall|key: FieldKey|
                fields_with(referencers).contains(key) <==> #[trigger] self.schema.field_has(
                    key,
                    name,
                )
            &&& forall|named_type: Seq<char>|
                texts(referencers.object_types@).contains(named_type)
                    <==> #[trigger] self.schema.object_has(named_type, name)
            &&& forall|named_type: Seq<char>|
                texts(referencers.interface_types@).contains(named_type)
                    <==> #[trigger] self.schema.interface_has(named_type, name)
        }
    }

    /// Whether the schema is well-formed and its referencers are those of its directives.
    pub open spec fn well_formed(self) -> bool {
        &&& self.schema.well_formed()
        &&& forall|name: Seq<char>| #[trigger] self.refers(name)
    }

    /// The schema itself.
    pub fn schema(&self) -> (schema: &Schema)
        ensures
            *schema == self.schema,
    {
        &self.schema
    }
}

impl FederationSpecDefinition {
    /// The version of the specification.
    pub fn version(&self) -> (version: &Version)
        ensures
            *version == self.version,
    {
        &self.version
    }

    /// The name in the schema of the federation directive `name_in_spec`.
    pub fn directive_definition<'a>(
        &self,
        schema: &'a FederationSchema,
        name_in_spec: &str,
    ) -> (name: Result<&'a String, FederationError>)
        ensures
            match name {
                Ok(found) => schema.definition(name_in_spec@) == Ok::<String, ErrorView>(*found),
                Err(error) => schema.definition(name_in_spec@) == Err::<String, ErrorView>(error@),
            },
    {
        let name_in_spec: String = name_in_spec.to_owned();
        match find(&schema.federation_directives, &name_in_spec) {
            Some(name) => Ok(name),
            None => Err(FederationError::UndefinedDirective { name_in_spec }),
        }
    }

    /// The name in the schema of `@external`.
    pub fn external_directive_definition<'a>(&self, schema: &'a FederationSchema) -> (name: Result<
        &'a String,
        FederationError,
    >)
        ensures
            match name {
                Ok(found) => schema.definition("external"@) == Ok::<String, ErrorView>(*found),
                Err(error) => schema.definition("external"@) == Err::<String, ErrorView>(error@),
            },
    {
        self.directive_definition(schema, "external")
    }

    /// The name in the schema of `@extends`.
    pub fn extends_directive_definition<'a>(&self, schema: &'a FederationSchema) -> (name: Result<
        &'a String,
        FederationError,
    >)
        ensures
            match name {
                Ok(found) => schema.definition("extends"@) == Ok::<String, ErrorView>(*found),
                Err(error) => schema.definition("extends"@) == Err::<String, ErrorView>(error@),
            },
    {
        self.directive_definition(schema, "extends")
    }

    /// The name in the schema of `@key`.
    pub fn key_directive_definition<'a>(&self, schema: &'a FederationSchema) -> (name: Result<
        &'a String,
        FederationError,
    >)
        ensures
            match name {
                Ok(found) => schema.definition("key"@) == Ok::<String, ErrorView>(*found),
                Err(error) => schema.definition("key"@) == Err::<String, ErrorView>(error@),
            },
    {
        self.directive_definition(schema, "key")
    }
}

/// A version satisfies itself, and only versions of its own major version; a higher minor version
/// satisfies what a lower one does, except before the first major version, where only the same
/// version does.
pub proof fn law_satisfied_versions(version: Version, required: Version, higher: Version)
    ensures
        version.spec_satisfies(version),
        version.spec_satisfies(required) ==> version.major == required.major,
        version.spec_satisfies(required) ==> version.minor >= required.minor,
        version.major == 0 && version.spec_satisfies(required) ==> version == required,
        version.major > 0 && version.spec_satisfies(required) && higher.major == version.major
            && higher.minor >= version.minor ==> higher.spec_satisfies(required),
{
}

/// The name that a federation directive has in the schema is that of the first entry for it, whose
/// index is given back; it is undefined exactly if there is no entry for it.
pub proof fn law_definition_of_a_directive(schema: FederationSchema, name_in_spec: Seq<char>) -> (i:
    int)
    ensures
        match schema.definition(name_in_spec) {
            Ok(name) => {
                &&& 0 <= i < schema.federation_directives@.len()
                &&& schema.federation_directives@[i].0@ == name_in_spec
                &&& schema.federation_directives@[i].1 == name
                &&& forall|j: int|
                    0 <= j < i ==> (#[trigger] schema.federation_directives@[j]).0@ != name_in_spec
            },
            Err(error) => {
                &&& error == (ErrorView::UndefinedDirective { name_in_spec })
                &&& forall|j: int|
                    0 <= j < schema.federation_directives@.len() ==> (
                    #[trigger] schema.federation_directives@[j]).0@ != name_in_spec
            },
        },
{
    law_first_entry_is_found(schema.federation_directives@, name_in_spec)
}

/// Where a directive is applied is what the first entry of its name says, whose index is given back;
/// it is unknown exactly if there is no entry of its name.
pub proof fn law_recorded_referencers(referencers: Referencers, name: Seq<char>) -> (i: int)
    ensures
        match referencers.of(name) {
            Ok(found) => {
                &&& 0 <= i < referencers.directives@.len()
                &&& referencers.directives@[i].0@ == name
                &&& referencers.directives@[i].1 == found
                &&& forall|j: int|
                    0 <= j < i ==> (#[trigger] referencers.directives@[j]).0@ != name
            },
            Err(error) => {
                &&& error == (ErrorView::MissingReferencers { directive_name: name })
                &&& forall|j: int|
                    0 <= j < referencers.directives@.len() ==> (
                    #[trigger] referencers.directives@[j]).0@ != name
            },
        },
{
    law_first_entry_is_found(referencers.directives@, name)
}

/// The type of a name is the first type of that name, whose index is given back: as an object type
/// it is found exactly if it is one, and as an interface type exactly if it is one.
pub proof fn law_type_of_a_name(schema: Schema, name: Seq<char>) -> (i: int)
    ensures
        (forall|j: int| 0 <= j < schema.types@.len() ==> (#[trigger] schema.types@[j]).0@ != name)
            || {
            &&& 0 <= i < schema.types@.len()
            &&& schema.types@[i].0@ == name
            &&& forall|j: int| 0 <= j < i ==> (#[trigger] schema.types@[j]).0@ != name
        },
        match schema.object_type(name) {
            Ok(node) => {
                &&& 0 <= i < schema.types@.len()
                &&& schema.types@[i].0@ == name
                &&& schema.types@[i].1 == ExtendedType::Object(node)
            },
            Err(error) => {
                &&& error == (ErrorView::MissingObjectType { named_type: name })
                &&& 0 <= i < schema.types@.len() && schema.types@[i].0@ == name
                    ==> !(schema.types@[i].1 is Object)
            },
        },
        match schema.interface_type(name) {
            Ok(node) => {
                &&& 0 <= i < schema.types@.len()
                &&& schema.types@[i].0@ == name
                &&& schema.types@[i].1 == ExtendedType::Interface(node)
            },
            Err(error) => {
                &&& error == (ErrorView::MissingInterfaceType { named_type: name })
                &&& 0 <= i < schema.types@.len() && schema.types@[i].0@ == name
                    ==> !(schema.types@[i].1 is Interface)
            },
        },
{
    law_first_entry_is_found(schema.types@, name)
}

/// The directive applications on a type are all those that its definition holds.
pub proof fn law_directives_of_a_type(schema: Schema, name: String)
    ensures
        match schema.object_type(name@) {
            Ok(node) => schema.type_directives(
                ObjectOrInterfaceTypeDefinitionPosition::Object(name),
            ) == Ok::<Seq<Component>, ErrorView>(node.directives@),
            Err(error) => schema.type_directives(
                ObjectOrInterfaceTypeDefinitionPosition::Object(name),
            ) == Err::<Seq<Component>, ErrorView>(error),
        },
        match schema.interface_type(name@) {
            Ok(node) => schema.type_directives(
                ObjectOrInterfaceTypeDefinitionPosition::Interface(name),
            ) == Ok::<Seq<Component>, ErrorView>(node.directives@),
            Err(error) => schema.type_directives(
                ObjectOrInterfaceTypeDefinitionPosition::Interface(name),
            ) == Err::<Seq<Component>, ErrorView>(error),
        },
        ObjectOrInterfaceTypeDefinitionPosition::Object(name).name() == name,
        ObjectOrInterfaceTypeDefinitionPosition::Interface(name).name() == name,
{
}

/// The fields with a directive are the recorded object fields, then the recorded interface fields,
/// all of them in order.
pub proof fn law_fields_with_a_directive(referencers: DirectiveReferencers)
    ensures
        fields_with(referencers).len() == referencers.object_fields@.len()
            + referencers.interface_fields@.len(),
        forall|i: int|
            0 <= i < referencers.object_fields@.len() ==> fields_with(referencers)[i] == (
                0u8,
                (#[trigger] referencers.object_fields@[i]).named_type@,
                referencers.object_fields@[i].field_name@,
            ),
        forall|i: int|
            0 <= i < referencers.interface_fields@.len() ==> fields_with(
                referencers,
            )[referencers.object_fields@.len() + i] == (
                1u8,
                (#[trigger] referencers.interface_fields@[i]).named_type@,
                referencers.interface_fields@[i].field_name@,
            ),
{
}

} // verus!
