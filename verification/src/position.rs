//! Positions of types, fields and directive applications in a schema.

use vstd::prelude::*;

verus! {

/// A field of an object type.
#[derive(Debug, PartialEq, Eq)]
pub struct ObjectFieldDefinitionPosition {
    pub named_type: String,
    pub field_name: String,
}

/// A field of an interface type.
#[derive(Debug, PartialEq, Eq)]
pub struct InterfaceFieldDefinitionPosition {
    pub named_type: String,
    pub field_name: String,
}

/// The `__typename` field of a union type.
#[derive(Debug, PartialEq, Eq)]
pub struct UnionTypenameFieldDefinitionPosition {
    pub named_type: String,
}

/// A field of a type that has fields to select.
#[derive(Debug, PartialEq, Eq)]
pub enum FieldDefinitionPosition {
    Object(ObjectFieldDefinitionPosition),
    Interface(InterfaceFieldDefinitionPosition),
    Union(UnionTypenameFieldDefinitionPosition),
}

/// Marks the field of an object type in a key.
pub const OBJECT_FIELD: u8 = 0;

/// Marks the field of an interface type in a key.
pub const INTERFACE_FIELD: u8 = 1;

/// Marks the `__typename` field of a union type in a key.
pub const UNION_FIELD: u8 = 2;

/// A field position in plain values: the kind of its type, the type's name and the field's name.
pub type FieldKey = (u8, Seq<char>, Seq<char>);

/// The key of a field of an object type.
pub open spec fn object_field(named_type: Seq<char>, field_name: Seq<char>) -> FieldKey {
    (OBJECT_FIELD, named_type, field_name)
}

/// The key of a field of an interface type.
pub open spec fn interface_field(named_type: Seq<char>, field_name: Seq<char>) -> FieldKey {
    (INTERFACE_FIELD, named_type, field_name)
}

impl View for FieldDefinitionPosition {
    type V = FieldKey;

    open spec fn view(&self) -> FieldKey {
        match self {
            FieldDefinitionPosition::Object(field) => object_field(
                field.named_type@,
                field.field_name@,
            ),
            FieldDefinitionPosition::Interface(field) => interface_field(
                field.named_type@,
                field.field_name@,
            ),
            FieldDefinitionPosition::Union(field) => (
                UNION_FIELD,
                field.named_type@,
                Seq::<char>::empty(),
            ),
        }
    }
}

impl FieldDefinitionPosition {
    /// The key under which the position is kept in a set.
    pub fn key(&self) -> (key: (u8, String, String))
        ensures
            (key.0, key.1@, key.2@) == self@,
            match *self {
                FieldDefinitionPosition::Object(field) => {
                    key.0 == 0 && key.1@ == field.named_type@ && key.2@ == field.field_name@
                },
                FieldDefinitionPosition::Interface(field) => {
                    key.0 == 1 && key.1@ == field.named_type@ && key.2@ == field.field_name@
                },
                FieldDefinitionPosition::Union(field) => {
                    key.0 == 2 && key.1@ == field.named_type@ && key.2@.len() == 0
                },
            },
    {
        match self {
            FieldDefinitionPosition::Object(field) => (
                OBJECT_FIELD,
                field.named_type.clone(),
                field.field_name.clone(),
            ),
            FieldDefinitionPosition::Interface(field) => (
                INTERFACE_FIELD,
                field.named_type.clone(),
                field.field_name.clone(),
            ),
            FieldDefinitionPosition::Union(field) => (
                UNION_FIELD,
                field.named_type.clone(),
                String::new(),
            ),
        }
    }
}

/// A field of an object or interface type.
#[derive(Debug, PartialEq, Eq)]
pub enum ObjectOrInterfaceFieldDefinitionPosition {
    Object(ObjectFieldDefinitionPosition),
    Interface(InterfaceFieldDefinitionPosition),
}

/// A directive application on a field: the field, the directive's name, and the index of the
/// application among all directive applications on the field.
#[derive(Debug, PartialEq, Eq)]
pub struct ObjectOrInterfaceFieldDirectivePosition {
    pub field: ObjectOrInterfaceFieldDefinitionPosition,
    pub directive_name: String,
    pub directive_index: usize,
}

impl ObjectOrInterfaceFieldDirectivePosition {
    /// The place of the application in plain values: the key of the field, and the index among all
    /// directive applications on the field. The directive's name is no part of it: the two others
    /// tell applications apart without it.
    pub open spec fn place(self) -> (FieldKey, int) {
        (
            match self.field {
                ObjectOrInterfaceFieldDefinitionPosition::Object(field) => object_field(
                    field.named_type@,
                    field.field_name@,
                ),
                ObjectOrInterfaceFieldDefinitionPosition::Interface(field) => interface_field(
                    field.named_type@,
                    field.field_name@,
                ),
            },
            self.directive_index as int,
        )
    }
}

/// An object or interface type, by its name.
#[derive(Debug, PartialEq, Eq)]
pub enum ObjectOrInterfaceTypeDefinitionPosition {
    Object(String),
    Interface(String),
}

impl ObjectOrInterfaceTypeDefinitionPosition {
    /// The name of the type.
    pub open spec fn name(self) -> String {
        match self {
            ObjectOrInterfaceTypeDefinitionPosition::Object(name) => name,
            ObjectOrInterfaceTypeDefinitionPosition::Interface(name) => name,
        }
    }

    /// The name of the type.
    pub fn named_type(&self) -> (name: &String)
        ensures
            *name == self.name(),
    {
        match self {
            ObjectOrInterfaceTypeDefinitionPosition::Object(name) => name,
            ObjectOrInterfaceTypeDefinitionPosition::Interface(name) => name,
        }
    }
}

/// Two positions have the same key exactly if they are of the same kind and name the same type
/// and the same field.
pub proof fn law_key_tells_positions_apart(
    first: FieldDefinitionPosition,
    second: FieldDefinitionPosition,
)
    ensures
        first@ == second@ <==> match (first, second) {
            (FieldDefinitionPosition::Object(x), FieldDefinitionPosition::Object(y)) => {
                x.named_type@ == y.named_type@ && x.field_name@ == y.field_name@
            },
            (FieldDefinitionPosition::Interface(x), FieldDefinitionPosition::Interface(y)) => {
                x.named_type@ == y.named_type@ && x.field_name@ == y.field_name@
            },
            (FieldDefinitionPosition::Union(x), FieldDefinitionPosition::Union(y)) => {
                x.named_type@ == y.named_type@
            },
            _ => false,
        },
{
}

/// The key of a position tells the kind of its type, the type's name and the field's name.
pub proof fn law_key_of_a_position(position: FieldDefinitionPosition)
    ensures
        match position {
            FieldDefinitionPosition::Object(field) => position@ == (
                0u8,
                field.named_type@,
                field.field_name@,
            ),
            FieldDefinitionPosition::Interface(field) => position@ == (
                1u8,
                field.named_type@,
                field.field_name@,
            ),
            FieldDefinitionPosition::Union(field) => position@ == (
                2u8,
                field.named_type@,
                Seq::<char>::empty(),
            ),
        },
{
}

} // verus!
