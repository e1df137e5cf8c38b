//! GraphQL values, directives and types, with what the readers look at.

use vstd::prelude::*;

verus! {

/// A GraphQL value. Numbers are kept as the text they were written in.
#[derive(Debug, PartialEq, Eq)]
pub enum Value {
    Null,
    Enum(String),
    Variable(String),
    String(String),
    Float(String),
    Int(String),
    Boolean(bool),
    List(Vec<Value>),
    Object(Vec<(String, Value)>),
}

impl Value {
    /// The text of a string value.
    pub open spec fn text(self) -> Option<String> {
        match self {
            Value::String(text) => Some(text),
            _ => None,
        }
    }

    /// The fields of an object value.
    pub open spec fn fields(self) -> Option<Vec<(String, Value)>> {
        match self {
            Value::Object(fields) => Some(fields),
            _ => None,
        }
    }

    /// The truth value of a boolean value.
    pub open spec fn truth(self) -> Option<bool> {
        match self {
            Value::Boolean(truth) => Some(truth),
            _ => None,
        }
    }

    /// The text of a string value.
    pub fn as_str(&self) -> (text: Option<&String>)
        ensures
            text is Some <==> self.text() is Some,
            text matches Some(found) ==> self.text() == Some(*found),
            text is Some <==> self is String,
            text matches Some(found) ==> *self == Value::String(*found),
    {
        match self {
            Value::String(text) => Some(text),
            _ => None,
        }
    }

    /// The fields of an object value, in order.
    pub fn as_object(&self) -> (fields: Option<&Vec<(String, Value)>>)
        ensures
            fields is Some <==> self.fields() is Some,
            fields matches Some(found) ==> self.fields() == Some(*found),
            fields is Some <==> self is Object,
            fields matches Some(found) ==> *self == Value::Object(*found),
    {
        match self {
            Value::Object(fields) => Some(fields),
            _ => None,
        }
    }

    /// The truth value of a boolean value.
    pub fn to_bool(&self) -> (truth: Option<bool>)
        ensures
            truth == self.truth(),
            truth is Some <==> self is Boolean,
            truth matches Some(found) ==> *self == Value::Boolean(found),
    {
        match self {
            Value::Boolean(truth) => Some(*truth),
            _ => None,
        }
    }
}

/// An argument of a directive application.
#[derive(Debug, PartialEq, Eq)]
pub struct Argument {
    pub name: String,
    pub value: Value,
}

/// A directive application.
#[derive(Debug, PartialEq, Eq)]
pub struct Directive {
    pub name: String,
    pub arguments: Vec<Argument>,
}

/// Where a part of a schema or of a type was written.
#[derive(Debug, PartialEq, Eq, Clone, Copy, Structural)]
pub enum ComponentOrigin {
    /// In the definition itself.
    Definition,
    /// In an extension.
    Extension,
}

/// A directive application on a schema or on a type, with its origin.
#[derive(Debug, PartialEq, Eq)]
pub struct Component {
    pub origin: ComponentOrigin,
    pub directive: Directive,
}

/// The definition of a field.
#[derive(Debug, PartialEq, Eq)]
pub struct FieldDefinition {
    pub directives: Vec<Directive>,
}

/// An object or interface type, with the parts of its extensions folded in.
#[derive(Debug, PartialEq, Eq)]
pub struct FieldsType {
    pub directives: Vec<Component>,
    pub fields: Vec<(String, FieldDefinition)>,
}

/// The definition of a named type.
#[derive(Debug, PartialEq, Eq)]
pub enum ExtendedType {
    Scalar,
    Object(FieldsType),
    Interface(FieldsType),
    Union,
    Enum,
    InputObject,
}

/// The `schema` definition and its extensions.
#[derive(Debug, PartialEq, Eq)]
pub struct SchemaDefinition {
    pub directives: Vec<Component>,
}

/// A GraphQL schema.
#[derive(Debug, PartialEq, Eq)]
pub struct Schema {
    pub schema_definition: SchemaDefinition,
    /// The named types, in order.
    pub types: Vec<(String, ExtendedType)>,
}

/// Whether a name is the given text.
pub fn is_named(name: &String, text: &str) -> (same: bool)
    ensures
        same == (name@ == text@),
{
    *name == text.to_owned()
}

/// What `entries` holds first under `name`.
pub open spec fn lookup<A>(entries: Seq<(String, A)>, name: Seq<char>) -> Option<A>
    decreases entries.len(),
{
    if entries.len() == 0 {
        None
    } else if entries[0].0@ == name {
        Some(entries[0].1)
    } else {
        lookup(entries.drop_first(), name)
    }
}

/// Finds what `entries` holds first under `name`.
pub fn find<'a, A>(entries: &'a Vec<(String, A)>, name: &String) -> (found: Option<&'a A>)
    ensures
        found is Some <==> lookup(entries@, name@) is Some,
        found matches Some(value) ==> lookup(entries@, name@) == Some(*value),
{
    let mut i: usize = 0;
    proof {
        assert(entries@.skip(0) =~= entries@);
    }
    while i < entries.len()
        invariant
            i <= entries.len(),
            lookup(entries@, name@) == lookup(entries@.skip(i as int), name@),
        decreases entries.len() - i,
    {
        proof {
            assert(entries@.skip(i as int)[0] == entries@[i as int]);
            assert(entries@.skip(i as int).drop_first() =~= entries@.skip(i + 1));
        }
        if entries[i].0 == *name {
            return Some(&entries[i].1);
        }
        i += 1;
    }
    None
}

/// The applications among `directives` of the directive `name`, in order.
pub open spec fn applications_of(directives: Seq<Component>, name: Seq<char>) -> Seq<Component> {
    directives.filter(|component: Component| component.directive.name@ == name)
}

/// Whether `directives` has an application of the directive `name`.
pub open spec fn applies(directives: Seq<Component>, name: Seq<char>) -> bool {
    exists|i: int| 0 <= i < directives.len() && #[trigger] directives[i].directive.name@ == name
}

/// Whether there is an application of the directive `name`.
pub fn has(directives: &Vec<Component>, name: &String) -> (found: bool)
    ensures
        found == applies(directives@, name@),
        found <==> exists|i: int|
            0 <= i < directives@.len() && #[trigger] directives@[i].directive.name@ == name@,
{
    let mut i: usize = 0;
    while i < directives.len()
        invariant
            i <= directives.len(),
            forall|j: int| 0 <= j < i ==> #[trigger] directives@[j].directive.name@ != name@,
        decreases directives.len() - i,
    {
        if directives[i].directive.name == *name {
            assert(directives@[i as int].directive.name@ == name@);
            return true;
        }
        i += 1;
    }
    false
}

/// Finds the applications of the directive `name`, in order.
pub fn get_all<'a>(directives: &'a Vec<Component>, name: &String) -> (found: Vec<&'a Component>)
    ensures
        found@.unref() == applications_of(directives@, name@),
{
    let mut found: Vec<&'a Component> = Vec::new();
    let mut i: usize = 0;
    let ghost named = |component: Component| component.directive.name@ == name@;
    proof {
        reveal(Seq::filter);
        assert(directives@.take(0).filter(named) =~= Seq::<Component>::empty());
        assert(found@.unref() =~= Seq::<Component>::empty());
    }
    while i < directives.len()
        invariant
            i <= directives.len(),
            named == (|component: Component| component.directive.name@ == name@),
            found@.unref() == directives@.take(i as int).filter(named),
        decreases directives.len() - i,
    {
        proof {
            reveal(Seq::filter);
            assert(directives@.take(i + 1).drop_last() =~= directives@.take(i as int));
            assert(directives@.take(i + 1).last() == directives@[i as int]);
        }
        let ghost before = found@;
        if directives[i].directive.name == *name {
            found.push(&directives[i]);
            assert(found@.unref() =~= before.unref().push(directives@[i as int]));
        }
        i += 1;
    }
    assert(directives@.take(i as int) =~= directives@);
    found
}

/// Whether no name is used twice.
pub open spec fn distinct_names<A>(entries: Seq<(String, A)>) -> bool {
    forall|i: int, j: int|
        #![trigger entries[i], entries[j]]
        0 <= i < j < entries.len() ==> entries[i].0@ != entries[j].0@
}

/// The fields of an object or interface type.
pub open spec fn fields_of(ty: ExtendedType) -> Seq<(String, FieldDefinition)> {
    match ty {
        ExtendedType::Object(node) => node.fields@,
        ExtendedType::Interface(node) => node.fields@,
        _ => Seq::empty(),
    }
}

impl Schema {
    /// Whether no type name is used twice, nor a field name within a type.
    pub open spec fn well_formed(self) -> bool {
        &&& distinct_names(self.types@)
        &&& forall|t: int|
            0 <= t < self.types@.len() ==> distinct_names(fields_of((#[trigger] self.types@[t]).1))
    }
}

/// Something is found under a name exactly if an entry has the name.
pub proof fn law_named_entry_is_found<A>(entries: Seq<(String, A)>, name: Seq<char>)
    ensures
        lookup(entries, name) is Some <==> exists|i: int|
            0 <= i < entries.len() && (#[trigger] entries[i]).0@ == name,
    decreases entries.len(),
{
    if entries.len() > 0 {
        let rest = entries.drop_first();
        law_named_entry_is_found(rest, name);
        if entries[0].0@ != name && lookup(rest, name) is Some {
            let i = choose|i: int| 0 <= i < rest.len() && (#[trigger] rest[i]).0@ == name;
            assert(entries[i + 1].0@ == name);
        }
        if exists|i: int| 0 <= i < entries.len() && (#[trigger] entries[i]).0@ == name {
            let i = choose|i: int| 0 <= i < entries.len() && (#[trigger] entries[i]).0@ == name;
            if i > 0 {
                assert(rest[i - 1].0@ == name);
            }
        }
    }
}

/// Where no name is used twice, each entry is found under its name.
pub proof fn law_entry_is_found<A>(entries: Seq<(String, A)>, i: int)
    requires
        distinct_names(entries),
        0 <= i < entries.len(),
    ensures
        lookup(entries, entries[i].0@) == Some(entries[i].1),
    decreases entries.len(),
{
    if i > 0 {
        assert(entries[0].0@ != entries[i].0@);
        let rest = entries.drop_first();
        assert forall|j: int, k: int|
            #![trigger rest[j], rest[k]]
            0 <= j < k < rest.len() implies rest[j].0@ != rest[k].0@ by {
            assert(entries[j + 1].0@ != entries[k + 1].0@);
        }
        assert(rest[i - 1] == entries[i]);
        law_entry_is_found(rest, i - 1);
    }
}

/// A value has a text, fields or a truth value exactly if it is a string, an object or a boolean,
/// and then these are the ones that it holds.
pub proof fn law_parts_of_a_value(value: Value, text: String, fields: Vec<(String, Value)>, truth: bool)
    ensures
        value.text() == Some(text) <==> value == Value::String(text),
        value.text() is Some <==> value is String,
        value.fields() == Some(fields) <==> value == Value::Object(fields),
        value.fields() is Some <==> value is Object,
        value.truth() == Some(truth) <==> value == Value::Boolean(truth),
        value.truth() is Some <==> value is Boolean,
{
}

/// What is found under a name is the value of the first entry of that name, whose index is given
/// back; where nothing is found, no entry has the name.
pub proof fn law_first_entry_is_found<A>(entries: Seq<(String, A)>, name: Seq<char>) -> (i: int)
    ensures
        lookup(entries, name) matches Some(value) ==> {
            &&& 0 <= i < entries.len()
            &&& entries[i].0@ == name
            &&& entries[i].1 == value
            &&& forall|j: int| 0 <= j < i ==> (#[trigger] entries[j]).0@ != name
        },
        lookup(entries, name) is None ==> forall|j: int|
            0 <= j < entries.len() ==> (#[trigger] entries[j]).0@ != name,
    decreases entries.len(),
{
    if entries.len() == 0 || entries[0].0@ == name {
        0
    } else {
        let rest = entries.drop_first();
        let i = law_first_entry_is_found(rest, name);
        assert forall|j: int|
            0 <= j < entries.len() && (lookup(rest, name) is Some ==> j < i + 1) implies (
        #[trigger] entries[j]).0@ != name by {
            if j > 0 {
                assert(rest[j - 1] == entries[j]);
            }
        }
        i + 1
    }
}

/// The applications of a directive, in the order in which they were written: `places[n]` is the
/// index of the one at `n`. They are all applications of that name, each once.
pub proof fn law_applications_in_order(directives: Seq<Component>, name: Seq<char>) -> (places: Seq<
    int,
>)
    ensures
        places.len() == applications_of(directives, name).len(),
        forall|n: int|
            0 <= n < places.len() ==> {
                &&& 0 <= #[trigger] places[n] < directives.len()
                &&& directives[places[n]].directive.name@ == name
                &&& applications_of(directives, name)[n] == directives[places[n]]
            },
        forall|i: int|
            0 <= i < directives.len() && directives[i].directive.name@ == name
                ==> #[trigger] places.contains(i),
        forall|n: int, m: int|
            #![trigger places[n], places[m]]
            0 <= n < m < places.len() ==> places[n] < places[m],
    decreases directives.len(),
{
    reveal(Seq::filter);
    if directives.len() == 0 {
        Seq::empty()
    } else {
        let last = directives.len() - 1;
        let before = directives.drop_last();
        let places = law_applications_in_order(before, name);
        let all = if directives[last].directive.name@ == name {
            places.push(last)
        } else {
            places
        };
        assert(directives.last() == directives[last]);
        assert forall|n: int| 0 <= n < places.len() implies {
            &&& 0 <= #[trigger] places[n] < last
            &&& directives[places[n]] == before[places[n]]
        } by {}
        assert forall|i: int|
            0 <= i < directives.len() && directives[i].directive.name@
                == name implies #[trigger] all.contains(i) by {
            if i < last {
                assert(before[i] == directives[i]);
                assert(places.contains(i));
                let n = choose|n: int| 0 <= n < places.len() && places[n] == i;
                assert(all[n] == i);
            } else {
                assert(all[all.len() - 1] == i);
            }
        }
        all
    }
}

/// There is an application of a directive exactly if some application has its name.
pub proof fn law_applied_by_name(directives: Seq<Component>, name: Seq<char>)
    ensures
        applies(directives, name) <==> exists|i: int|
            0 <= i < directives.len() && #[trigger] directives[i].directive.name@ == name,
{
}

} // verus!
