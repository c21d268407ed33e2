//! Adapters from declarations.
//!
//! A record type can get its adapter from its declaration: an `indexable`
//! attribute names the fields that give the identity, the collection and
//! the text to embed. This module decides what such a declaration means.
//! Reading the declaration and writing out the adapter is left to the
//! caller.

use vstd::prelude::*;

verus! {

/// What a declaration says about its adapter.
#[derive(Debug, PartialEq, Eq)]
pub struct IndexablePlan {
    /// The field that gives the identity.
    pub id_field: String,
    /// The field that gives the collection.
    pub collection_field: String,
    /// The field that gives the text to embed.
    pub embed_field: String,
    /// Whether the identity field is textual, so that the identity is the
    /// digest of its text; else the identity is the field's own value.
    pub id_is_string: bool,
}

/// The attribute that a declaration lacks.
#[derive(Clone, Copy, Debug, PartialEq, Eq, Structural)]
pub enum MissingAttribute {
    IdField,
    CollectionField,
    EmbedField,
}

impl MissingAttribute {
    /// The complaint about the missing attribute.
    pub fn message(&self) -> (text: String)
        ensures
            text@ == match self {
                MissingAttribute::IdField => "id_field attribute is required."@,
                MissingAttribute::CollectionField => "collection_field attribute is required."@,
                MissingAttribute::EmbedField => "embed_field attribute is required."@,
            },
    {
        match self {
            MissingAttribute::IdField => "id_field attribute is required.".to_owned(),
            MissingAttribute::CollectionField => "collection_field attribute is required.".to_owned(),
            MissingAttribute::EmbedField => "embed_field attribute is required.".to_owned(),
        }
    }
}

/// The value that a list of (name, value) attributes gives to `name`: that
/// of the last attribute of this name.
pub open spec fn last_value(attributes: Seq<(String, String)>, name: Seq<char>) -> Option<
    Seq<char>,
>
    decreases attributes.len(),
{
    if attributes.len() == 0 {
        None
    } else if attributes.last().0@ == name {
        Some(attributes.last().1@)
    } else {
        last_value(attributes.drop_last(), name)
    }
}

/// Whether the declared fields, each a name and the last segment of its
/// type, hold a field `name` of type `String`.
pub open spec fn has_string_field(fields: Seq<(String, String)>, name: Seq<char>) -> bool {
    exists|i: int|
        0 <= i < fields.len() && (#[trigger] fields[i]).0@ == name && fields[i].1@ == "String"@
}

/// The value of the last attribute named `name`.
fn find_last(attributes: &Vec<(String, String)>, name: &str) -> (value: Option<String>)
    ensures
        match value {
            Some(v) => last_value(attributes@, name@) == Some(v@),
            None => last_value(attributes@, name@).is_none(),
        },
{
    let wanted: String = name.to_owned();
    let mut i: usize = attributes.len();
    assert(attributes@.take(i as int) =~= attributes@);
    while i > 0
        invariant
            i <= attributes.len(),
            wanted@ == name@,
            last_value(attributes@, name@) == last_value(attributes@.take(i as int), name@),
        decreases i,
    {
        i = i - 1;
        assert(attributes@.take(i + 1).drop_last() =~= attributes@.take(i as int));
        if attributes[i].0 == wanted {
            return Some(attributes[i].1.clone());
        }
    }
    None
}

/// Whether `fields` holds a field `name` of type `String`.
fn field_is_string(fields: &Vec<(String, String)>, name: &String) -> (found: bool)
    ensures
        found == has_string_field(fields@, name@),
{
    let string: String = "String".to_owned();
    let mut i: usize = 0;
    while i < fields.len()
        invariant
            i <= fields.len(),
            string@ == "String"@,
            forall|j: int|
                0 <= j < i ==> !((#[trigger] fields[j]).0@ == name@ && fields[j].1@ == "String"@),
        decreases fields.len() - i,
    {
        if fields[i].0 == *name && fields[i].1 == string {
            return true;
        }
        i = i + 1;
    }
    false
}

/// Works out the adapter of a declaration.
///
/// `attributes` holds the name and value of each textual `indexable`
/// attribute of the declaration, in order; `fields` holds the name of each
/// declared field and the last segment of its type. Attributes of other
/// names are ignored, and of several attributes of one name the last
/// counts. The three fields must be named: the first of `id_field`,
/// `collection_field`, `embed_field` that is not is reported.
pub fn derive_indexable(attributes: &Vec<(String, String)>, fields: &Vec<(String, String)>) -> (plan:
    Result<IndexablePlan, MissingAttribute>)
    ensures
        match plan {
            Ok(p) => {
                &&& last_value(attributes@, "id_field"@) == Some(p.id_field@)
                &&& last_value(attributes@, "collection_field"@) == Some(p.collection_field@)
                &&& last_value(attributes@, "embed_field"@) == Some(p.embed_field@)
                &&& p.id_is_string == has_string_field(fields@, p.id_field@)
            },
            Err(MissingAttribute::IdField) => last_value(attributes@, "id_field"@).is_none(),
            Err(MissingAttribute::CollectionField) => {
                &&& last_value(attributes@, "id_field"@).is_some()
                &&& last_value(attributes@, "collection_field"@).is_none()
            },
            Err(MissingAttribute::EmbedField) => {
                &&& last_value(attributes@, "id_field"@).is_some()
                &&& last_value(attributes@, "collection_field"@).is_some()
                &&& last_value(attributes@, "embed_field"@).is_none()
            },
        },
{
    let id_field = match find_last(attributes, "id_field") {
        Some(name) => name,
        None => { return Err(MissingAttribute::IdField); },
    };
    let collection_field = match find_last(attributes, "collection_field") {
        Some(name) => name,
        None => { return Err(MissingAttribute::CollectionField); },
    };
    let embed_field = match find_last(attributes, "embed_field") {
        Some(name) => name,
        None => { return Err(MissingAttribute::EmbedField); },
    };
    let id_is_string = field_is_string(fields, &id_field);
    Ok(IndexablePlan { id_field, collection_field, embed_field, id_is_string })
}

} // verus!
