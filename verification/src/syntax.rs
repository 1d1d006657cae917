//! The parsed GraphQL documents that dependency analysis reads: definitions
//! and their selections, with what the analysis needs of them.
use vstd::prelude::*;

verus! {

/// A spread of a named fragment.
#[derive(Debug, PartialEq)]
pub struct FragmentSpread {
    pub name: String,
}

/// A field with selections of its own.
#[derive(Debug, PartialEq)]
pub struct LinkedField {
    pub name: String,
    pub selections: Vec<Selection>,
}

/// A field without selections.
#[derive(Debug, PartialEq)]
pub struct ScalarField {
    pub name: String,
}

/// An inline fragment, with an optional type condition.
#[derive(Debug, PartialEq)]
pub struct InlineFragment {
    pub type_condition: Option<String>,
    pub selections: Vec<Selection>,
}

#[derive(Debug, PartialEq)]
pub enum Selection {
    FragmentSpread(FragmentSpread),
    InlineFragment(InlineFragment),
    LinkedField(LinkedField),
    ScalarField(ScalarField),
}

/// An operation; anonymous operations have no name.
#[derive(Debug, PartialEq)]
pub struct OperationDefinition {
    pub name: Option<String>,
    pub selections: Vec<Selection>,
}

/// A named fragment.
#[derive(Debug, PartialEq)]
pub struct FragmentDefinition {
    pub name: String,
    pub type_condition: String,
    pub selections: Vec<Selection>,
}

#[derive(Debug, PartialEq)]
pub enum ExecutableDefinition {
    Operation(OperationDefinition),
    Fragment(FragmentDefinition),
}

/// The selections of a definition.
pub open spec fn definition_selections(d: ExecutableDefinition) -> Seq<Selection> {
    match d {
        ExecutableDefinition::Operation(o) => o.selections@,
        ExecutableDefinition::Fragment(f) => f.selections@,
    }
}

/// The name of a definition, if it has one.
pub open spec fn definition_name(d: ExecutableDefinition) -> Option<Seq<char>> {
    match d {
        ExecutableDefinition::Operation(o) => match o.name {
            Some(n) => Some(n@),
            None => None,
        },
        ExecutableDefinition::Fragment(f) => Some(f.name@),
    }
}

impl ExecutableDefinition {
    /// The name of the definition, if it has one.
    pub fn name(&self) -> (r: Option<&String>)
        ensures
            match r {
                Some(n) => definition_name(*self) == Some(n@),
                None => definition_name(*self) is None,
            },
    {
        match self {
            ExecutableDefinition::Operation(o) => match &o.name {
                Some(n) => Some(n),
                None => None,
            },
            ExecutableDefinition::Fragment(f) => Some(&f.name),
        }
    }

    /// The selections of the definition.
    pub fn selections(&self) -> (r: &Vec<Selection>)
        ensures
            r@ == definition_selections(*self),
    {
        match self {
            ExecutableDefinition::Operation(o) => &o.selections,
            ExecutableDefinition::Fragment(f) => &f.selections,
        }
    }
}

} // verus!
