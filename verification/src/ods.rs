//! The data model of dialect-definition inputs: what a dialect
//! binding is generated from, as plain values.

use vstd::prelude::*;

verus! {

/// The input describing one dialect to generate bindings for.
pub struct DialectInput {
    /// The dialect name.
    pub name: String,
    /// Extra include directories for the definition files.
    pub include_directories: Vec<String>,
    /// The definition files.
    pub files: Vec<String>,
    /// Directories searched for definition files.
    pub directories: Vec<String>,
}

impl DialectInput {
    /// Creates a dialect input from its parts.
    pub fn new(
        name: String,
        include_directories: Vec<String>,
        files: Vec<String>,
        directories: Vec<String>,
    ) -> (r: DialectInput)
        ensures
            r.name == name,
            r.include_directories == include_directories,
            r.files == files,
            r.directories == directories,
    {
        DialectInput { name, include_directories, files, directories }
    }

    /// The dialect name.
    pub fn name(&self) -> (r: &str)
        ensures
            r@ == self.name@,
    {
        self.name.as_str()
    }

    /// The extra include directories.
    pub fn include_directories(&self) -> (r: &Vec<String>)
        ensures
            r == &self.include_directories,
    {
        &self.include_directories
    }

    /// The definition files.
    pub fn files(&self) -> (r: &Vec<String>)
        ensures
            r == &self.files,
    {
        &self.files
    }

    /// The searched directories.
    pub fn directories(&self) -> (r: &Vec<String>)
        ensures
            r == &self.directories,
    {
        &self.directories
    }
}

/// How the variable-length operand or result groups of an operation
/// are sized.
#[derive(Debug)]
pub enum VariadicKind {
    /// At most one variable-length group: its size is whatever is left
    /// over.
    Simple { variable_length_seen: bool },
    /// Several variable-length groups of the same size.
    SameSize {
        variable_length_count: usize,
        preceding_simple_count: usize,
        preceding_variadic_count: usize,
    },
    /// Group sizes carried in an attribute.
    AttributeSized,
}

impl VariadicKind {
    /// Chooses the sizing scheme from the counts and flags of the
    /// definition. A definition with several variable-length groups
    /// must declare one of the two supported schemes.
    pub fn new(variable_length_count: usize, same_size: bool, attribute_sized: bool)
        -> (r: VariadicKind)
        requires
            variable_length_count > 1 ==> same_size || attribute_sized,
        ensures
            variable_length_count <= 1
                ==> r == (VariadicKind::Simple { variable_length_seen: false }),
            variable_length_count > 1 && same_size ==> r == (VariadicKind::SameSize {
                variable_length_count,
                preceding_simple_count: 0,
                preceding_variadic_count: 0,
            }),
            variable_length_count > 1 && !same_size ==> r == VariadicKind::AttributeSized,
    {
        if variable_length_count <= 1 {
            VariadicKind::Simple { variable_length_seen: false }
        } else if same_size {
            VariadicKind::SameSize {
                variable_length_count,
                preceding_simple_count: 0,
                preceding_variadic_count: 0,
            }
        } else {
            VariadicKind::AttributeSized
        }
    }
}

/// The kind of a trait attached to an operation definition.
#[derive(Debug)]
pub enum TraitKind {
    /// A native trait with a fully qualified name.
    Native { name: String, structural: bool },
    /// A predicate trait; it carries no name.
    Predicate,
    /// An internal trait with a name.
    Internal { name: String },
    /// An interface trait with a name.
    Interface { name: String },
}

/// A trait attached to an operation definition.
#[derive(Debug)]
pub struct Trait {
    /// Which kind of trait this is.
    pub kind: TraitKind,
}

/// The name a trait answers to, if any.
pub open spec fn trait_name(t: Trait) -> Option<Seq<char>> {
    match t.kind {
        TraitKind::Native { name, .. } => Some(name@),
        TraitKind::Internal { name } => Some(name@),
        TraitKind::Interface { name } => Some(name@),
        TraitKind::Predicate => None,
    }
}

impl Trait {
    /// A native trait.
    pub fn new_native(name: String, structural: bool) -> (r: Trait)
        ensures
            r.kind == (TraitKind::Native { name, structural }),
    {
        Trait { kind: TraitKind::Native { name, structural } }
    }

    /// A predicate trait.
    pub fn new_predicate() -> (r: Trait)
        ensures
            r.kind == TraitKind::Predicate,
    {
        Trait { kind: TraitKind::Predicate }
    }

    /// An internal trait.
    pub fn new_internal(name: String) -> (r: Trait)
        ensures
            r.kind == (TraitKind::Internal { name }),
    {
        Trait { kind: TraitKind::Internal { name } }
    }

    /// An interface trait.
    pub fn new_interface(name: String) -> (r: Trait)
        ensures
            r.kind == (TraitKind::Interface { name }),
    {
        Trait { kind: TraitKind::Interface { name } }
    }

    /// Whether the trait carries the expected name; a predicate trait
    /// never does.
    pub fn has_name(&self, expected_name: &str) -> (r: bool)
        ensures
            r == (trait_name(*self) == Some(expected_name@)),
    {
        match &self.kind {
            TraitKind::Native { name, .. } => crate::text::str_eq(name.as_str(), expected_name),
            TraitKind::Internal { name } => crate::text::str_eq(name.as_str(), expected_name),
            TraitKind::Interface { name } => crate::text::str_eq(name.as_str(), expected_name),
            TraitKind::Predicate => false,
        }
    }
}

} // verus!
