//! Semantic errors reported by the code generator. Every failure is data
//! returned to the caller; nothing aborts.

use vstd::prelude::*;
use crate::text::{sp_nat_dec, usize_to_string};

verus! {

/// A source position. The current pipeline never fills it in: it is a
/// hook kept for a later enhancement.
#[derive(Debug, Clone)]
pub struct Location {
    pub line: usize,
    pub column: usize,
}

/// The mathematical value of a source position.
pub struct LocationModel {
    pub line: int,
    pub column: int,
}

impl View for Location {
    type V = LocationModel;

    open spec fn view(&self) -> LocationModel {
        LocationModel { line: self.line as int, column: self.column as int }
    }
}

impl Location {
    /// A source position from its line and column.
    pub fn new(line: usize, column: usize) -> (l: Location)
        ensures
            l == (Location { line, column }),
    {
        Location { line, column }
    }
}

/// A semantic violation found during code generation. `TypeMismatch` and
/// `GenericSemanticError` are unused by the current single-type language;
/// they are kept as extension points.
#[derive(Debug)]
pub enum CompilationError {
    UndeclaredVariable { name: String, location: Option<Location> },
    DuplicateDeclaration { name: String, location: Option<Location> },
    TypeMismatch { expected: String, found: String, location: Option<Location> },
    GenericSemanticError { message: String, location: Option<Location> },
}

/// The mathematical value of a semantic violation.
pub enum CompilationErrorModel {
    UndeclaredVariable { name: Seq<char>, location: Option<LocationModel> },
    DuplicateDeclaration { name: Seq<char>, location: Option<LocationModel> },
    TypeMismatch { expected: Seq<char>, found: Seq<char>, location: Option<LocationModel> },
    GenericSemanticError { message: Seq<char>, location: Option<LocationModel> },
}

impl View for CompilationError {
    type V = CompilationErrorModel;

    open spec fn view(&self) -> CompilationErrorModel {
        match self {
            CompilationError::UndeclaredVariable { name, location } => {
                CompilationErrorModel::UndeclaredVariable {
                    name: name@,
                    location: match location {
                        Some(l) => Some(l@),
                        None => None,
                    },
                }
            },
            CompilationError::DuplicateDeclaration { name, location } => {
                CompilationErrorModel::DuplicateDeclaration {
                    name: name@,
                    location: match location {
                        Some(l) => Some(l@),
                        None => None,
                    },
                }
            },
            CompilationError::TypeMismatch { expected, found, location } => {
                CompilationErrorModel::TypeMismatch {
                    expected: expected@,
                    found: found@,
                    location: match location {
                        Some(l) => Some(l@),
                        None => None,
                    },
                }
            },
            CompilationError::GenericSemanticError { message, location } => {
                CompilationErrorModel::GenericSemanticError {
                    message: message@,
                    location: match location {
                        Some(l) => Some(l@),
                        None => None,
                    },
                }
            },
        }
    }
}

/// The rendering of an optional source position within an error message.
pub open spec fn sp_location_suffix(l: Option<LocationModel>) -> Seq<char> {
    match l {
        None => Seq::empty(),
        Some(loc) => " at line "@ + sp_nat_dec(loc.line as nat) + ", column "@ + sp_nat_dec(
            loc.column as nat,
        ),
    }
}

/// The human-readable message of a semantic violation.
pub open spec fn sp_error_message(e: CompilationErrorModel) -> Seq<char> {
    match e {
        CompilationErrorModel::UndeclaredVariable { name, location } => "Undeclared variable '"@
            + name + "'"@ + sp_location_suffix(location),
        CompilationErrorModel::DuplicateDeclaration { name, location } => {
            "Duplicate declaration of variable '"@ + name + "'"@ + sp_location_suffix(location)
        },
        CompilationErrorModel::TypeMismatch { expected, found, location } => {
            "Type mismatch: expected "@ + expected + ", found "@ + found + sp_location_suffix(
                location,
            )
        },
        CompilationErrorModel::GenericSemanticError { message, location } => "Semantic error: "@
            + message + sp_location_suffix(location),
    }
}

fn location_suffix(l: &Option<Location>) -> (s: String)
    ensures
        s@ == sp_location_suffix(match l {
            Some(loc) => Some(loc@),
            None => None,
        }),
{
    match l {
        None => {
            let s = String::new();
            proof {
                assert(s@ =~= Seq::<char>::empty());
            }
            s
        },
        Some(loc) => {
            let s = String::from_str(" at line ");
            let s = s.concat(usize_to_string(loc.line).as_str());
            let s = s.concat(", column ");
            let s = s.concat(usize_to_string(loc.column).as_str());
            s
        },
    }
}

impl CompilationError {
    /// The human-readable description of this error, as an external
    /// consumer would print it.
    pub fn message(&self) -> (s: String)
        ensures
            s@ == sp_error_message(self@),
    {
        match self {
            CompilationError::UndeclaredVariable { name, location } => {
                let s = String::from_str("Undeclared variable '");
                let s = s.concat(name.as_str());
                let s = s.concat("'");
                s.concat(location_suffix(location).as_str())
            },
            CompilationError::DuplicateDeclaration { name, location } => {
                let s = String::from_str("Duplicate declaration of variable '");
                let s = s.concat(name.as_str());
                let s = s.concat("'");
                s.concat(location_suffix(location).as_str())
            },
            CompilationError::TypeMismatch { expected, found, location } => {
                let s = String::from_str("Type mismatch: expected ");
                let s = s.concat(expected.as_str());
                let s = s.concat(", found ");
                let s = s.concat(found.as_str());
                s.concat(location_suffix(location).as_str())
            },
            CompilationError::GenericSemanticError { message, location } => {
                let s = String::from_str("Semantic error: ");
                let s = s.concat(message.as_str());
                s.concat(location_suffix(location).as_str())
            },
        }
    }
}

} // verus!
