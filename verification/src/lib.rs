//! A project-scaffolding generator library.
//!
//! Given a desired project shape (single binary, single library, or a nested
//! workspace of sub-libraries) and a flat list of library-path specifications,
//! this library plans the directory/file layout to materialize and the module
//! declarations to register in each owning module file.
//!
//! The library itself performs no I/O: every public operation is a pure
//! function from its inputs to either a value or an ordered plan of
//! filesystem/process actions, which a thin front end executes.

use vstd::prelude::*;

pub mod generators;
pub mod libdict;
pub mod materialize;
pub mod paths;
pub mod plan;

use crate::generators::RustGenerator;

verus! {

/// Outcome of an operation that yields no value on success.
pub type GenResult<E> = core::result::Result<(), E>;

/// Base project types to build.
#[derive(Debug, Clone, Copy, PartialEq, Eq, Structural)]
pub enum ProjectType {
    /// Empty project
    Empty,
    /// Binary executable
    Bin,
    /// Library
    Lib,
    /// Root project with sub-projects and a root binary
    NestedBin,
    /// Root project with library sub-projects
    Nested,
}

/// Which external toolchain generates project skeletons.
#[derive(Debug, Clone, Copy, PartialEq, Eq, Structural)]
pub enum ProjectBuilder {
    Build2,
    Python,
    Rust,
}

/// The source-file extension used by each builder's target language.
pub fn get_file_ext(p_type: ProjectBuilder) -> (r: String)
    ensures
        p_type is Build2 ==> r@ == ".xpp"@,
        p_type is Python ==> r@ == ".py"@,
        p_type is Rust ==> r@ == ".rs"@,
{
    match p_type {
        ProjectBuilder::Build2 => String::from_str(".xpp"),
        ProjectBuilder::Python => String::from_str(".py"),
        ProjectBuilder::Rust => String::from_str(".rs"),
    }
}

/// Why a scaffolding request was refused.
#[derive(Debug, Clone, Copy, PartialEq, Eq, Structural)]
pub enum GenError {
    /// A nested project type was requested with no sub-projects.
    NoSubprojects,
    /// An empty project was requested together with library entries.
    EmptyHasLibs,
    /// The requested operation or builder is declared but not implemented.
    NotImplemented,
    /// The source root to materialize under does not exist.
    SourceRootMissing,
}

impl GenError {
    /// A human-readable description of the error.
    pub fn message(&self) -> (r: String)
        ensures
            self is NoSubprojects ==> r@ == "No subprojects specified for nested project"@,
            self is EmptyHasLibs ==> r@ == "Empty projects have no libraries attached."@,
            self is NotImplemented ==> r@ == "Not implemented."@,
            self is SourceRootMissing ==> r@ == "Src path for library files not found."@,
    {
        match self {
            GenError::NoSubprojects => String::from_str(
                "No subprojects specified for nested project",
            ),
            GenError::EmptyHasLibs => String::from_str("Empty projects have no libraries attached."),
            GenError::NotImplemented => String::from_str("Not implemented."),
            GenError::SourceRootMissing => String::from_str("Src path for library files not found."),
        }
    }
}

/// Selects the generator implementing the given builder; builders that are
/// declared but not implemented yield a typed error instead of a generator.
pub fn get_generator(p_type: ProjectBuilder) -> (r: Result<RustGenerator, GenError>)
    ensures
        r is Ok <==> p_type is Rust,
        !(p_type is Rust) ==> r == Err::<RustGenerator, GenError>(GenError::NotImplemented),
{
    match p_type {
        ProjectBuilder::Build2 => Err(GenError::NotImplemented),
        ProjectBuilder::Python => Err(GenError::NotImplemented),
        ProjectBuilder::Rust => Ok(RustGenerator),
    }
}

/// Placeholder for package-manifest import generation; not implemented.
pub fn import_package_json(_file_path: &String) -> (r: GenResult<GenError>)
    ensures
        r == GenResult::<GenError>::Err(GenError::NotImplemented),
{
    Err(GenError::NotImplemented)
}

} // verus!
