//! The errors the host reports.
use vstd::prelude::*;

verus! {

/// An error of the host, by kind.
#[derive(Debug)]
pub enum CoreError {
    /// A script or module failed to parse.
    Compile { message: String },
    /// A script threw; `native` tells a native error object from any other value.
    ScriptRuntime { message: String, native: bool },
    /// The source of a module could not be read.
    ModuleRead { specifier: String, referrer: Option<String>, reason: String },
    /// The linker could not satisfy a static import.
    UnresolvedImport { specifier: String, importer: String },
    /// An operation id that names no operation.
    UnknownOp { id: i64 },
    /// A resource id that names no live resource of the kind asked for.
    ResourceNotFound { rid: u32 },
    /// The host stopped the script while it ran.
    ExecutionTerminated,
}

} // verus!
