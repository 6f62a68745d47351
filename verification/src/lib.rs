//! Generation and linking of WebAssembly RPC stubs.
//!
//! The crate resolves a WIT package dependency graph, synthesizes a stub
//! interface document for a selected world, and plans the filesystem
//! actions that merge a generated stub into another component's WIT tree.

pub mod commands;
pub mod composer;
pub mod imports;
pub mod merge;
pub mod model;
pub mod resolver;
pub mod stub;

pub use commands::{
    generate, get_file_name, initialize_workspace, AddStubDependencyArgs, BuildArgs, Command,
    ComposeArgs, GenerateArgs, InitializeWorkspaceArgs, WasmRpcOverride,
};
pub use composer::compose;
pub use merge::add_stub_dependency;
pub use model::PackageName;
