//! `rage resource`: what a resource or metadata file is and what it holds, as
//! text or as JSON.
pub mod assemble;
pub mod checks;
pub mod container;
pub mod drawables;
pub mod info;
pub mod manifest;
pub mod maps;
pub mod numbers;
pub mod types;

pub use assemble::BuildArgs;
pub use checks::Checks;
pub use container::{detect, parse_header, Container, MetaContainer, ResourceError, Rsc7Header};
pub use info::{
    run, run_info, unresolved_note, write_json, write_text, Contents, DumpArgs, InfoArgs, ResourceArgs,
    ResourceCommand,
};
