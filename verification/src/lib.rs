//! A configuration-driven command-binding loader.
//!
//! The crate reads a comment-tolerant JSON keymap (a sequence of blocks,
//! each with an optional context filter and a mapping from keystroke to
//! action descriptor), resolves each descriptor against a registry of
//! command kinds, and installs the resolved bindings into a binding table.
//! A malformed descriptor or an unresolvable command is skipped and
//! recorded; only a syntactic or structural fault fails the whole load.

pub mod errors;
pub mod keymap_file;
pub mod laws;
pub mod registry;
pub mod schema;
pub mod util;
pub mod value;

pub use errors::LoadError;
pub use errors::ParseError;
pub use errors::ResolveError;
pub use errors::SchemaError;
pub use keymap_file::load;
pub use keymap_file::parse_json_with_comments;
pub use keymap_file::KeyBinding;
pub use keymap_file::KeymapAction;
pub use keymap_file::KeymapBlock;
pub use keymap_file::KeymapCx;
pub use keymap_file::KeymapFile;
pub use keymap_file::SkippedEntry;
pub use registry::no_op_name;
pub use registry::CommandPayload;
pub use registry::PayloadShape;
pub use registry::Registry;
pub use registry::ResolvedCommand;
pub use schema::schema_for_binding_file;
pub use schema::FieldSchema;
pub use schema::SchemaNode;
pub use util::ResultExt;
pub use value::JsonValue;
