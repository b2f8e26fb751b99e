pub mod contents;
pub mod document;
pub mod ids;
pub mod storage;
pub mod strings;
pub mod writer;

pub use document::ExecutableDocument;
pub use writer::ExecutableAstWriter;
pub mod laws;
pub mod readers;
pub mod definitions;
pub mod selections;
pub mod value;
pub mod display;
pub mod value_eq;
pub mod node_display;
pub mod layout;
pub mod display_laws;

pub use definitions::{ExecutableDefinition, FragmentDefinition, OperationDefinition};
pub use readers::{Argument, Directive, ExecutableId, Type, VariableDefinition};
pub use selections::{FieldSelection, FragmentSpread, InlineFragment, Selection};
pub use value::Value;
