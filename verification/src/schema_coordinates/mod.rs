pub mod coordinates;
pub mod lexer;
pub mod parser;

pub use coordinates::{
    ArgumentCoordinate, DirectiveArgumentCoordinate, DirectiveCoordinate, MemberCoordinate, Name,
    SchemaCoordinate, TypeCoordinate,
};
pub use parser::parse_schema_coordinate;
pub mod laws;
