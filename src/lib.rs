use vstd::prelude::*;

pub mod text;
pub mod value;
pub mod table;
pub mod scanner;
pub mod parser;
pub mod path;
pub mod laws;

pub use parser::{parse, parse_fragment, JsonCursor, JsonStr};
pub use path::get_path_as_text;
pub use text::esc_quotes;
pub use value::{JsonData, JsonNumber};

verus! {

} // verus!
