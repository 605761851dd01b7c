//! Documentation extraction for Nix function definitions.
//!
//! Given the text of a Nix source file and a cursor position, the library
//! finds the smallest enclosing function literal, the named binding it is
//! assigned to (if any), and the comment block that documents that binding,
//! and renders an identifier, a parameter synopsis and the cleaned comment
//! text into a single formatted string.

pub mod comments;
pub mod format;
pub mod pprint;
pub mod search;
pub mod strutil;
pub mod text;
pub mod tree;
pub mod util;

pub use comments::DocToken;
pub use comments::cleanup_comments;
pub use comments::cleanup_single_line;
pub use comments::dedent_comment;
pub use comments::has_empty_line;
pub use format::SearchResult;
pub use search::get_function_docs;
pub use text::convert_endings;
pub use text::find_pos;
pub use util::TestMultiplyArgs;
