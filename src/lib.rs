//! Turns a play-script style chat transcript into a sequence of chat elements,
//! and rewrites the HTML made from them into a fragment that a host which
//! ignores `<style>`, `class` and `id` still shows as intended.

pub mod blocks;
pub mod directory;
pub mod macros;
pub mod markdown;
pub mod parser;
pub mod sanitize;
pub mod text;

pub use blocks::OldPostBlock;
pub use directory::{Config, User};
pub use macros::convert_at_macros;
pub use markdown::{markdown_to_html, rewrite_html_tags};
pub use parser::{parse_posts, ChatlogElement};
pub use sanitize::{join_lines, remove_class_and_id_attributes, sanitize, SanitizeError};
pub use text::{chars_of, string_of};
