//! Keymap visualisation for a 44-key split keyboard: a line-oriented parser
//! that recovers the layers of a firmware keymap, a classifier that assigns
//! every key a display category, and a layout engine that places every key
//! on a canvas.
pub mod classify;
pub mod keys;
pub mod layout;
pub mod parser;
pub mod stats;
pub mod text;

pub use classify::{classify, extract_layer_number, get_key_class, KeyClass};
pub use keys::{is_empty_key, parse_keys_with_parens};
pub use layout::{escape_label, layout, Layout, PlacedKey, PlacedLayer};
pub use parser::{parse_layers, Layer, ParseError};
pub use stats::{key_counts, KeyCounts};
