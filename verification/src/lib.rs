//! Arena-backed multi-way tree with two verified text renderers.
//!
//! Nodes live in a single growable arena and are addressed by integer
//! handles; a handle equals the node's position in the arena at the moment
//! it was appended, so every child handle is strictly greater than its
//! parent's handle and the children relation is acyclic. On top of the
//! arena sit two renderers: a left-to-right one (`horizontal_string`) and a
//! top-down one (`vertical_string`), both driven by a caller-supplied
//! [`print_params::PrintStrategy`] that turns values into (possibly
//! multi-line) labels and decides how many children are laid out before
//! their parent. A small binary-search-tree client of the arena rounds out
//! the crate.

use vstd::prelude::*;

pub mod binary_search_tree;
pub mod horizontal;
pub mod print_params;
pub mod render;
pub mod text;
pub mod tree;
pub mod vertical;

verus! {

/// Box-drawing glyph: heavy vertical line.
pub const VERTICAL_LINE: char = '\u{2503}';

/// Box-drawing glyph: heavy horizontal line.
pub const HORIZONTAL_LINE: char = '\u{2501}';

/// Box-drawing glyph: heavy down-and-left corner.
pub const RIGHT_TOP_CORNER: char = '\u{2513}';

/// Box-drawing glyph: heavy down-and-right corner.
pub const LEFT_TOP_CORNER: char = '\u{250F}';

/// Box-drawing glyph: heavy up-and-right corner.
pub const LEFT_BOTTOM_CORNER: char = '\u{2517}';

/// Box-drawing glyph: heavy down-and-horizontal junction.
pub const TOP_JUNCTION: char = '\u{2533}';

/// Box-drawing glyph: heavy vertical-and-right junction.
pub const LEFT_JUNCTION: char = '\u{2523}';

} // verus!
