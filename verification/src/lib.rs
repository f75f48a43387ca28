//! Line-addressing core of a diagnostics panel.
//!
//! Diagnostics are grouped by file and shown as a flat list of rows: a header
//! row per file, one row per message line of each diagnostic, and, for each
//! related location, a header row followed by its own message rows. A file may
//! be collapsed, in which case only its header row is shown.
//!
//! Everything is addressed through a single integer row coordinate. The same
//! span arithmetic is used to size the scroll area, to decide which rows to
//! paint, and to map a clicked row back to a semantic action, so the three
//! traversals can never disagree.

pub mod hit;
pub mod index;
pub mod model;
pub mod paths;
pub mod render;
pub mod sizer;
pub mod span;
