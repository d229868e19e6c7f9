//! A small document rendering core: selector matching and the CSS cascade
//! produce a styled tree, which is turned into a box tree and laid out in
//! normal block flow.
//!
//! All lengths are whole pixels held in `i64`; results that would leave the
//! range of `i64` saturate at its bounds.

pub mod css;
pub mod dom;
pub mod layout;
pub mod props;
pub mod style;
mod text;
pub mod html;
pub mod painting;
