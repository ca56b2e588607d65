//! tylax: LaTeX ↔ Typst conversion.
//!
//! The Typst → LaTeX direction lowers evaluated Typst content
//! ([`typst2latex::lower::Node`]) into LaTeX, enforcing a policy for the
//! constructs that cannot be lowered; [`detect`] tells the two formats apart.
use vstd::prelude::*;

pub mod typst2latex;
pub mod detect;
pub mod strings;

pub use detect::{convert_auto, convert_auto_document, detect_format};
pub use typst2latex::context::{DocumentWrapperMode, T2LOptions, UnsupportedMode};

verus! {
}
