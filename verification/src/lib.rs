//! Statusline rendering for coding-assistant sessions.
//!
//! A Starship-style format string (`$module` references, literal text and
//! conditional `(...)` groups) is parsed and each module renders a piece of
//! the session payload.
use vstd::prelude::*;

pub mod config;
pub mod dump;
pub mod input;
pub mod modules;
pub mod paths;
pub mod render;
pub mod style;
pub mod text;

verus! {
}
