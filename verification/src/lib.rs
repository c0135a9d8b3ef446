//! A task timer: named tasks accrue whole seconds while selected, and the
//! whole store round-trips through a persisted text document.
pub mod codec;
pub mod digits;
pub mod state;
pub mod text;
pub mod timefmt;

