//! Selection-aware markdown formatting for a plain text editing widget.
//!
//! The engine takes a buffer, a selection in character offsets and a
//! formatting operation, and computes the new buffer and the new selection.
//! Applying an operation to text that already carries it removes it again.
pub mod rich;
pub mod text;
pub mod toolbar;
