//! The uniform document model over the two translation-file kinds.

pub mod common;
pub mod gettext;
pub mod linguist;
