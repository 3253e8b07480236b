//! Localization resource maintenance: a document model over Qt Linguist and
//! GNU Gettext catalogs, propagation of translations between script variants,
//! and the path templates that locate per-language files.

pub mod text;
pub mod i18n_file;
pub mod subcmd;
pub mod transifex;
