//! Verified core of the Hive registry editor.
pub mod text;
pub mod num;
pub mod paths;
pub mod values;
pub mod reg_export;
pub mod reg_import;
pub mod format;
pub mod editor;
pub mod panels;
