//! Report renderers.
pub mod csv;
pub mod html;
pub mod html_rows;
pub mod json;
