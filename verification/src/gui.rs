//! What the graphical front-end decides: the theme, the order of the
//! result table, the selection, and which search results may still be
//! shown.

pub mod app;
pub mod theme;
