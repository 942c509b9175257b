//! A menu-publishing core: a keyed store of restaurant menus and a renderer
//! that turns one stored menu into a self-contained HTML page.
//!
//! Every function states its result over the views of the data types, and the
//! renderer's output is pinned down character by character by the `*_html`
//! spec functions of [`render`].

pub mod escape;
pub mod price;
pub mod model;
pub mod render;
pub mod store;
pub mod laws;
