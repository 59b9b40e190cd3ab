//! Rendering of OpenStreetMap ways and relations as a tree of styled drawing
//! elements, together with the geographic rectangle that the drawing covers.

mod active;
pub mod acyclic;
pub mod bound;
pub mod diagnostic;
pub mod document;
pub mod element;
pub mod idlist;
pub mod objects;
pub mod order;
pub mod render;
pub mod style;
