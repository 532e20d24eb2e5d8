//! A small SVG renderer. A streaming XML tokenizer feeds a walker that turns
//! each element into state pushes and pops, style properties and path
//! drawing; path and transform data have their own lexers; paths become edges
//! that a scanline rasterizer fills into an RGBA pixel buffer. Geometry is
//! computed in a number type of the caller's choice (`scalar::Scalar`).
pub mod bytes;
pub mod color;
pub mod cubic;
pub mod document;
pub mod keywords;
pub mod number;
pub mod path;
pub mod raster;
pub mod rasteriser;
pub mod scalar;
pub mod state;
pub mod svg;
pub mod sweep;
pub mod transform;
pub mod xml;

pub use color::parse_color;
pub use document::{apply_style_attribute, apply_view_box_attribute, parse_f32, parse_svg};
pub use rasteriser::{process_path, Edge, PathMode, Rasterizer, RenderError};
pub use scalar::Scalar;
pub use state::{FillRule, State, StateStack};
pub use xml::{StyleParser, XmlEvent, XmlParser};
