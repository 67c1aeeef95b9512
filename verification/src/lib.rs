//! A miniature document-rendering pipeline: a markup parser producing a
//! document tree, a style resolver, a block-model layout engine, and a
//! painter that emits a display list of drawing commands.  Around it, the
//! decision logic of secure resource fetching.

pub mod dom;
pub mod engine;
pub mod ext;
pub mod fetch;
pub mod http;
pub mod parser;
pub mod renderer;
pub mod request;
pub mod style;
pub mod text;
