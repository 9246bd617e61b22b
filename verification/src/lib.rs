//! Render a HyperList outline as the body of one self-contained HTML page.

pub mod chars;
pub mod text;
pub mod scan;
pub mod head;
pub mod refs;
pub mod elements;
pub mod parse;
pub mod page;
pub mod render;
