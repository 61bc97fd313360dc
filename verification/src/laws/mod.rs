//! What holds of rendered diagnostics whatever is put into them.

pub mod carets;
pub mod clean;
pub mod content;
pub mod emphasis;
pub mod line_count;
pub mod numbers;
pub mod order;
pub mod output;
pub mod reading;
pub mod sections;
pub mod splicing;
pub mod tabs;
