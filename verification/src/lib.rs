//! HTML escaping of text that is interpolated into markup.

pub mod encoding;
pub mod entity;
pub mod escape;
pub mod laws;
pub mod model;
pub mod std_specs;
pub mod value;
